use crate::path_order::{compare_paths, PathOrder};
use crypto::digest::Digest;
use crypto::md5::Md5;
use crypto::sha1::Sha1;
use crypto::sha2::Sha256;
use vstd::prelude::*;

verus! {

/// The longest message, in bytes, that every supported digest takes: the
/// SHA digests count the message in bits, in 64 bits.
pub const MAX_MESSAGE_BYTES: u64 = 0x1fff_ffff_ffff_ffff;

/// The state of an MD5 computation, `Md5` of the crate `crypto`; nothing
/// inside it is looked at.
#[verifier::external_type_specification]
#[verifier::external_body]
pub struct ExMd5(crypto::md5::Md5);

/// The state of a SHA-1 computation, `Sha1` of the crate `crypto`; nothing
/// inside it is looked at.
#[verifier::external_type_specification]
#[verifier::external_body]
pub struct ExSha1(crypto::sha1::Sha1);

/// The state of a SHA-256 computation, `Sha256` of the crate `crypto`;
/// nothing inside it is looked at.
#[verifier::external_type_specification]
#[verifier::external_body]
pub struct ExSha256(crypto::sha2::Sha256);

/// The bytes that an MD5 state has been fed since it was made, in order;
/// `None` once its digest was taken.
pub uninterp spec fn md5_message(digest: Md5) -> Option<Seq<u8>>;

/// The bytes that a SHA-1 state has been fed since it was made, in order;
/// `None` once its digest was taken.
pub uninterp spec fn sha1_message(digest: Sha1) -> Option<Seq<u8>>;

/// The bytes that a SHA-256 state has been fed since it was made, in order;
/// `None` once its digest was taken.
pub uninterp spec fn sha256_message(digest: Sha256) -> Option<Seq<u8>>;

/// What `Digest::result_str` gives for an MD5 state that has been fed
/// `message`: the MD5 digest of the message, in hexadecimal digits.
pub uninterp spec fn md5_hex(message: Seq<u8>) -> Seq<char>;

/// What `Digest::result_str` gives for a SHA-1 state that has been fed
/// `message`: the SHA-1 digest of the message, in hexadecimal digits.
pub uninterp spec fn sha1_hex(message: Seq<u8>) -> Seq<char>;

/// What `Digest::result_str` gives for a SHA-256 state that has been fed
/// `message`: the SHA-256 digest of the message, in hexadecimal digits.
pub uninterp spec fn sha256_hex(message: Seq<u8>) -> Seq<char>;

/// `Md5::new` of the crate `crypto`: a state that has been fed nothing.
#[verifier::external_body]
fn md5_new() -> (digest: Md5)
    ensures
        md5_message(digest) == Some(Seq::<u8>::empty()),
{
    Md5::new()
}

/// `Digest::input` on `Md5`: the state has been fed `data` after what it had
/// been fed before. The call panics on a state whose digest was taken, and,
/// where overflow is checked, on a message of 2^64 bytes or more; both are
/// left out, and on what is let in it does not panic.
#[verifier::external_body]
fn md5_input(digest: &mut Md5, data: &[u8])
    requires
        md5_message(*old(digest)) is Some,
        md5_message(*old(digest))->0.len() + data@.len() <= MAX_MESSAGE_BYTES,
    ensures
        md5_message(*final(digest)) == Some(md5_message(*old(digest))->0 + data@),
    no_unwind
{
    digest.input(data)
}

/// `Digest::result_str` on `Md5`: the digest of all that the state has been
/// fed, as a function of those bytes alone.
#[verifier::external_body]
fn md5_result_str(digest: Md5) -> (hex: String)
    requires
        md5_message(digest) is Some,
    ensures
        hex@ == md5_hex(md5_message(digest)->0),
{
    let mut digest = digest;
    digest.result_str()
}

/// `Sha1::new` of the crate `crypto`: a state that has been fed nothing.
#[verifier::external_body]
fn sha1_new() -> (digest: Sha1)
    ensures
        sha1_message(digest) == Some(Seq::<u8>::empty()),
{
    Sha1::new()
}

/// `Digest::input` on `Sha1`: the state has been fed `data` after what it
/// had been fed before. The call panics on a state whose digest was taken,
/// and on a message whose length in bits does not fit in 64 bits; both are
/// left out, and on what is let in it does not panic.
#[verifier::external_body]
fn sha1_input(digest: &mut Sha1, data: &[u8])
    requires
        sha1_message(*old(digest)) is Some,
        sha1_message(*old(digest))->0.len() + data@.len() <= MAX_MESSAGE_BYTES,
    ensures
        sha1_message(*final(digest)) == Some(sha1_message(*old(digest))->0 + data@),
    no_unwind
{
    digest.input(data)
}

/// `Digest::result_str` on `Sha1`: the digest of all that the state has been
/// fed, as a function of those bytes alone.
#[verifier::external_body]
fn sha1_result_str(digest: Sha1) -> (hex: String)
    requires
        sha1_message(digest) is Some,
    ensures
        hex@ == sha1_hex(sha1_message(digest)->0),
{
    let mut digest = digest;
    digest.result_str()
}

/// `Sha256::new` of the crate `crypto`: a state that has been fed nothing.
#[verifier::external_body]
fn sha256_new() -> (digest: Sha256)
    ensures
        sha256_message(digest) == Some(Seq::<u8>::empty()),
{
    Sha256::new()
}

/// `Digest::input` on `Sha256`: the state has been fed `data` after what it
/// had been fed before. The call panics on a state whose digest was taken,
/// and on a message whose length in bits does not fit in 64 bits; both are
/// left out, and on what is let in it does not panic.
#[verifier::external_body]
fn sha256_input(digest: &mut Sha256, data: &[u8])
    requires
        sha256_message(*old(digest)) is Some,
        sha256_message(*old(digest))->0.len() + data@.len() <= MAX_MESSAGE_BYTES,
    ensures
        sha256_message(*final(digest)) == Some(sha256_message(*old(digest))->0 + data@),
    no_unwind
{
    digest.input(data)
}

/// `Digest::result_str` on `Sha256`: the digest of all that the state has
/// been fed, as a function of those bytes alone.
#[verifier::external_body]
fn sha256_result_str(digest: Sha256) -> (hex: String)
    requires
        sha256_message(digest) is Some,
    ensures
        hex@ == sha256_hex(sha256_message(digest)->0),
{
    let mut digest = digest;
    digest.result_str()
}

/// The algorithms by which a file's bytes can be fingerprinted.
#[derive(Clone, Copy, Debug, PartialEq, Eq, Structural)]
pub enum HashAlgorithm {
    Md5,
    Sha1,
    Sha256,
}

/// The algorithm that a name selects: `md5`, `sha1` and `sha256` select
/// their own. No other name selects any: `adler32` and `crc32` are known but
/// have no implementation, and the set of names is closed.
pub open spec fn algorithm_named(name: Seq<char>) -> Option<HashAlgorithm> {
    if name == "md5"@ {
        Some(HashAlgorithm::Md5)
    } else if name == "sha1"@ {
        Some(HashAlgorithm::Sha1)
    } else if name == "sha256"@ {
        Some(HashAlgorithm::Sha256)
    } else {
        None
    }
}

impl HashAlgorithm {
    /// The algorithm that `name` selects, if it selects one.
    pub fn from_name(name: &str) -> (r: Option<HashAlgorithm>)
        ensures
            r == algorithm_named(name@),
    {
        if compare_paths(name, "md5") == PathOrder::Same {
            Some(HashAlgorithm::Md5)
        } else if compare_paths(name, "sha1") == PathOrder::Same {
            Some(HashAlgorithm::Sha1)
        } else if compare_paths(name, "sha256") == PathOrder::Same {
            Some(HashAlgorithm::Sha256)
        } else {
            None
        }
    }
}

/// The fingerprint of a message under an algorithm.
pub open spec fn fingerprint(algorithm: HashAlgorithm, message: Seq<u8>) -> Seq<char> {
    match algorithm {
        HashAlgorithm::Md5 => md5_hex(message),
        HashAlgorithm::Sha1 => sha1_hex(message),
        HashAlgorithm::Sha256 => sha256_hex(message),
    }
}

/// Why a checksum did not take its input.
#[derive(Clone, Copy, Debug, PartialEq, Eq, Structural)]
pub enum ChecksumError {
    /// With the input the message would be longer than
    /// [`MAX_MESSAGE_BYTES`].
    MessageTooLong,
}

enum DigestState {
    Md5(Md5),
    Sha1(Sha1),
    Sha256(Sha256),
}

impl DigestState {
    spec fn algorithm(self) -> HashAlgorithm {
        match self {
            DigestState::Md5(_) => HashAlgorithm::Md5,
            DigestState::Sha1(_) => HashAlgorithm::Sha1,
            DigestState::Sha256(_) => HashAlgorithm::Sha256,
        }
    }

    spec fn message(self) -> Option<Seq<u8>> {
        match self {
            DigestState::Md5(d) => md5_message(d),
            DigestState::Sha1(d) => sha1_message(d),
            DigestState::Sha256(d) => sha256_message(d),
        }
    }
}

/// A digest state together with the count of the bytes it has been fed.
struct Counted {
    state: DigestState,
    length: u64,
}

impl Counted {
    spec fn open_and_counted(self) -> bool {
        &&& self.state.message() matches Some(message)
        &&& message.len() == self.length
        &&& self.length <= MAX_MESSAGE_BYTES
    }

    fn feed(&mut self, data: &[u8], count: u64)
        requires
            old(self).open_and_counted(),
            count == data@.len(),
            old(self).length + data@.len() <= MAX_MESSAGE_BYTES,
        ensures
            final(self).open_and_counted(),
            final(self).state.algorithm() == old(self).state.algorithm(),
            final(self).state.message() == Some(old(self).state.message()->0 + data@),
        no_unwind
    {
        match &mut self.state {
            DigestState::Md5(d) => md5_input(d, data),
            DigestState::Sha1(d) => sha1_input(d, data),
            DigestState::Sha256(d) => sha256_input(d, data),
        }
        self.length = self.length + count;
    }
}

/// A fingerprint in the making: it is fed a message block by block and then
/// gives the fingerprint of the whole.
pub struct Checksum {
    counted: Counted,
}

impl Checksum {
    #[verifier::type_invariant]
    spec fn well_formed(self) -> bool {
        self.counted.open_and_counted()
    }

    /// The algorithm that the checksum was made for.
    pub closed spec fn algorithm(&self) -> HashAlgorithm {
        self.counted.state.algorithm()
    }

    /// The bytes fed so far, in order.
    pub closed spec fn message(&self) -> Seq<u8> {
        self.counted.state.message()->0
    }

    /// A checksum for `algorithm` that has been fed nothing.
    pub fn new(algorithm: HashAlgorithm) -> (r: Checksum)
        ensures
            r.algorithm() == algorithm,
            r.message() == Seq::<u8>::empty(),
    {
        let state = match algorithm {
            HashAlgorithm::Md5 => DigestState::Md5(md5_new()),
            HashAlgorithm::Sha1 => DigestState::Sha1(sha1_new()),
            HashAlgorithm::Sha256 => DigestState::Sha256(sha256_new()),
        };
        Checksum { counted: Counted { state, length: 0 } }
    }

    /// A checksum for the same algorithm that has been fed nothing.
    pub fn restart(&self) -> (r: Checksum)
        ensures
            r.algorithm() == self.algorithm(),
            r.message() == Seq::<u8>::empty(),
    {
        match &self.counted.state {
            DigestState::Md5(_) => Checksum::new(HashAlgorithm::Md5),
            DigestState::Sha1(_) => Checksum::new(HashAlgorithm::Sha1),
            DigestState::Sha256(_) => Checksum::new(HashAlgorithm::Sha256),
        }
    }

    /// Feeds `data` after what was fed before. A block that would make the
    /// message longer than [`MAX_MESSAGE_BYTES`] is refused and changes
    /// nothing.
    pub fn input(&mut self, data: &[u8]) -> (r: Result<(), ChecksumError>)
        ensures
            final(self).algorithm() == old(self).algorithm(),
            old(self).message().len() + data@.len() <= MAX_MESSAGE_BYTES ==> r == Ok::<
                (),
                ChecksumError,
            >(()) && final(self).message() == old(self).message() + data@,
            old(self).message().len() + data@.len() > MAX_MESSAGE_BYTES ==> r == Err::<
                (),
                ChecksumError,
            >(ChecksumError::MessageTooLong) && final(self).message() == old(self).message(),
    {
        proof {
            use_type_invariant(&*self);
        }
        let count: u64 = data.len() as u64;
        if count > MAX_MESSAGE_BYTES - self.counted.length {
            return Err(ChecksumError::MessageTooLong);
        }
        self.counted.feed(data, count);
        Ok(())
    }

    /// The fingerprint of all that was fed.
    pub fn result_str(self) -> (hex: String)
        ensures
            hex@ == fingerprint(self.algorithm(), self.message()),
    {
        proof {
            use_type_invariant(&self);
        }
        match self.counted.state {
            DigestState::Md5(d) => md5_result_str(d),
            DigestState::Sha1(d) => sha1_result_str(d),
            DigestState::Sha256(d) => sha256_result_str(d),
        }
    }
}

/// Makes the checksums of one run, all for the same algorithm.
#[derive(Clone, Copy, Debug, PartialEq, Eq, Structural)]
pub struct ChecksumGenerator {
    pub algorithm: HashAlgorithm,
}

impl ChecksumGenerator {
    /// A checksum of its own for one file, fed nothing yet.
    pub fn generate(&self) -> (r: Checksum)
        ensures
            r.algorithm() == self.algorithm,
            r.message() == Seq::<u8>::empty(),
    {
        Checksum::new(self.algorithm)
    }
}

} // verus!
