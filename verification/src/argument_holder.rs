use crate::checksum::{algorithm_named, ChecksumGenerator, HashAlgorithm};
use vstd::prelude::*;

verus! {

/// The configuration of one run.
#[derive(Debug)]
pub struct ArgumentHolder {
    /// The first root.
    pub directory_a: String,
    /// The second root.
    pub directory_b: String,
    /// Whether the report leaves out the unchanged files.
    pub ignore_unchanged: bool,
    /// The name of the algorithm that fingerprints the files of both roots.
    pub hash_name: String,
}

/// The mathematical content of an [`ArgumentHolder`].
pub struct ArgumentHolderView {
    pub directory_a: Seq<char>,
    pub directory_b: Seq<char>,
    pub ignore_unchanged: bool,
    pub hash_name: Seq<char>,
}

impl View for ArgumentHolder {
    type V = ArgumentHolderView;

    open spec fn view(&self) -> ArgumentHolderView {
        ArgumentHolderView {
            directory_a: self.directory_a@,
            directory_b: self.directory_b@,
            ignore_unchanged: self.ignore_unchanged,
            hash_name: self.hash_name@,
        }
    }
}

/// What the command line gave: the two roots, where it gave them, and which
/// of the flags it held.
#[derive(Debug)]
pub struct ParsedArguments {
    pub directory_a: Option<String>,
    pub directory_b: Option<String>,
    pub ignore_unchanged: bool,
    pub md5: bool,
    pub sha1: bool,
    pub sha256: bool,
    pub adler32: bool,
    pub crc32: bool,
}

/// Why a configuration cannot be run.
#[derive(Debug, PartialEq, Eq)]
pub enum ConfigError {
    /// One of the two roots was not given.
    MissingDirectory,
    /// More than one algorithm was selected.
    ConflictingAlgorithms,
    /// No algorithm of this name has an implementation.
    UnsupportedAlgorithm(String),
}

/// One for a flag that is set, nothing for one that is not.
pub open spec fn flag_count(flag: bool) -> nat {
    if flag {
        1
    } else {
        0
    }
}

/// How many of the flags that select an algorithm are set.
pub open spec fn algorithms_selected(args: ParsedArguments) -> nat {
    flag_count(args.md5) + flag_count(args.sha1) + flag_count(args.sha256) + flag_count(
        args.adler32,
    ) + flag_count(args.crc32)
}

/// The name of the algorithm that the flags select: that of the flag that is
/// set of `md5`, `sha1`, `sha256`, `adler32`, `crc32`, and `md5` where none
/// is.
pub open spec fn selected_hash_name(args: ParsedArguments) -> Seq<char> {
    if args.md5 {
        "md5"@
    } else if args.sha1 {
        "sha1"@
    } else if args.sha256 {
        "sha256"@
    } else if args.adler32 {
        "adler32"@
    } else if args.crc32 {
        "crc32"@
    } else {
        "md5"@
    }
}

impl Default for ArgumentHolder {
    /// No roots, every file reported, MD5.
    fn default() -> (r: ArgumentHolder)
        ensures
            r@ == (ArgumentHolderView {
                directory_a: Seq::<char>::empty(),
                directory_b: Seq::<char>::empty(),
                ignore_unchanged: false,
                hash_name: "md5"@,
            }),
    {
        ArgumentHolder {
            directory_a: String::new(),
            directory_b: String::new(),
            ignore_unchanged: false,
            hash_name: String::from_str("md5"),
        }
    }
}

impl ArgumentHolder {
    /// The configuration that the command line asks for. Both roots have to
    /// be given, and at most one algorithm may be selected.
    pub fn from_args(args: ParsedArguments) -> (r: Result<ArgumentHolder, ConfigError>)
        ensures
            args.directory_a is None || args.directory_b is None ==> r == Err::<
                ArgumentHolder,
                ConfigError,
            >(ConfigError::MissingDirectory),
            args.directory_a is Some && args.directory_b is Some && algorithms_selected(args) > 1
                ==> r == Err::<ArgumentHolder, ConfigError>(ConfigError::ConflictingAlgorithms),
            args.directory_a is Some && args.directory_b is Some && algorithms_selected(args) <= 1
                ==> r is Ok && r->Ok_0@ == (ArgumentHolderView {
                directory_a: args.directory_a->0@,
                directory_b: args.directory_b->0@,
                ignore_unchanged: args.ignore_unchanged,
                hash_name: selected_hash_name(args),
            }),
    {
        let mut selected: u8 = 0;
        if args.md5 {
            selected = selected + 1;
        }
        if args.sha1 {
            selected = selected + 1;
        }
        if args.sha256 {
            selected = selected + 1;
        }
        if args.adler32 {
            selected = selected + 1;
        }
        if args.crc32 {
            selected = selected + 1;
        }
        assert(selected == algorithms_selected(args));
        let hash_name = if args.md5 {
            String::from_str("md5")
        } else if args.sha1 {
            String::from_str("sha1")
        } else if args.sha256 {
            String::from_str("sha256")
        } else if args.adler32 {
            String::from_str("adler32")
        } else if args.crc32 {
            String::from_str("crc32")
        } else {
            String::from_str("md5")
        };
        match (args.directory_a, args.directory_b) {
            (Some(directory_a), Some(directory_b)) => {
                if selected > 1 {
                    Err(ConfigError::ConflictingAlgorithms)
                } else {
                    Ok(
                        ArgumentHolder {
                            directory_a,
                            directory_b,
                            ignore_unchanged: args.ignore_unchanged,
                            hash_name,
                        },
                    )
                }
            },
            _ => Err(ConfigError::MissingDirectory),
        }
    }

    /// The maker of this run's checksums, for the algorithm that
    /// `hash_name` selects. A name that selects none, be it unknown or the
    /// name of an algorithm without implementation, is an error of the
    /// configuration.
    pub fn get_checksum_generator(&self) -> (r: Result<ChecksumGenerator, ConfigError>)
        ensures
            match algorithm_named(self.hash_name@) {
                Some(algorithm) => r == Ok::<ChecksumGenerator, ConfigError>(
                    ChecksumGenerator { algorithm },
                ),
                None => r matches Err(ConfigError::UnsupportedAlgorithm(name)) && name@
                    == self.hash_name@,
            },
    {
        match HashAlgorithm::from_name(self.hash_name.as_str()) {
            Some(algorithm) => Ok(ChecksumGenerator { algorithm }),
            None => Err(ConfigError::UnsupportedAlgorithm(self.hash_name.clone())),
        }
    }
}

} // verus!
