use crate::text::{decimal_text, push_decimal, push_text};
use vstd::prelude::*;
use vstd::std_specs::cmp::PartialEqSpecImpl;

verus! {

/// Nanoseconds in one second.
pub const NANOS_PER_SECOND: i128 = 1_000_000_000;

/// A point in time: whole seconds since the Unix epoch, negative before it,
/// and the nanoseconds that follow them.
#[derive(Clone, Copy, Debug, PartialEq, Eq, Structural)]
pub struct Timestamp {
    pub secs: i64,
    pub nanos: u32,
}

impl Timestamp {
    /// The point in time as a count of nanoseconds since the Unix epoch.
    pub open spec fn total_nanos(self) -> int {
        self.secs * 1_000_000_000 + self.nanos
    }

    /// Whether an offset from the Unix epoch, with its nanoseconds below one
    /// second, is a point in time that a `Timestamp` can hold.
    pub open spec fn offset_fits(before_epoch: bool, secs: u64, nanos: u32) -> bool {
        &&& nanos < 1_000_000_000
        &&& if before_epoch {
            secs * 1_000_000_000 + nanos <= 0x8000_0000_0000_0000 * 1_000_000_000
        } else {
            secs <= 0x7fff_ffff_ffff_ffff
        }
    }

    /// Whether two points in time lie less than one second apart.
    pub open spec fn spec_within_one_second(self, other: Timestamp) -> bool {
        -1_000_000_000 < self.total_nanos() - other.total_nanos() < 1_000_000_000
    }

    pub fn new(secs: i64, nanos: u32) -> (t: Timestamp)
        ensures
            t.secs == secs,
            t.nanos == nanos,
    {
        Timestamp { secs, nanos }
    }

    /// The point in time that lies `secs` seconds and `nanos` nanoseconds
    /// after the Unix epoch, or before it, with its nanoseconds below one
    /// second. There is none where `nanos` is a second or more, or where the
    /// seconds do not fit.
    pub fn from_offset(before_epoch: bool, secs: u64, nanos: u32) -> (t: Option<Timestamp>)
        ensures
            t is Some == Timestamp::offset_fits(before_epoch, secs, nanos),
            t matches Some(x) ==> x.nanos < 1_000_000_000 && x.total_nanos() == if before_epoch {
                -(secs * 1_000_000_000 + nanos)
            } else {
                secs * 1_000_000_000 + nanos
            },
    {
        if nanos >= 1_000_000_000 {
            None
        } else if !before_epoch {
            if secs <= 0x7fff_ffff_ffff_ffff {
                Some(Timestamp { secs: secs as i64, nanos })
            } else {
                None
            }
        } else if nanos == 0 {
            if secs <= 0x7fff_ffff_ffff_ffff {
                Some(Timestamp { secs: -(secs as i64), nanos: 0 })
            } else if secs == 0x8000_0000_0000_0000 {
                Some(Timestamp { secs: i64::MIN, nanos: 0 })
            } else {
                None
            }
        } else if secs <= 0x7fff_ffff_ffff_ffff {
            Some(Timestamp { secs: -(secs as i64) - 1, nanos: 1_000_000_000 - nanos })
        } else {
            None
        }
    }

    /// Whether `self` and `other` lie less than one second apart, whichever
    /// of the two is the later.
    pub fn within_one_second(&self, other: &Timestamp) -> (r: bool)
        ensures
            r == self.spec_within_one_second(*other),
    {
        let mine: i128 = self.secs as i128 * NANOS_PER_SECOND + self.nanos as i128;
        let theirs: i128 = other.secs as i128 * NANOS_PER_SECOND + other.nanos as i128;
        let apart: i128 = mine - theirs;
        -NANOS_PER_SECOND < apart && apart < NANOS_PER_SECOND
    }
}

/// What one scan recorded of one regular file.
#[derive(Debug)]
pub struct FileResult {
    /// Path relative to the scanned root, with `/` between its components.
    pub filepath: String,
    /// Fingerprint of the file's bytes.
    pub hash: String,
    /// Length of the file in bytes.
    pub size: u64,
    /// When the file was last modified.
    pub time_modified: Timestamp,
}

/// The mathematical content of a [`FileResult`].
pub struct FileRecord {
    pub filepath: Seq<char>,
    pub hash: Seq<char>,
    pub size: u64,
    pub time_modified: Timestamp,
}

impl FileRecord {
    /// The equality by which reconciliation tells an unchanged file from a
    /// conflict: same fingerprint, same size, same path, and modification
    /// times less than one second apart.
    pub open spec fn matches(self, other: FileRecord) -> bool {
        &&& self.hash == other.hash
        &&& self.size == other.size
        &&& self.time_modified.spec_within_one_second(other.time_modified)
        &&& self.filepath == other.filepath
    }
}

/// A record as a report shows it: its path, then in brackets the text of
/// its modification time and its size in bytes.
pub open spec fn record_text(record: FileRecord, time_text: Seq<char>) -> Seq<char> {
    record.filepath + " ("@ + time_text + " | "@ + decimal_text(record.size as nat) + " bytes)"@
}

impl View for FileResult {
    type V = FileRecord;

    open spec fn view(&self) -> FileRecord {
        FileRecord {
            filepath: self.filepath@,
            hash: self.hash@,
            size: self.size,
            time_modified: self.time_modified,
        }
    }
}

impl FileResult {
    pub fn new(filepath: String, hash: String, size: u64, time_modified: Timestamp) -> (r:
        FileResult)
        ensures
            r.filepath == filepath,
            r.hash == hash,
            r.size == size,
            r.time_modified == time_modified,
    {
        FileResult { filepath, hash, size, time_modified }
    }

    /// The record as a report shows it, with `time_text` for its
    /// modification time.
    pub fn to_text(&self, time_text: &str) -> (text: String)
        ensures
            text@ == record_text(self@, time_text@),
    {
        let mut text = self.filepath.clone();
        push_text(&mut text, " (");
        push_text(&mut text, time_text);
        push_text(&mut text, " | ");
        push_decimal(&mut text, self.size);
        push_text(&mut text, " bytes)");
        text
    }

    /// Whether the two records describe the same state of the same file.
    pub fn matches(&self, other: &FileResult) -> (r: bool)
        ensures
            r == self@.matches(other@),
    {
        self.hash == other.hash && self.size == other.size && self.time_modified.within_one_second(
            &other.time_modified,
        ) && self.filepath == other.filepath
    }
}

impl Clone for FileResult {
    fn clone(&self) -> (r: FileResult)
        ensures
            r == *self,
    {
        FileResult {
            filepath: self.filepath.clone(),
            hash: self.hash.clone(),
            size: self.size,
            time_modified: self.time_modified,
        }
    }
}

impl PartialEq for FileResult {
    fn eq(&self, other: &FileResult) -> (r: bool) {
        self.matches(other)
    }
}

impl PartialEqSpecImpl for FileResult {
    open spec fn obeys_eq_spec() -> bool {
        true
    }

    open spec fn eq_spec(&self, other: &FileResult) -> bool {
        self@.matches(other@)
    }
}

/// Every record matches itself.
pub proof fn lemma_matches_reflexive(a: FileRecord)
    ensures
        a.matches(a),
{
}

} // verus!
