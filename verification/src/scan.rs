use crate::checksum::{fingerprint, Checksum, ChecksumGenerator, HashAlgorithm, MAX_MESSAGE_BYTES};
use crate::file_result::{FileRecord, FileResult, Timestamp};
use crate::results::{with_record, ScanDirectoryResult};
use crate::text::push_char;
use vstd::prelude::*;
use vstd::std_specs::iter::IteratorSpec;

verus! {

/// Whether a character parts the components of a path.
pub open spec fn is_separator(c: char) -> bool {
    c == '/' || c == '\\'
}

/// A path with `/` in place of each `\`.
pub open spec fn normalized(path: Seq<char>) -> Seq<char> {
    path.map_values(
        |c: char|
            if c == '\\' {
                '/'
            } else {
                c
            },
    )
}

/// What is left of `full` behind its first `count` characters.
pub open spec fn behind(full: Seq<char>, count: nat) -> Seq<char> {
    if count <= full.len() {
        full.skip(count as int)
    } else {
        Seq::empty()
    }
}

/// The path of `full` relative to `root`: `full` without as many characters
/// as `root` has and without the separator that follows them, with `/`
/// between its components.
pub open spec fn relative_path_spec(root: Seq<char>, full: Seq<char>) -> Seq<char> {
    let rest = behind(full, root.len());
    if rest.len() > 0 && is_separator(rest[0]) {
        normalized(rest.drop_first())
    } else {
        normalized(rest)
    }
}

/// The path of `full` relative to `root`, for a `full` that lies under
/// `root`.
pub fn relative_path(root: &str, full: &str) -> (r: String)
    ensures
        r@ == relative_path_spec(root@, full@),
{
    let mut chars = full.chars();
    let mut to_skip: usize = root.unicode_len();
    let mut relative = String::new();
    while to_skip > 0
        invariant
            to_skip <= root@.len(),
            root@.len() - to_skip <= full@.len(),
            chars.remaining() == full@.skip(root@.len() - to_skip),
            chars.decrease() is Some,
            relative@ == Seq::<char>::empty(),
        decreases to_skip,
    {
        let ghost before = chars.remaining();
        match chars.next() {
            None => {
                assert(before.len() == 0);
                assert(relative@ =~= relative_path_spec(root@, full@));
                return relative;
            },
            Some(_) => {
                assert(before.drop_first() =~= full@.skip(root@.len() - to_skip + 1));
                to_skip = to_skip - 1;
            },
        }
    }
    let ghost rest = chars.remaining();
    let mut first = true;
    let ghost mut taken: Seq<char> = Seq::empty();
    assert(normalized(taken) =~= relative@);
    assert(normalized(behind(taken, 1)) =~= relative@);
    assert(taken + chars.remaining() =~= rest);
    loop
        invariant
            rest == behind(full@, root@.len()),
            taken + chars.remaining() == rest,
            chars.decrease() is Some,
            first == (taken.len() == 0),
            relative@ == if rest.len() > 0 && is_separator(rest[0]) {
                normalized(behind(taken, 1))
            } else {
                normalized(taken)
            },
        decreases chars.decrease()->0,
    {
        let ghost before = chars.remaining();
        match chars.next() {
            None => {
                assert(before.len() == 0);
                assert(taken =~= rest);
                assert(rest.len() > 0 ==> behind(taken, 1) =~= rest.drop_first());
                return relative;
            },
            Some(c) => {
                proof {
                    assert(before =~= seq![c] + before.drop_first());
                    assert(taken.push(c) + before.drop_first() =~= taken + before);
                    assert(taken.len() == 0 ==> rest[0] == c);
                    assert(taken.len() > 0 ==> rest[0] == taken[0]);
                }
                if first && (c == '/' || c == '\\') {
                    assert(behind(taken.push(c), 1) =~= Seq::<char>::empty());
                    assert(normalized(behind(taken.push(c), 1)) =~= relative@);
                } else if c == '\\' {
                    push_char(&mut relative, '/');
                    assert(normalized(taken.push(c)) =~= normalized(taken).push('/'));
                    assert(taken.len() > 0 ==> normalized(behind(taken.push(c), 1)) =~= normalized(
                        behind(taken, 1),
                    ).push('/'));
                } else {
                    push_char(&mut relative, c);
                    assert(normalized(taken.push(c)) =~= normalized(taken).push(c));
                    assert(taken.len() > 0 ==> normalized(behind(taken.push(c), 1)) =~= normalized(
                        behind(taken, 1),
                    ).push(c));
                }
                proof {
                    taken = taken.push(c);
                }
                first = false;
            },
        }
    }
}

/// What kind of thing a directory entry is.
#[derive(Clone, Copy, Debug, PartialEq, Eq, Structural)]
pub enum EntryKind {
    /// A directory: the scan goes into it.
    Directory,
    /// A regular file: the scan records it.
    File,
    /// Anything else, such as a symbolic link or a device: the scan passes
    /// over it.
    Other,
}

/// One entry of a directory listing.
#[derive(Debug)]
pub struct ScanEntry {
    /// The entry's full path.
    pub path: String,
    pub kind: EntryKind,
}

/// The mathematical content of a [`ScanEntry`].
pub struct ScanEntryView {
    pub path: Seq<char>,
    pub kind: EntryKind,
}

impl View for ScanEntry {
    type V = ScanEntryView;

    open spec fn view(&self) -> ScanEntryView {
        ScanEntryView { path: self.path@, kind: self.kind }
    }
}

/// The mathematical content of a sequence of entries.
pub open spec fn entries_of(v: Seq<ScanEntry>) -> Seq<ScanEntryView> {
    v.map_values(|e: ScanEntry| e@)
}

/// Why a scan was given up: the path at which it failed, and the cause.
#[derive(Debug)]
pub struct ScanError {
    pub path: String,
    pub cause: String,
}

/// The mathematical content of a [`ScanError`].
pub struct ScanErrorView {
    pub path: Seq<char>,
    pub cause: Seq<char>,
}

impl View for ScanError {
    type V = ScanErrorView;

    open spec fn view(&self) -> ScanErrorView {
        ScanErrorView { path: self.path@, cause: self.cause@ }
    }
}

/// What a scan asks of the one who drives it.
#[derive(Debug)]
pub enum ScanAction {
    /// List the entries of the directory at this path, and answer with
    /// [`Scanner::listed`] or [`Scanner::failed`].
    ListDirectory(String),
    /// Read the file at this path: hand its bytes over block by block with
    /// [`Scanner::file_block`], then its size and modification time with
    /// [`Scanner::file_read`]; or answer with [`Scanner::failed`].
    ReadFile(String),
    /// Nothing is left to do: the result can be taken.
    Finish,
    /// The scan was given up; there is no result.
    Abort(ScanError),
}

/// The mathematical content of a [`ScanAction`].
pub enum ScanActionView {
    ListDirectory(Seq<char>),
    ReadFile(Seq<char>),
    Finish,
    Abort(ScanErrorView),
}

impl View for ScanAction {
    type V = ScanActionView;

    open spec fn view(&self) -> ScanActionView {
        match self {
            ScanAction::ListDirectory(path) => ScanActionView::ListDirectory(path@),
            ScanAction::ReadFile(path) => ScanActionView::ReadFile(path@),
            ScanAction::Finish => ScanActionView::Finish,
            ScanAction::Abort(error) => ScanActionView::Abort(error@),
        }
    }
}

/// The state of a scan of one root.
pub struct Scanner {
    root: String,
    action: ScanAction,
    pending: Vec<ScanEntry>,
    checksum: Checksum,
    results: ScanDirectoryResult,
}

/// The mathematical content of a [`Scanner`].
pub struct ScannerView {
    /// The root that is scanned.
    pub root: Seq<char>,
    /// The algorithm that fingerprints the files.
    pub algorithm: HashAlgorithm,
    /// What the scan asks for next.
    pub action: ScanActionView,
    /// The entries that wait their turn; the last is the next.
    pub pending: Seq<ScanEntryView>,
    /// The bytes handed over so far of the file that is being read.
    pub message: Seq<u8>,
    /// The records made so far.
    pub results: Seq<FileRecord>,
}

/// The cause with which a scan is given up at a file that is longer than
/// [`MAX_MESSAGE_BYTES`].
pub open spec fn too_long_cause() -> Seq<char> {
    "file too long to fingerprint"@
}

/// The next thing to ask for with `pending` waiting, and what then still
/// waits: entries that are neither directory nor file are passed over, the
/// first that is one of the two is asked about, and with none left the scan
/// finishes.
pub open spec fn settle(pending: Seq<ScanEntryView>) -> (ScanActionView, Seq<ScanEntryView>)
    decreases pending.len(),
{
    if pending.len() == 0 {
        (ScanActionView::Finish, pending)
    } else {
        match pending.last().kind {
            EntryKind::Directory => (
                ScanActionView::ListDirectory(pending.last().path),
                pending.drop_last(),
            ),
            EntryKind::File => (ScanActionView::ReadFile(pending.last().path), pending.drop_last()),
            EntryKind::Other => settle(pending.drop_last()),
        }
    }
}

impl ScannerView {
    /// The state after the listing that was asked for has come: its entries
    /// wait before all that waited already, the first of them next. Where no
    /// listing was asked for, nothing changes.
    pub open spec fn listed(self, entries: Seq<ScanEntryView>) -> ScannerView {
        if self.action is ListDirectory {
            let (action, pending) = settle(self.pending + entries.reverse());
            ScannerView { action, pending, ..self }
        } else {
            self
        }
    }

    /// The state after a block of the file that was asked for has come: the
    /// block follows the bytes that came before. With a block that makes the
    /// file longer than [`MAX_MESSAGE_BYTES`] the scan is given up. Where no
    /// file was asked for, nothing changes.
    pub open spec fn file_block(self, data: Seq<u8>) -> ScannerView {
        match self.action {
            ScanActionView::ReadFile(path) => if self.message.len() + data.len()
                <= MAX_MESSAGE_BYTES {
                ScannerView { message: self.message + data, ..self }
            } else {
                ScannerView {
                    action: ScanActionView::Abort(
                        ScanErrorView { path, cause: too_long_cause() },
                    ),
                    ..self
                }
            },
            _ => self,
        }
    }

    /// The state after the file that was asked for has been read to its
    /// end: its record is among the results, under its path relative to the
    /// root and with the fingerprint of the bytes that were handed over.
    /// Where no file was asked for, nothing changes.
    pub open spec fn file_read(self, size: u64, time_modified: Timestamp) -> ScannerView {
        match self.action {
            ScanActionView::ReadFile(path) => {
                let record = FileRecord {
                    filepath: relative_path_spec(self.root, path),
                    hash: fingerprint(self.algorithm, self.message),
                    size,
                    time_modified,
                };
                let (action, pending) = settle(self.pending);
                ScannerView {
                    action,
                    pending,
                    message: Seq::empty(),
                    results: with_record(self.results, record),
                    ..self
                }
            },
            _ => self,
        }
    }

    /// The state after what was asked for has failed: the scan is given up
    /// with the path asked about and the cause. Where nothing was asked for,
    /// nothing changes.
    pub open spec fn failed(self, cause: Seq<char>) -> ScannerView {
        match self.action {
            ScanActionView::ListDirectory(path) | ScanActionView::ReadFile(path) => ScannerView {
                action: ScanActionView::Abort(ScanErrorView { path, cause }),
                ..self
            },
            _ => self,
        }
    }
}

impl View for Scanner {
    type V = ScannerView;

    closed spec fn view(&self) -> ScannerView {
        ScannerView {
            root: self.root@,
            algorithm: self.checksum.algorithm(),
            action: self.action@,
            pending: entries_of(self.pending@),
            message: self.checksum.message(),
            results: self.results@,
        }
    }
}

impl Scanner {
    /// A scan of `root` that asks for the listing of `root` first and
    /// fingerprints the files with checksums of `generator`.
    pub fn new(root: String, generator: &ChecksumGenerator) -> (r: Scanner)
        ensures
            r@ == (ScannerView {
                root: root@,
                algorithm: generator.algorithm,
                action: ScanActionView::ListDirectory(root@),
                pending: Seq::<ScanEntryView>::empty(),
                message: Seq::<u8>::empty(),
                results: Seq::<FileRecord>::empty(),
            }),
    {
        let first = root.clone();
        let r = Scanner {
            root,
            action: ScanAction::ListDirectory(first),
            pending: Vec::new(),
            checksum: generator.generate(),
            results: ScanDirectoryResult::new(),
        };
        assert(r@.pending =~= Seq::<ScanEntryView>::empty());
        r
    }

    /// What the scan asks for next.
    pub fn action(&self) -> (r: ScanAction)
        ensures
            r@ == self@.action,
    {
        match &self.action {
            ScanAction::ListDirectory(path) => ScanAction::ListDirectory(path.clone()),
            ScanAction::ReadFile(path) => ScanAction::ReadFile(path.clone()),
            ScanAction::Finish => ScanAction::Finish,
            ScanAction::Abort(error) => ScanAction::Abort(
                ScanError { path: error.path.clone(), cause: error.cause.clone() },
            ),
        }
    }

    /// Takes the next entry to ask about from those that wait.
    fn settle(&mut self)
        ensures
            (final(self)@.action, final(self)@.pending) == settle(old(self)@.pending),
            final(self)@.root == old(self)@.root,
            final(self)@.algorithm == old(self)@.algorithm,
            final(self)@.message == old(self)@.message,
            final(self)@.results == old(self)@.results,
    {
        loop
            invariant
                settle(entries_of(self.pending@)) == settle(old(self)@.pending),
                self.root == old(self).root,
                self.checksum == old(self).checksum,
                self.results == old(self).results,
            decreases self.pending.len(),
        {
            let ghost waiting = entries_of(self.pending@);
            match self.pending.pop() {
                None => {
                    self.action = ScanAction::Finish;
                    assert(entries_of(self.pending@) =~= waiting);
                    return ;
                },
                Some(entry) => {
                    assert(entries_of(self.pending@) =~= waiting.drop_last());
                    assert(waiting.last() == entry@);
                    match entry.kind {
                        EntryKind::Directory => {
                            self.action = ScanAction::ListDirectory(entry.path);
                            return ;
                        },
                        EntryKind::File => {
                            self.action = ScanAction::ReadFile(entry.path);
                            return ;
                        },
                        EntryKind::Other => {},
                    }
                },
            }
        }
    }

    /// Answers a [`ScanAction::ListDirectory`] with the directory's entries.
    /// Tells whether a listing was asked for.
    pub fn listed(&mut self, entries: Vec<ScanEntry>) -> (taken: bool)
        ensures
            final(self)@ == old(self)@.listed(entries_of(entries@)),
            taken == old(self)@.action is ListDirectory,
    {
        match &self.action {
            ScanAction::ListDirectory(_) => {},
            _ => {
                return false;
            },
        }
        let mut entries = entries;
        let ghost target = self@.pending + entries_of(entries@).reverse();
        loop
            invariant
                entries_of(self.pending@) + entries_of(entries@).reverse() == target,
                self.root == old(self).root,
                self.checksum == old(self).checksum,
                self.results == old(self).results,
                self.action == old(self).action,
            ensures
                entries_of(self.pending@) == target,
            decreases entries.len(),
        {
            let ghost waiting = entries_of(self.pending@);
            let ghost left = entries_of(entries@);
            match entries.pop() {
                None => {
                    assert(waiting + left.reverse() =~= waiting);
                    break ;
                },
                Some(entry) => {
                    self.pending.push(entry);
                    assert(entries_of(entries@) =~= left.drop_last());
                    assert(entries_of(self.pending@) =~= waiting.push(entry@));
                    assert(waiting.push(entry@) + left.drop_last().reverse() =~= waiting
                        + left.reverse());
                },
            }
        }
        self.settle();
        true
    }

    /// Hands over the next block of the file that a [`ScanAction::ReadFile`]
    /// asked for. Tells whether a file was asked for.
    pub fn file_block(&mut self, data: &[u8]) -> (taken: bool)
        ensures
            final(self)@ == old(self)@.file_block(data@),
            taken == old(self)@.action is ReadFile,
    {
        match &self.action {
            ScanAction::ReadFile(_) => {},
            _ => {
                return false;
            },
        }
        match self.checksum.input(data) {
            Ok(()) => {},
            Err(_) => {
                let mut action = ScanAction::Finish;
                core::mem::swap(&mut self.action, &mut action);
                match action {
                    ScanAction::ReadFile(path) => {
                        let cause = String::from_str("file too long to fingerprint");
                        self.action = ScanAction::Abort(ScanError { path, cause });
                    },
                    other => {
                        self.action = other;
                    },
                }
            },
        }
        true
    }

    /// Answers a [`ScanAction::ReadFile`], after the last block of the file,
    /// with the file's size and modification time. Tells whether a file was
    /// asked for.
    pub fn file_read(&mut self, size: u64, time_modified: Timestamp) -> (taken: bool)
        ensures
            final(self)@ == old(self)@.file_read(size, time_modified),
            taken == old(self)@.action is ReadFile,
    {
        let mut action = ScanAction::Finish;
        core::mem::swap(&mut self.action, &mut action);
        match action {
            ScanAction::ReadFile(path) => {
                let mut checksum = self.checksum.restart();
                core::mem::swap(&mut self.checksum, &mut checksum);
                let hash = checksum.result_str();
                let filepath = relative_path(self.root.as_str(), path.as_str());
                self.results.insert(FileResult { filepath, hash, size, time_modified });
                self.settle();
                true
            },
            other => {
                self.action = other;
                false
            },
        }
    }

    /// Answers a [`ScanAction::ListDirectory`] or a [`ScanAction::ReadFile`]
    /// with the cause for which it could not be done. Tells whether anything
    /// was asked for.
    pub fn failed(&mut self, cause: String) -> (taken: bool)
        ensures
            final(self)@ == old(self)@.failed(cause@),
            taken == (old(self)@.action is ListDirectory || old(self)@.action is ReadFile),
    {
        let mut action = ScanAction::Finish;
        core::mem::swap(&mut self.action, &mut action);
        match action {
            ScanAction::ListDirectory(path) => {
                self.action = ScanAction::Abort(ScanError { path, cause });
                true
            },
            ScanAction::ReadFile(path) => {
                self.action = ScanAction::Abort(ScanError { path, cause });
                true
            },
            other => {
                self.action = other;
                false
            },
        }
    }

    /// The result of the scan, once it has finished. A scan that is still
    /// under way, or was given up, has none.
    pub fn into_result(self) -> (r: Option<ScanDirectoryResult>)
        ensures
            r is Some == self@.action is Finish,
            r matches Some(results) ==> results@ == self@.results,
    {
        match self.action {
            ScanAction::Finish => Some(self.results),
            _ => None,
        }
    }
}

} // verus!
