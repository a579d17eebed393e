use crate::file_result::{FileRecord, FileResult};
use crate::path_order::{
    compare_paths, lemma_path_less_asymmetric, lemma_path_less_connected,
    lemma_path_less_irreflexive, lemma_path_less_transitive, path_less, PathOrder,
};
use vstd::prelude::*;

verus! {

/// The status a path receives on one side of a reconciliation.
#[derive(Clone, Copy, Debug, PartialEq, Eq, Hash, Structural)]
pub enum ReconcileOperation {
    /// The path exists on this side only.
    Add,
    /// The path exists on both sides, with matching records.
    Unchanged,
    /// The path exists on both sides, and the two records differ.
    Conflict,
}

impl ReconcileOperation {
    /// The character that marks this status in a report line.
    pub open spec fn spec_symbol(self) -> char {
        match self {
            ReconcileOperation::Add => '+',
            ReconcileOperation::Unchanged => '=',
            ReconcileOperation::Conflict => '!',
        }
    }

    pub fn symbol(&self) -> (c: char)
        ensures
            c == self.spec_symbol(),
    {
        match self {
            ReconcileOperation::Add => '+',
            ReconcileOperation::Unchanged => '=',
            ReconcileOperation::Conflict => '!',
        }
    }
}

/// The mathematical content of a sequence of stored records.
pub open spec fn records_of(v: Seq<FileResult>) -> Seq<FileRecord> {
    v.map_values(|r: FileResult| r@)
}

/// The records stand in strictly increasing order of their paths; in
/// particular no path occurs twice.
pub open spec fn strictly_sorted(s: Seq<FileRecord>) -> bool {
    forall|i: int, j: int| 0 <= i < j < s.len() ==> path_less(s[i].filepath, s[j].filepath)
}

/// Whether some record of `s` has the path `path`.
pub open spec fn has_path(s: Seq<FileRecord>, path: Seq<char>) -> bool {
    exists|i: int| 0 <= i < s.len() && #[trigger] s[i].filepath == path
}

/// The place of a record with the path `path` in `s`, where there is one.
pub open spec fn index_of_path(s: Seq<FileRecord>, path: Seq<char>) -> int {
    choose|i: int| 0 <= i < s.len() && #[trigger] s[i].filepath == path
}

/// The record that `s` holds for `path`, where it holds one.
pub open spec fn record_for(s: Seq<FileRecord>, path: Seq<char>) -> FileRecord
    recommends
        has_path(s, path),
{
    s[index_of_path(s, path)]
}

/// The set of paths that occur in `s`.
pub open spec fn paths_of(s: Seq<FileRecord>) -> Set<Seq<char>> {
    Set::new(|p: Seq<char>| has_path(s, p))
}

/// Selects the records whose path comes before `path`.
pub open spec fn comes_before(path: Seq<char>) -> spec_fn(FileRecord) -> bool {
    |r: FileRecord| path_less(r.filepath, path)
}

/// Selects the records whose path comes after `path`.
pub open spec fn comes_after(path: Seq<char>) -> spec_fn(FileRecord) -> bool {
    |r: FileRecord| path_less(path, r.filepath)
}

/// The records of `s` with `record` put in: those whose path comes before
/// its path, then `record`, then those whose path comes after. A record that
/// `s` held for the same path is gone.
pub open spec fn with_record(s: Seq<FileRecord>, record: FileRecord) -> Seq<FileRecord> {
    s.filter(comes_before(record.filepath)) + seq![record] + s.filter(
        comes_after(record.filepath),
    )
}

/// In a strictly sorted sequence a path occurs at one place only.
pub proof fn lemma_path_place_unique(s: Seq<FileRecord>, i: int, j: int)
    requires
        strictly_sorted(s),
        0 <= i < s.len(),
        0 <= j < s.len(),
        s[i].filepath == s[j].filepath,
    ensures
        i == j,
{
    lemma_path_less_irreflexive(s[i].filepath);
}

/// In a strictly sorted sequence the record at place `i` is the record held
/// for its own path.
pub proof fn lemma_record_for_place(s: Seq<FileRecord>, i: int)
    requires
        strictly_sorted(s),
        0 <= i < s.len(),
    ensures
        has_path(s, s[i].filepath),
        record_for(s, s[i].filepath) == s[i],
{
    let path = s[i].filepath;
    assert(s[i].filepath == path);
    lemma_path_place_unique(s, i, index_of_path(s, path));
}

/// A filter keeps a sequence whole when every element passes.
pub proof fn lemma_filter_keeps_all<A>(s: Seq<A>, pred: spec_fn(A) -> bool)
    requires
        forall|i: int| 0 <= i < s.len() ==> pred(#[trigger] s[i]),
    ensures
        s.filter(pred) == s,
    decreases s.len(),
{
    reveal(Seq::filter);
    if s.len() > 0 {
        lemma_filter_keeps_all(s.drop_last(), pred);
        assert(s.drop_last().push(s.last()) =~= s);
    }
}

/// A filter leaves nothing when no element passes.
pub proof fn lemma_filter_keeps_none<A>(s: Seq<A>, pred: spec_fn(A) -> bool)
    requires
        forall|i: int| 0 <= i < s.len() ==> !pred(#[trigger] s[i]),
    ensures
        s.filter(pred) == Seq::<A>::empty(),
    decreases s.len(),
{
    reveal(Seq::filter);
    if s.len() > 0 {
        lemma_filter_keeps_none(s.drop_last(), pred);
    }
}

/// Filtering a sequence with one more element at its end.
pub proof fn lemma_filter_push<A>(s: Seq<A>, last: A, pred: spec_fn(A) -> bool)
    ensures
        s.push(last).filter(pred) == if pred(last) {
            s.filter(pred).push(last)
        } else {
            s.filter(pred)
        },
{
    reveal(Seq::filter);
    assert(s.push(last).drop_last() =~= s);
}

/// Where `place` parts the records before `record`'s path from the rest of
/// a strictly sorted sequence, putting `record` in means writing it at
/// `place`: over the record held for the same path, or between its
/// neighbours. The result is strictly sorted again.
pub proof fn lemma_with_record_at(s: Seq<FileRecord>, record: FileRecord, place: int)
    requires
        strictly_sorted(s),
        0 <= place <= s.len(),
        forall|i: int| 0 <= i < place ==> path_less(#[trigger] s[i].filepath, record.filepath),
        forall|i: int|
            place <= i < s.len() ==> !path_less(#[trigger] s[i].filepath, record.filepath),
    ensures
        with_record(s, record) == if place < s.len() && s[place].filepath == record.filepath {
            s.update(place, record)
        } else {
            s.insert(place, record)
        },
        strictly_sorted(with_record(s, record)),
{
    let path = record.filepath;
    let found = place < s.len() && s[place].filepath == path;
    let rest = if found {
        place + 1
    } else {
        place
    };
    let low = s.take(place);
    let high = s.skip(rest);
    let middle = s.subrange(place, rest);
    assert forall|i: int| rest <= i < s.len() implies path_less(path, #[trigger] s[i].filepath) by {
        lemma_path_less_connected(path, s[i].filepath);
        if s[i].filepath == path {
            if found {
                lemma_path_place_unique(s, place, i);
            }
        }
    }
    assert forall|i: int| 0 <= i < low.len() implies !comes_after(path)(#[trigger] low[i]) by {
        lemma_path_less_asymmetric(low[i].filepath, path);
    }
    assert forall|i: int| 0 <= i < high.len() implies !comes_before(path)(#[trigger] high[i]) by {
        lemma_path_less_asymmetric(path, high[i].filepath);
    }
    assert forall|i: int| 0 <= i < middle.len() implies !comes_before(path)(
        #[trigger] middle[i],
    ) && !comes_after(path)(middle[i]) by {
        lemma_path_less_irreflexive(path);
    }
    assert(s =~= low + middle + high);
    lemma_filter_keeps_all(low, comes_before(path));
    lemma_filter_keeps_none(middle, comes_before(path));
    lemma_filter_keeps_none(high, comes_before(path));
    lemma_filter_keeps_none(low, comes_after(path));
    lemma_filter_keeps_none(middle, comes_after(path));
    lemma_filter_keeps_all(high, comes_after(path));
    Seq::filter_distributes_over_add(low + middle, high, comes_before(path));
    Seq::filter_distributes_over_add(low, middle, comes_before(path));
    Seq::filter_distributes_over_add(low + middle, high, comes_after(path));
    Seq::filter_distributes_over_add(low, middle, comes_after(path));
    assert(s.filter(comes_before(path)) =~= low);
    assert(s.filter(comes_after(path)) =~= high);
    let after = with_record(s, record);
    assert(after =~= low + seq![record] + high);
    if found {
        assert(after =~= s.update(place, record));
    } else {
        assert(after =~= s.insert(place, record));
    }
    assert forall|i: int, j: int| 0 <= i < j < after.len() implies path_less(
        after[i].filepath,
        after[j].filepath,
    ) by {
        if j < place {
            assert(after[i] == s[i] && after[j] == s[j]);
        } else if i < place && j == place {
            assert(after[i] == s[i]);
        } else if i < place {
            assert(after[i] == s[i] && after[j] == s[j - 1 + rest - place]);
        } else if i == place {
            assert(after[j] == s[j - 1 + rest - place]);
        } else {
            assert(after[i] == s[i - 1 + rest - place] && after[j] == s[j - 1 + rest - place]);
        }
    }
}

/// The result of one scan: the records of the files found under one root,
/// one for each relative path, kept in the order of their paths.
pub struct ScanDirectoryResult {
    records: Vec<FileResult>,
}

impl View for ScanDirectoryResult {
    type V = Seq<FileRecord>;

    closed spec fn view(&self) -> Seq<FileRecord> {
        records_of(self.records@)
    }
}

impl ScanDirectoryResult {
    #[verifier::type_invariant]
    spec fn ordered(self) -> bool {
        strictly_sorted(records_of(self.records@))
    }

    /// A scan result without records.
    pub fn new() -> (r: ScanDirectoryResult)
        ensures
            r@ == Seq::<FileRecord>::empty(),
    {
        let r = ScanDirectoryResult { records: Vec::new() };
        assert(r@ =~= Seq::<FileRecord>::empty());
        r
    }

    /// The number of records.
    pub fn len(&self) -> (n: usize)
        ensures
            n == self@.len(),
    {
        self.records.len()
    }

    /// The records, in the order of their paths.
    pub fn records(&self) -> (r: &Vec<FileResult>)
        ensures
            records_of(r@) == self@,
            strictly_sorted(self@),
    {
        proof {
            use_type_invariant(self);
        }
        &self.records
    }

    /// The place where a record for `path` stands or would have to stand:
    /// the number of records whose path comes before `path`.
    fn place_of(&self, path: &str) -> (r: (usize, bool))
        ensures
            strictly_sorted(self@),
            r.0 <= self@.len(),
            forall|i: int| 0 <= i < r.0 ==> path_less(#[trigger] self@[i].filepath, path@),
            forall|i: int|
                r.0 <= i < self@.len() ==> !path_less(#[trigger] self@[i].filepath, path@),
            r.1 == (r.0 < self@.len() && self@[r.0 as int].filepath == path@),
            r.1 == has_path(self@, path@),
    {
        proof {
            use_type_invariant(self);
        }
        let mut low: usize = 0;
        let mut high: usize = self.records.len();
        while low < high
            invariant
                strictly_sorted(self@),
                self@ == records_of(self.records@),
                low <= high <= self@.len(),
                forall|i: int| 0 <= i < low ==> path_less(#[trigger] self@[i].filepath, path@),
                forall|i: int|
                    high <= i < self@.len() ==> !path_less(#[trigger] self@[i].filepath, path@),
            decreases high - low,
        {
            let mid: usize = low + (high - low) / 2;
            let here = compare_paths(self.records[mid].filepath.as_str(), path);
            if here == PathOrder::Before {
                assert forall|i: int| 0 <= i < mid + 1 implies path_less(
                    #[trigger] self@[i].filepath,
                    path@,
                ) by {
                    if i < mid {
                        lemma_path_less_transitive(
                            self@[i].filepath,
                            self@[mid as int].filepath,
                            path@,
                        );
                    }
                }
                low = mid + 1;
            } else {
                assert forall|i: int| mid <= i < self@.len() implies !path_less(
                    #[trigger] self@[i].filepath,
                    path@,
                ) by {
                    if i > mid && path_less(self@[i].filepath, path@) {
                        lemma_path_less_transitive(
                            self@[mid as int].filepath,
                            self@[i].filepath,
                            path@,
                        );
                    }
                }
                high = mid;
            }
        }
        let found = low < self.records.len() && compare_paths(
            self.records[low].filepath.as_str(),
            path,
        ) == PathOrder::Same;
        proof {
            if has_path(self@, path@) {
                let k = index_of_path(self@, path@);
                lemma_path_less_irreflexive(path@);
                if low < self@.len() && k != low {
                    lemma_path_less_connected(self@[low as int].filepath, path@);
                    if k > low {
                        lemma_path_less_asymmetric(path@, self@[low as int].filepath);
                    }
                }
            }
        }
        (low, found)
    }

    /// Puts `record` in, in place of the record held for the same path if
    /// there is one, and hands that record back.
    pub fn insert(&mut self, record: FileResult) -> (previous: Option<FileResult>)
        ensures
            final(self)@ == with_record(old(self)@, record@),
            previous is Some == has_path(old(self)@, record@.filepath),
            previous matches Some(p) ==> p@ == record_for(old(self)@, record@.filepath),
    {
        let (place, found) = self.place_of(record.filepath.as_str());
        let ghost before = self.records@;
        proof {
            lemma_with_record_at(self@, record@, place as int);
            if found {
                lemma_record_for_place(self@, place as int);
            }
        }
        let mut records: Vec<FileResult> = Vec::new();
        core::mem::swap(&mut self.records, &mut records);
        let previous = if found {
            let previous = records.remove(place);
            assert(records_of(records@) =~= records_of(before).remove(place as int));
            Some(previous)
        } else {
            None
        };
        let ghost between = records@;
        records.insert(place, record);
        assert(records_of(records@) =~= records_of(between).insert(place as int, record@));
        assert(found ==> records_of(records@) =~= records_of(before).update(place as int, record@));
        core::mem::swap(&mut self.records, &mut records);
        previous
    }

    /// Whether the scan holds a record for `path`.
    pub fn contains_key(&self, path: &str) -> (r: bool)
        ensures
            r == has_path(self@, path@),
    {
        self.place_of(path).1
    }

    /// The record that the scan holds for `path`.
    pub fn get(&self, path: &str) -> (r: Option<&FileResult>)
        ensures
            r is Some == has_path(self@, path@),
            r matches Some(record) ==> record@ == record_for(self@, path@),
    {
        let (place, found) = self.place_of(path);
        if found {
            proof {
                lemma_record_for_place(self@, place as int);
            }
            Some(&self.records[place])
        } else {
            None
        }
    }
}

/// One side of a reconciliation: the records of that side's scan, grouped by
/// the status of their paths.
#[derive(Debug)]
pub struct PatchResult {
    /// Records of paths that exist on this side only.
    pub added: Vec<FileResult>,
    /// Records of paths whose records on the two sides match.
    pub unchanged: Vec<FileResult>,
    /// Records of paths whose records on the two sides differ.
    pub conflict: Vec<FileResult>,
}

/// The mathematical content of a [`PatchResult`].
pub struct PatchView {
    pub added: Seq<FileRecord>,
    pub unchanged: Seq<FileRecord>,
    pub conflict: Seq<FileRecord>,
}

impl PatchView {
    /// The records grouped under `operation`.
    pub open spec fn bucket(self, operation: ReconcileOperation) -> Seq<FileRecord> {
        match operation {
            ReconcileOperation::Add => self.added,
            ReconcileOperation::Unchanged => self.unchanged,
            ReconcileOperation::Conflict => self.conflict,
        }
    }

    /// The status under which `path` is grouped, if it is grouped at all.
    pub open spec fn status_of(self, path: Seq<char>) -> Option<ReconcileOperation> {
        if has_path(self.added, path) {
            Some(ReconcileOperation::Add)
        } else if has_path(self.unchanged, path) {
            Some(ReconcileOperation::Unchanged)
        } else if has_path(self.conflict, path) {
            Some(ReconcileOperation::Conflict)
        } else {
            None
        }
    }

    /// The three groups share the paths of `paths` out among them: every
    /// path of `paths` stands in exactly one group, once, and no group holds
    /// any other path.
    pub open spec fn partitions(self, paths: Set<Seq<char>>) -> bool {
        &&& strictly_sorted(self.added)
        &&& strictly_sorted(self.unchanged)
        &&& strictly_sorted(self.conflict)
        &&& paths_of(self.added).union(paths_of(self.unchanged)).union(paths_of(self.conflict))
            == paths
        &&& paths_of(self.added).disjoint(paths_of(self.unchanged))
        &&& paths_of(self.added).disjoint(paths_of(self.conflict))
        &&& paths_of(self.unchanged).disjoint(paths_of(self.conflict))
    }
}

impl View for PatchResult {
    type V = PatchView;

    open spec fn view(&self) -> PatchView {
        PatchView {
            added: records_of(self.added@),
            unchanged: records_of(self.unchanged@),
            conflict: records_of(self.conflict@),
        }
    }
}

impl PatchResult {
    /// A patch without records.
    pub fn new() -> (r: PatchResult)
        ensures
            r@.added == Seq::<FileRecord>::empty(),
            r@.unchanged == Seq::<FileRecord>::empty(),
            r@.conflict == Seq::<FileRecord>::empty(),
    {
        let r = PatchResult { added: Vec::new(), unchanged: Vec::new(), conflict: Vec::new() };
        assert(r@.added =~= Seq::<FileRecord>::empty());
        assert(r@.unchanged =~= Seq::<FileRecord>::empty());
        assert(r@.conflict =~= Seq::<FileRecord>::empty());
        r
    }

    /// The records grouped under `operation`.
    pub fn get(&self, operation: ReconcileOperation) -> (r: &Vec<FileResult>)
        ensures
            records_of(r@) == self@.bucket(operation),
    {
        match operation {
            ReconcileOperation::Add => &self.added,
            ReconcileOperation::Unchanged => &self.unchanged,
            ReconcileOperation::Conflict => &self.conflict,
        }
    }
}

/// The two sides of a reconciliation: the first root's, then the second's.
pub type ReconcileResult = (PatchResult, PatchResult);

/// One line of a report: a status and the record it is said of.
pub type Line = (ReconcileOperation, FileResult);

} // verus!
