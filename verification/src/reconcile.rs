use crate::file_result::{lemma_matches_reflexive, FileRecord};
use crate::results::{
    has_path, index_of_path, lemma_filter_keeps_all, lemma_filter_keeps_none, lemma_filter_push,
    lemma_record_for_place, paths_of, record_for, records_of, strictly_sorted, PatchResult,
    PatchView, ReconcileOperation, ReconcileResult, ScanDirectoryResult,
};
use crate::scan::ScanError;
use vstd::prelude::*;

verus! {

/// Selects the records whose path `other` does not hold.
pub open spec fn only_here(other: Seq<FileRecord>) -> spec_fn(FileRecord) -> bool {
    |r: FileRecord| !has_path(other, r.filepath)
}

/// Selects the records for whose path `other` holds a matching record.
pub open spec fn same_there(other: Seq<FileRecord>) -> spec_fn(FileRecord) -> bool {
    |r: FileRecord| has_path(other, r.filepath) && r.matches(record_for(other, r.filepath))
}

/// Selects the records for whose path `other` holds a record that does not
/// match.
pub open spec fn differs_there(other: Seq<FileRecord>) -> spec_fn(FileRecord) -> bool {
    |r: FileRecord| has_path(other, r.filepath) && !r.matches(record_for(other, r.filepath))
}

/// One side of the reconciliation of `own` with `other`: the records of
/// `own`, each under the status of its path, in the order of `own`.
pub open spec fn patch_of(own: Seq<FileRecord>, other: Seq<FileRecord>) -> PatchView {
    PatchView {
        added: own.filter(only_here(other)),
        unchanged: own.filter(same_there(other)),
        conflict: own.filter(differs_there(other)),
    }
}

/// The reconciliation of two scans: the side of `a`, then the side of `b`.
pub open spec fn reconcile_spec(a: Seq<FileRecord>, b: Seq<FileRecord>) -> (PatchView, PatchView) {
    (patch_of(a, b), patch_of(b, a))
}

/// Groups the records of `own` by the status that their paths have against
/// `other`.
pub fn patch_for(own: &ScanDirectoryResult, other: &ScanDirectoryResult) -> (patch: PatchResult)
    ensures
        patch@ == patch_of(own@, other@),
{
    let records = own.records();
    let mut patch = PatchResult::new();
    let mut i: usize = 0;
    proof {
        reveal(Seq::filter);
        assert(own@.take(0) =~= Seq::<FileRecord>::empty());
    }
    while i < records.len()
        invariant
            i <= records.len(),
            records_of(records@) == own@,
            patch@ == patch_of(own@.take(i as int), other@),
        decreases records.len() - i,
    {
        let record = &records[i];
        let ghost done = own@.take(i as int);
        let ghost before = patch;
        proof {
            assert(own@.take(i + 1) =~= done.push(record@));
            lemma_filter_push(done, record@, only_here(other@));
            lemma_filter_push(done, record@, same_there(other@));
            lemma_filter_push(done, record@, differs_there(other@));
        }
        match other.get(record.filepath.as_str()) {
            None => {
                patch.added.push(record.clone());
                assert(records_of(patch.added@) =~= records_of(before.added@).push(record@));
            },
            Some(theirs) => {
                if record.matches(theirs) {
                    patch.unchanged.push(record.clone());
                    assert(records_of(patch.unchanged@) =~= records_of(before.unchanged@).push(
                        record@,
                    ));
                } else {
                    patch.conflict.push(record.clone());
                    assert(records_of(patch.conflict@) =~= records_of(before.conflict@).push(
                        record@,
                    ));
                }
            },
        }
        i = i + 1;
    }
    assert(own@.take(i as int) =~= own@);
    patch
}

/// Reconciles the scans of two roots. Each side of the result holds the
/// records of that side's own scan: under `Add` those whose path the other
/// scan lacks, under `Unchanged` those whose path the other scan holds with a
/// matching record, under `Conflict` those whose path the other scan holds
/// with a record that differs. Within a group the records stand in the order
/// of their paths.
pub fn reconcile(results_a: ScanDirectoryResult, results_b: ScanDirectoryResult) -> (r:
    ReconcileResult)
    ensures
        (r.0@, r.1@) == reconcile_spec(results_a@, results_b@),
{
    let side_a = patch_for(&results_a, &results_b);
    let side_b = patch_for(&results_b, &results_a);
    (side_a, side_b)
}

/// Reconciles the outcomes of the two scans of one run, once both have
/// ended. Where a scan failed there is no result, only the failure: that of
/// the first root's scan if it failed, else that of the second's.
pub fn reconcile_scans(
    scan_a: Result<ScanDirectoryResult, ScanError>,
    scan_b: Result<ScanDirectoryResult, ScanError>,
) -> (r: Result<ReconcileResult, ScanError>)
    ensures
        match (scan_a, scan_b) {
            (Ok(a), Ok(b)) => r matches Ok(sides) && (sides.0@, sides.1@) == reconcile_spec(
                a@,
                b@,
            ),
            (Err(error), _) => r matches Err(e) && e@ == error@,
            (Ok(_), Err(error)) => r matches Err(e) && e@ == error@,
        },
{
    match scan_a {
        Err(error) => Err(error),
        Ok(results_a) => match scan_b {
            Err(error) => Err(error),
            Ok(results_b) => Ok(reconcile(results_a, results_b)),
        },
    }
}

/// A filter keeps exactly the elements that pass.
pub proof fn lemma_filter_members(
    s: Seq<FileRecord>,
    pred: spec_fn(FileRecord) -> bool,
    r: FileRecord,
)
    ensures
        s.filter(pred).contains(r) == (s.contains(r) && pred(r)),
{
    let kept = s.filter(pred);
    if kept.contains(r) {
        let i = choose|i: int| 0 <= i < kept.len() && kept[i] == r;
        s.lemma_filter_pred(pred, i);
        s.lemma_filter_contains_rev(pred, r);
    }
    if s.contains(r) && pred(r) {
        let j = choose|j: int| 0 <= j < s.len() && s[j] == r;
        s.lemma_filter_contains(pred, j);
    }
}

/// What a filter keeps of a strictly sorted sequence is strictly sorted.
pub proof fn lemma_filter_sorted(s: Seq<FileRecord>, pred: spec_fn(FileRecord) -> bool)
    requires
        strictly_sorted(s),
    ensures
        strictly_sorted(s.filter(pred)),
    decreases s.len(),
{
    reveal(Seq::filter);
    if s.len() > 0 {
        let front = s.drop_last();
        lemma_filter_sorted(front, pred);
        let kept = front.filter(pred);
        assert forall|i: int| 0 <= i < kept.len() implies crate::path_order::path_less(
            #[trigger] kept[i].filepath,
            s.last().filepath,
        ) by {
            assert(kept.contains(kept[i]));
            lemma_filter_members(front, pred, kept[i]);
            let j = choose|j: int| 0 <= j < front.len() && front[j] == kept[i];
            assert(s[j] == kept[i]);
        }
    }
}

/// What a filter keeps of a strictly sorted sequence holds a path exactly
/// when the sequence holds it with a record that passes.
pub proof fn lemma_filter_paths(
    s: Seq<FileRecord>,
    pred: spec_fn(FileRecord) -> bool,
    path: Seq<char>,
)
    requires
        strictly_sorted(s),
    ensures
        has_path(s.filter(pred), path) == (has_path(s, path) && pred(record_for(s, path))),
        has_path(s.filter(pred), path) ==> record_for(s.filter(pred), path) == record_for(
            s,
            path,
        ),
{
    let kept = s.filter(pred);
    lemma_filter_sorted(s, pred);
    if has_path(kept, path) {
        let i = index_of_path(kept, path);
        assert(kept.contains(kept[i]));
        lemma_filter_members(s, pred, kept[i]);
        let j = choose|j: int| 0 <= j < s.len() && s[j] == kept[i];
        assert(s[j].filepath == path);
        lemma_record_for_place(s, j);
        lemma_record_for_place(kept, i);
    }
    if has_path(s, path) && pred(record_for(s, path)) {
        let r = record_for(s, path);
        assert(s.contains(r));
        lemma_filter_members(s, pred, r);
        let i = choose|i: int| 0 <= i < kept.len() && kept[i] == r;
        assert(kept[i].filepath == path);
    }
}

/// Reconciled with itself, a scan has each of its records unchanged, on
/// both sides, and nothing added and nothing in conflict.
pub proof fn law_reconcile_idempotent(a: Seq<FileRecord>)
    requires
        strictly_sorted(a),
    ensures
        reconcile_spec(a, a).0 == (PatchView {
            added: Seq::<FileRecord>::empty(),
            unchanged: a,
            conflict: Seq::<FileRecord>::empty(),
        }),
        reconcile_spec(a, a).1 == reconcile_spec(a, a).0,
{
    assert forall|i: int| 0 <= i < a.len() implies !only_here(a)(#[trigger] a[i]) && same_there(a)(
        a[i],
    ) && !differs_there(a)(a[i]) by {
        lemma_record_for_place(a, i);
        lemma_matches_reflexive(a[i]);
    }
    lemma_filter_keeps_none(a, only_here(a));
    lemma_filter_keeps_all(a, same_there(a));
    lemma_filter_keeps_none(a, differs_there(a));
}

/// With the two scans exchanged, the two sides of the result are exchanged
/// and nothing else changes. The paths added on the first side are those
/// that only the first scan holds, and the paths added on the second side
/// are those that only the second scan holds.
pub proof fn law_reconcile_symmetric(a: Seq<FileRecord>, b: Seq<FileRecord>)
    requires
        strictly_sorted(a),
        strictly_sorted(b),
    ensures
        reconcile_spec(b, a).0 == reconcile_spec(a, b).1,
        reconcile_spec(b, a).1 == reconcile_spec(a, b).0,
        paths_of(reconcile_spec(a, b).0.added) == paths_of(a).difference(paths_of(b)),
        paths_of(reconcile_spec(a, b).1.added) == paths_of(b).difference(paths_of(a)),
{
    assert forall|p: Seq<char>|
        has_path(patch_of(a, b).added, p) == (has_path(a, p) && !has_path(b, p)) by {
        lemma_filter_paths(a, only_here(b), p);
    }
    assert forall|p: Seq<char>|
        has_path(patch_of(b, a).added, p) == (has_path(b, p) && !has_path(a, p)) by {
        lemma_filter_paths(b, only_here(a), p);
    }
    assert(paths_of(patch_of(a, b).added) =~= paths_of(a).difference(paths_of(b)));
    assert(paths_of(patch_of(b, a).added) =~= paths_of(b).difference(paths_of(a)));
}

/// Each record of a scan stands in one and only one of the three groups of
/// its side: the groups together hold as many records as the scan.
pub proof fn law_reconcile_keeps_every_record(own: Seq<FileRecord>, other: Seq<FileRecord>)
    ensures
        patch_of(own, other).added.len() + patch_of(own, other).unchanged.len() + patch_of(
            own,
            other,
        ).conflict.len() == own.len(),
    decreases own.len(),
{
    if own.len() == 0 {
        lemma_filter_keeps_none(own, only_here(other));
        lemma_filter_keeps_none(own, same_there(other));
        lemma_filter_keeps_none(own, differs_there(other));
    } else {
        let front = own.drop_last();
        law_reconcile_keeps_every_record(front, other);
        assert(front.push(own.last()) =~= own);
        lemma_filter_push(front, own.last(), only_here(other));
        lemma_filter_push(front, own.last(), same_there(other));
        lemma_filter_push(front, own.last(), differs_there(other));
    }
}

/// The status that `path` has on the side of `own`: none where `own` does
/// not hold it, `Add` where only `own` holds it, else `Unchanged` or
/// `Conflict` as the two records for it match or not.
pub proof fn lemma_status_of_path(own: Seq<FileRecord>, other: Seq<FileRecord>, path: Seq<char>)
    requires
        strictly_sorted(own),
    ensures
        has_path(patch_of(own, other).added, path) == (has_path(own, path) && !has_path(
            other,
            path,
        )),
        has_path(patch_of(own, other).unchanged, path) == (has_path(own, path) && has_path(
            other,
            path,
        ) && record_for(own, path).matches(record_for(other, path))),
        has_path(patch_of(own, other).conflict, path) == (has_path(own, path) && has_path(
            other,
            path,
        ) && !record_for(own, path).matches(record_for(other, path))),
{
    lemma_filter_paths(own, only_here(other), path);
    lemma_filter_paths(own, same_there(other), path);
    lemma_filter_paths(own, differs_there(other), path);
}

/// One side of a reconciliation shares the paths of its own scan out among
/// its three groups.
pub proof fn lemma_patch_partitions(own: Seq<FileRecord>, other: Seq<FileRecord>)
    requires
        strictly_sorted(own),
    ensures
        patch_of(own, other).partitions(paths_of(own)),
{
    let patch = patch_of(own, other);
    lemma_filter_sorted(own, only_here(other));
    lemma_filter_sorted(own, same_there(other));
    lemma_filter_sorted(own, differs_there(other));
    assert forall|p: Seq<char>|
        (#[trigger] has_path(patch.added, p) || has_path(patch.unchanged, p) || has_path(
            patch.conflict,
            p,
        )) == has_path(own, p) by {
        lemma_status_of_path(own, other, p);
    }
    assert forall|p: Seq<char>|
        !(#[trigger] has_path(patch.added, p) && has_path(patch.unchanged, p)) && !(has_path(
            patch.added,
            p,
        ) && has_path(patch.conflict, p)) by {
        lemma_status_of_path(own, other, p);
    }
    assert forall|p: Seq<char>|
        !(#[trigger] has_path(patch.unchanged, p) && has_path(patch.conflict, p)) by {
        lemma_status_of_path(own, other, p);
    }
    assert(paths_of(patch.added).union(paths_of(patch.unchanged)).union(paths_of(patch.conflict))
        =~= paths_of(own));
    assert(paths_of(patch.added).disjoint(paths_of(patch.unchanged)));
    assert(paths_of(patch.added).disjoint(paths_of(patch.conflict)));
    assert(paths_of(patch.unchanged).disjoint(paths_of(patch.conflict)));
}

/// On each side, every path of that side's scan stands in exactly one of
/// the three groups, once, and the groups hold no other path. A path that
/// both scans hold has the same status on both sides; a path that one scan
/// lacks has no status on that scan's side.
pub proof fn law_reconcile_partition(a: Seq<FileRecord>, b: Seq<FileRecord>)
    requires
        strictly_sorted(a),
        strictly_sorted(b),
    ensures
        reconcile_spec(a, b).0.partitions(paths_of(a)),
        reconcile_spec(a, b).1.partitions(paths_of(b)),
        forall|p: Seq<char>|
            has_path(a, p) && has_path(b, p) ==> reconcile_spec(a, b).0.status_of(p) is Some
                && #[trigger] reconcile_spec(a, b).0.status_of(p) == reconcile_spec(
                a,
                b,
            ).1.status_of(p),
        forall|p: Seq<char>|
            !has_path(a, p) ==> #[trigger] reconcile_spec(a, b).0.status_of(p) is None,
        forall|p: Seq<char>|
            !has_path(b, p) ==> #[trigger] reconcile_spec(a, b).1.status_of(p) is None,
{
    lemma_patch_partitions(a, b);
    lemma_patch_partitions(b, a);
    assert forall|p: Seq<char>| has_path(a, p) && has_path(b, p) implies reconcile_spec(
        a,
        b,
    ).0.status_of(p) is Some && #[trigger] reconcile_spec(a, b).0.status_of(p) == reconcile_spec(
        a,
        b,
    ).1.status_of(p) by {
        lemma_status_of_path(a, b, p);
        lemma_status_of_path(b, a, p);
    }
    assert forall|p: Seq<char>| !has_path(a, p) implies #[trigger] reconcile_spec(
        a,
        b,
    ).0.status_of(p) is None by {
        lemma_status_of_path(a, b, p);
    }
    assert forall|p: Seq<char>| !has_path(b, p) implies #[trigger] reconcile_spec(
        a,
        b,
    ).1.status_of(p) is None by {
        lemma_status_of_path(b, a, p);
    }
}

/// Where both scans hold `path` with the same fingerprint and the same
/// size, the path is unchanged on both sides if the two modification times
/// lie less than one second apart, and in conflict on both sides if they lie
/// one second or more apart.
pub proof fn law_modification_time_decides(a: Seq<FileRecord>, b: Seq<FileRecord>, path: Seq<char>)
    requires
        strictly_sorted(a),
        strictly_sorted(b),
        has_path(a, path),
        has_path(b, path),
        record_for(a, path).hash == record_for(b, path).hash,
        record_for(a, path).size == record_for(b, path).size,
    ensures
        ({
            let apart = record_for(a, path).time_modified.total_nanos() - record_for(
                b,
                path,
            ).time_modified.total_nanos();
            let status = if -1_000_000_000 < apart < 1_000_000_000 {
                ReconcileOperation::Unchanged
            } else {
                ReconcileOperation::Conflict
            };
            &&& reconcile_spec(a, b).0.status_of(path) == Some(status)
            &&& reconcile_spec(a, b).1.status_of(path) == Some(status)
        }),
{
    lemma_status_of_path(a, b, path);
    lemma_status_of_path(b, a, path);
}

} // verus!
