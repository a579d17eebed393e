use crate::file_result::{record_text, FileRecord, FileResult};
use crate::path_order::{
    compare_paths, lemma_path_less_asymmetric, lemma_path_less_connected,
    lemma_path_less_irreflexive, lemma_path_less_transitive, path_less, PathOrder,
};
use crate::results::{
    lemma_filter_keeps_all, lemma_filter_keeps_none, lemma_filter_push, records_of, Line,
    PatchResult, PatchView, ReconcileOperation,
};
use crate::text::{push_char, push_text};
use vstd::prelude::*;
use vstd::seq_lib::{lemma_multiset_commutative, to_multiset_build};

verus! {

/// The mathematical content of a [`Line`].
pub type LineView = (ReconcileOperation, FileRecord);

/// The mathematical content of a sequence of lines.
pub open spec fn lines_of(v: Seq<Line>) -> Seq<LineView> {
    v.map_values(|l: Line| (l.0, l.1@))
}

/// The lines that say `operation` of each of `records`, in their order.
pub open spec fn tagged(operation: ReconcileOperation, records: Seq<FileRecord>) -> Seq<LineView> {
    records.map_values(|r: FileRecord| (operation, r))
}

/// The lines of one side before they are ordered: the added records, the
/// unchanged ones unless they are to be left out, and those in conflict.
pub open spec fn linearized(patch: PatchView, ignore_unchanged: bool) -> Seq<LineView> {
    tagged(ReconcileOperation::Add, patch.added) + if ignore_unchanged {
        Seq::<LineView>::empty()
    } else {
        tagged(ReconcileOperation::Unchanged, patch.unchanged)
    } + tagged(ReconcileOperation::Conflict, patch.conflict)
}

/// No line stands behind a line whose path comes after its own.
pub open spec fn sorted_by_path(lines: Seq<LineView>) -> bool {
    forall|i: int, j: int|
        0 <= i < j < lines.len() ==> !path_less(lines[j].1.filepath, lines[i].1.filepath)
}

/// Selects the lines that are said of `path`.
pub open spec fn says_of(path: Seq<char>) -> spec_fn(LineView) -> bool {
    |line: LineView| line.1.filepath == path
}

/// `ordered` holds the lines of `lines` in the order of their paths, and
/// lines of one and the same path in the order in which `lines` has them.
pub open spec fn is_ordering_of(ordered: Seq<LineView>, lines: Seq<LineView>) -> bool {
    &&& sorted_by_path(ordered)
    &&& forall|path: Seq<char>| #[trigger]
        ordered.filter(says_of(path)) == lines.filter(says_of(path))
}

/// Where `a` comes before `b`, and `c` does not come before `b`, `a` comes
/// before `c`.
pub proof fn lemma_before_not_before(a: Seq<char>, b: Seq<char>, c: Seq<char>)
    requires
        path_less(a, b),
        !path_less(c, b),
    ensures
        path_less(a, c),
{
    lemma_path_less_connected(b, c);
    if path_less(b, c) {
        lemma_path_less_transitive(a, b, c);
    }
}

/// Where `a` does not come after `b`, nor `b` after `c`, `a` does not come
/// after `c`.
pub proof fn lemma_not_after_transitive(a: Seq<char>, b: Seq<char>, c: Seq<char>)
    requires
        !path_less(b, a),
        !path_less(c, b),
    ensures
        !path_less(c, a),
{
    if path_less(c, a) {
        lemma_path_less_connected(a, b);
        if path_less(a, b) {
            lemma_path_less_transitive(c, a, b);
        }
    }
}

/// An ordered sequence that has a line of `path` ends in a line whose path
/// does not come before `path`.
proof fn lemma_last_of_path(lines: Seq<LineView>, path: Seq<char>)
    requires
        sorted_by_path(lines),
        lines.filter(says_of(path)).len() > 0,
    ensures
        lines.len() > 0,
        !path_less(lines.last().1.filepath, path),
{
    let kept = lines.filter(says_of(path));
    lines.lemma_filter_pred(says_of(path), 0);
    assert(kept.contains(kept[0]));
    lines.lemma_filter_contains_rev(says_of(path), kept[0]);
    let k = choose|k: int| 0 <= k < lines.len() && lines[k] == kept[0];
    if k < lines.len() - 1 {
        assert(!path_less(lines[lines.len() - 1].1.filepath, lines[k].1.filepath));
    } else {
        lemma_path_less_irreflexive(path);
    }
}

/// The order of the lines of a report is settled by their paths and by the
/// order in which lines of the same path were given: two orderings of the
/// same lines are one and the same.
pub proof fn law_ordering_is_unique(first: Seq<LineView>, second: Seq<LineView>, lines: Seq<LineView>)
    requires
        is_ordering_of(first, lines),
        is_ordering_of(second, lines),
    ensures
        first == second,
    decreases first.len(),
{
    reveal(Seq::filter);
    if first.len() == 0 {
        if second.len() > 0 {
            let path = second.last().1.filepath;
            assert(second.filter(says_of(path)) == lines.filter(says_of(path)));
            assert(first.filter(says_of(path)) == lines.filter(says_of(path)));
        }
        assert(first =~= second);
    } else {
        let a = first.last();
        let path = a.1.filepath;
        assert(first.filter(says_of(path)) == lines.filter(says_of(path)));
        assert(second.filter(says_of(path)) == lines.filter(says_of(path)));
        assert(first.filter(says_of(path)).last() == a);
        lemma_last_of_path(second, path);
        let b = second.last();
        let other = b.1.filepath;
        assert(first.filter(says_of(other)) == lines.filter(says_of(other)));
        assert(second.filter(says_of(other)) == lines.filter(says_of(other)));
        assert(second.filter(says_of(other)).last() == b);
        lemma_last_of_path(first, other);
        lemma_path_less_connected(path, other);
        assert(a == b);
        let front = first.drop_last();
        let back = second.drop_last();
        assert forall|i: int, j: int| 0 <= i < j < front.len() implies !path_less(
            front[j].1.filepath,
            front[i].1.filepath,
        ) by {
            assert(front[i] == first[i] && front[j] == first[j]);
        }
        assert forall|i: int, j: int| 0 <= i < j < back.len() implies !path_less(
            back[j].1.filepath,
            back[i].1.filepath,
        ) by {
            assert(back[i] == second[i] && back[j] == second[j]);
        }
        assert forall|q: Seq<char>| #[trigger]
            back.filter(says_of(q)) == front.filter(says_of(q)) by {
            assert(first.filter(says_of(q)) == lines.filter(says_of(q)));
            assert(second.filter(says_of(q)) == lines.filter(says_of(q)));
            if q == path {
                assert(front.filter(says_of(q)) =~= first.filter(says_of(q)).drop_last());
                assert(back.filter(says_of(q)) =~= second.filter(says_of(q)).drop_last());
            }
        }
        law_ordering_is_unique(front, back, front);
        assert(first =~= front.push(a));
        assert(second =~= back.push(b));
    }
}

/// A copy of a line.
fn copy_line(line: &Line) -> (r: Line)
    ensures
        r == *line,
{
    (line.0, line.1.clone())
}

/// Merges two ordered runs of lines into one.
fn merge_lines(left: &Vec<Line>, right: &Vec<Line>) -> (merged: Vec<Line>)
    requires
        sorted_by_path(lines_of(left@)),
        sorted_by_path(lines_of(right@)),
    ensures
        sorted_by_path(lines_of(merged@)),
        lines_of(merged@).to_multiset() == lines_of(left@).to_multiset().add(
            lines_of(right@).to_multiset(),
        ),
        forall|path: Seq<char>| #[trigger]
            lines_of(merged@).filter(says_of(path)) == lines_of(left@).filter(says_of(path))
                + lines_of(right@).filter(says_of(path)),
{
    let ghost l = lines_of(left@);
    let ghost r = lines_of(right@);
    let mut merged: Vec<Line> = Vec::new();
    let mut i: usize = 0;
    let mut j: usize = 0;
    proof {
        assert(l.take(0) =~= Seq::<LineView>::empty());
        assert(r.take(0) =~= Seq::<LineView>::empty());
        assert(lines_of(merged@) =~= Seq::<LineView>::empty());
        lemma_multiset_commutative(Seq::<LineView>::empty(), Seq::<LineView>::empty());
        assert(Seq::<LineView>::empty() + Seq::<LineView>::empty() =~= Seq::<LineView>::empty());
        assert(lines_of(merged@).to_multiset() =~= l.take(0).to_multiset().add(
            r.take(0).to_multiset(),
        ));
        assert forall|path: Seq<char>| #[trigger]
            lines_of(merged@).filter(says_of(path)) == l.take(0).filter(says_of(path)) + r.take(
                0,
            ).filter(says_of(path)) by {
            lemma_filter_keeps_none(Seq::<LineView>::empty(), says_of(path));
        }
    }
    while i < left.len() || j < right.len()
        invariant
            l == lines_of(left@),
            r == lines_of(right@),
            sorted_by_path(l),
            sorted_by_path(r),
            i <= left.len(),
            j <= right.len(),
            sorted_by_path(lines_of(merged@)),
            lines_of(merged@).to_multiset() == l.take(i as int).to_multiset().add(
                r.take(j as int).to_multiset(),
            ),
            forall|k: int|
                0 <= k < merged.len() && i < l.len() ==> !path_less(
                    l[i as int].1.filepath,
                    #[trigger] lines_of(merged@)[k].1.filepath,
                ),
            forall|k: int|
                0 <= k < merged.len() && j < r.len() ==> !path_less(
                    r[j as int].1.filepath,
                    #[trigger] lines_of(merged@)[k].1.filepath,
                ),
            forall|k: int|
                0 <= k < j && i < l.len() ==> path_less(
                    #[trigger] r[k].1.filepath,
                    l[i as int].1.filepath,
                ),
            forall|path: Seq<char>| #[trigger]
                lines_of(merged@).filter(says_of(path)) == l.take(i as int).filter(says_of(path))
                    + r.take(j as int).filter(says_of(path)),
        decreases left.len() - i + right.len() - j,
    {
        let ghost before = lines_of(merged@);
        let from_left = if j >= right.len() {
            true
        } else if i >= left.len() {
            false
        } else {
            compare_paths(right[j].1.filepath.as_str(), left[i].1.filepath.as_str())
                != PathOrder::Before
        };
        if from_left {
            merged.push(copy_line(&left[i]));
            proof {
                let line = l[i as int];
                assert(lines_of(merged@) =~= before.push(line));
                assert(l.take(i + 1) =~= l.take(i as int).push(line));
                to_multiset_build(before, line);
                to_multiset_build(l.take(i as int), line);
                assert(lines_of(merged@).to_multiset() =~= l.take(i + 1).to_multiset().add(
                    r.take(j as int).to_multiset(),
                ));
                assert forall|k: int| 0 <= k < merged.len() && i + 1 < l.len() implies !path_less(
                    l[i + 1].1.filepath,
                    #[trigger] lines_of(merged@)[k].1.filepath,
                ) by {
                    if k < before.len() {
                        lemma_not_after_transitive(
                            before[k].1.filepath,
                            line.1.filepath,
                            l[i + 1].1.filepath,
                        );
                    }
                }
                assert forall|k: int| 0 <= k < merged.len() && j < r.len() implies !path_less(
                    r[j as int].1.filepath,
                    #[trigger] lines_of(merged@)[k].1.filepath,
                ) by {}
                assert forall|k: int| 0 <= k < j && i + 1 < l.len() implies path_less(
                    #[trigger] r[k].1.filepath,
                    l[i + 1].1.filepath,
                ) by {
                    lemma_before_not_before(
                        r[k].1.filepath,
                        line.1.filepath,
                        l[i + 1].1.filepath,
                    );
                }
                assert forall|path: Seq<char>| #[trigger]
                    lines_of(merged@).filter(says_of(path)) == l.take(i + 1).filter(says_of(path))
                        + r.take(j as int).filter(says_of(path)) by {
                    lemma_filter_push(before, line, says_of(path));
                    lemma_filter_push(l.take(i as int), line, says_of(path));
                    if path == line.1.filepath {
                        assert forall|k: int| 0 <= k < r.take(j as int).len() implies !says_of(
                            path,
                        )(#[trigger] r.take(j as int)[k]) by {
                            assert(path_less(r[k].1.filepath, path));
                            lemma_path_less_irreflexive(path);
                        }
                        lemma_filter_keeps_none(r.take(j as int), says_of(path));
                        assert(before.filter(says_of(path)).push(line) =~= l.take(
                            i as int,
                        ).filter(says_of(path)).push(line) + r.take(j as int).filter(
                            says_of(path),
                        ));
                    }
                }
            }
            i = i + 1;
        } else {
            merged.push(copy_line(&right[j]));
            proof {
                let line = r[j as int];
                assert(lines_of(merged@) =~= before.push(line));
                assert(r.take(j + 1) =~= r.take(j as int).push(line));
                to_multiset_build(before, line);
                to_multiset_build(r.take(j as int), line);
                assert(lines_of(merged@).to_multiset() =~= l.take(i as int).to_multiset().add(
                    r.take(j + 1).to_multiset(),
                ));
                assert forall|k: int| 0 <= k < merged.len() && j + 1 < r.len() implies !path_less(
                    r[j + 1].1.filepath,
                    #[trigger] lines_of(merged@)[k].1.filepath,
                ) by {
                    if k < before.len() {
                        lemma_not_after_transitive(
                            before[k].1.filepath,
                            line.1.filepath,
                            r[j + 1].1.filepath,
                        );
                    }
                }
                assert forall|k: int| 0 <= k < merged.len() && i < l.len() implies !path_less(
                    l[i as int].1.filepath,
                    #[trigger] lines_of(merged@)[k].1.filepath,
                ) by {
                    if k == before.len() {
                        lemma_path_less_asymmetric(line.1.filepath, l[i as int].1.filepath);
                    }
                }
                assert forall|path: Seq<char>| #[trigger]
                    lines_of(merged@).filter(says_of(path)) == l.take(i as int).filter(
                        says_of(path),
                    ) + r.take(j + 1).filter(says_of(path)) by {
                    lemma_filter_push(before, line, says_of(path));
                    lemma_filter_push(r.take(j as int), line, says_of(path));
                }
            }
            j = j + 1;
        }
    }
    proof {
        assert(l.take(i as int) =~= l);
        assert(r.take(j as int) =~= r);
    }
    merged
}

/// Orders lines by their paths. Lines of one and the same path keep their
/// order.
pub fn sort_lines(lines: Vec<Line>) -> (sorted: Vec<Line>)
    ensures
        is_ordering_of(lines_of(sorted@), lines_of(lines@)),
        lines_of(sorted@).to_multiset() == lines_of(lines@).to_multiset(),
    decreases lines.len(),
{
    if lines.len() <= 1 {
        return lines;
    }
    let ghost all = lines_of(lines@);
    let middle = lines.len() / 2;
    let mut left = lines;
    let right = left.split_off(middle);
    proof {
        assert(all =~= lines_of(left@) + lines_of(right@));
        lemma_multiset_commutative(lines_of(left@), lines_of(right@));
    }
    let ghost first = lines_of(left@);
    let ghost second = lines_of(right@);
    let left = sort_lines(left);
    let right = sort_lines(right);
    let sorted = merge_lines(&left, &right);
    assert forall|path: Seq<char>| #[trigger]
        lines_of(sorted@).filter(says_of(path)) == all.filter(says_of(path)) by {
        assert(lines_of(left@).filter(says_of(path)) == first.filter(says_of(path)));
        assert(lines_of(right@).filter(says_of(path)) == second.filter(says_of(path)));
        assert((first + second).filter(says_of(path)) == first.filter(says_of(path))
            + second.filter(says_of(path)));
    }
    sorted
}

/// Appends to `lines` the lines that say `operation` of each of `records`.
fn push_tagged(lines: &mut Vec<Line>, operation: ReconcileOperation, records: &Vec<FileResult>)
    ensures
        lines_of(final(lines)@) == lines_of(old(lines)@) + tagged(operation, records_of(records@)),
{
    let mut i: usize = 0;
    assert(lines_of(lines@) =~= lines_of(old(lines)@) + tagged(
        operation,
        records_of(records@).take(0),
    ));
    while i < records.len()
        invariant
            i <= records.len(),
            lines_of(lines@) == lines_of(old(lines)@) + tagged(
                operation,
                records_of(records@).take(i as int),
            ),
        decreases records.len() - i,
    {
        let ghost before = lines_of(lines@);
        lines.push((operation, records[i].clone()));
        assert(lines_of(lines@) =~= before.push((operation, records[i as int]@)));
        assert(tagged(operation, records_of(records@).take(i + 1)) =~= tagged(
            operation,
            records_of(records@).take(i as int),
        ).push((operation, records[i as int]@)));
        i = i + 1;
    }
    assert(records_of(records@).take(i as int) =~= records_of(records@));
}

/// The lines of one side of a report, ordered by their paths: one for each
/// added record, one for each unchanged record unless `ignore_unchanged`
/// leaves them out, and one for each record in conflict. The patch itself
/// is left as it is.
pub fn patch_lines(patch: &PatchResult, ignore_unchanged: bool) -> (lines: Vec<Line>)
    ensures
        is_ordering_of(lines_of(lines@), linearized(patch@, ignore_unchanged)),
        lines_of(lines@).to_multiset() == linearized(patch@, ignore_unchanged).to_multiset(),
{
    let mut lines: Vec<Line> = Vec::new();
    assert(lines_of(lines@) =~= Seq::<LineView>::empty());
    push_tagged(&mut lines, ReconcileOperation::Add, &patch.added);
    if !ignore_unchanged {
        push_tagged(&mut lines, ReconcileOperation::Unchanged, &patch.unchanged);
    }
    push_tagged(&mut lines, ReconcileOperation::Conflict, &patch.conflict);
    assert(lines_of(lines@) =~= linearized(patch@, ignore_unchanged));
    sort_lines(lines)
}

/// Selects the lines that say anything but `Unchanged`.
pub open spec fn is_change() -> spec_fn(LineView) -> bool {
    |line: LineView| line.0 != ReconcileOperation::Unchanged
}

/// Leaving the unchanged files out takes their lines from the report and
/// does nothing else: the lines that are left are those that a full report
/// has for the added files and for the files in conflict.
pub proof fn law_ignore_unchanged_drops_only_unchanged(patch: PatchView)
    ensures
        linearized(patch, true) == linearized(patch, false).filter(is_change()),
{
    let added = tagged(ReconcileOperation::Add, patch.added);
    let unchanged = tagged(ReconcileOperation::Unchanged, patch.unchanged);
    let conflict = tagged(ReconcileOperation::Conflict, patch.conflict);
    lemma_filter_keeps_all(added, is_change());
    lemma_filter_keeps_none(unchanged, is_change());
    lemma_filter_keeps_all(conflict, is_change());
    assert((added + unchanged + conflict).filter(is_change()) == added.filter(is_change())
        + unchanged.filter(is_change()) + conflict.filter(is_change()));
}

/// One line of a report: the symbol of the status, a blank, the record, and
/// the end of the line.
pub open spec fn line_text(line: LineView, time_text: Seq<char>) -> Seq<char> {
    seq![line.0.spec_symbol(), ' '] + record_text(line.1, time_text) + seq!['\n']
}

/// The first two lines of a report: when it was made, and of which roots.
pub open spec fn header_text(
    generated_at: Seq<char>,
    directory_a: Seq<char>,
    directory_b: Seq<char>,
) -> Seq<char> {
    "# Results for "@ + generated_at + seq!['\n'] + "# Reconciled '"@ + directory_a + "' '"@
        + directory_b + seq!['\'', '\n']
}

/// The texts of `lines` one after the other, each with the text of its
/// modification time from `time_texts`.
pub open spec fn lines_text(lines: Seq<LineView>, time_texts: Seq<Seq<char>>) -> Seq<char>
    decreases lines.len(),
{
    if lines.len() == 0 || time_texts.len() == 0 {
        Seq::empty()
    } else {
        lines_text(lines.drop_last(), time_texts.drop_last()) + line_text(
            lines.last(),
            time_texts.last(),
        )
    }
}

/// One side of a report: the root in a line of its own, the lines of the
/// side, and an empty line.
pub open spec fn patch_text(
    directory: Seq<char>,
    lines: Seq<LineView>,
    time_texts: Seq<Seq<char>>,
) -> Seq<char> {
    directory + seq!['\n'] + lines_text(lines, time_texts) + seq!['\n']
}

/// The views of a sequence of texts.
pub open spec fn texts_of(v: Seq<String>) -> Seq<Seq<char>> {
    v.map_values(|t: String| t@)
}

/// Writes one line of a report, with `time_text` for the modification time
/// of its record.
pub fn render_line(line: &Line, time_text: &str) -> (text: String)
    ensures
        text@ == line_text((line.0, line.1@), time_text@),
{
    let mut text = String::new();
    push_char(&mut text, line.0.symbol());
    push_char(&mut text, ' ');
    let record = line.1.to_text(time_text);
    push_text(&mut text, record.as_str());
    push_char(&mut text, '\n');
    assert(text@ =~= line_text((line.0, line.1@), time_text@));
    text
}

/// Writes the first two lines of a report.
pub fn render_header(generated_at: &str, directory_a: &str, directory_b: &str) -> (text: String)
    ensures
        text@ == header_text(generated_at@, directory_a@, directory_b@),
{
    let mut text = String::from_str("# Results for ");
    push_text(&mut text, generated_at);
    push_char(&mut text, '\n');
    push_text(&mut text, "# Reconciled '");
    push_text(&mut text, directory_a);
    push_text(&mut text, "' '");
    push_text(&mut text, directory_b);
    push_char(&mut text, '\'');
    push_char(&mut text, '\n');
    assert(text@ =~= header_text(generated_at@, directory_a@, directory_b@));
    text
}

/// Writes one side of a report. `time_texts` holds, for each of `lines` in
/// turn, the text of its record's modification time; with more or fewer
/// texts than lines nothing is written.
pub fn render_patch(directory: &str, lines: &Vec<Line>, time_texts: &Vec<String>) -> (text: Option<
    String,
>)
    ensures
        text is Some == (time_texts@.len() == lines@.len()),
        text matches Some(t) ==> t@ == patch_text(
            directory@,
            lines_of(lines@),
            texts_of(time_texts@),
        ),
{
    if time_texts.len() != lines.len() {
        return None;
    }
    let mut text = String::from_str(directory);
    push_char(&mut text, '\n');
    let mut i: usize = 0;
    assert(text@ =~= directory@ + seq!['\n'] + lines_text(
        lines_of(lines@).take(0),
        texts_of(time_texts@).take(0),
    ));
    while i < lines.len()
        invariant
            i <= lines.len(),
            time_texts.len() == lines.len(),
            text@ == directory@ + seq!['\n'] + lines_text(
                lines_of(lines@).take(i as int),
                texts_of(time_texts@).take(i as int),
            ),
        decreases lines.len() - i,
    {
        let line = render_line(&lines[i], time_texts[i].as_str());
        push_text(&mut text, line.as_str());
        proof {
            let done = lines_of(lines@).take(i + 1);
            let times = texts_of(time_texts@).take(i + 1);
            assert(done.drop_last() =~= lines_of(lines@).take(i as int));
            assert(times.drop_last() =~= texts_of(time_texts@).take(i as int));
            assert(text@ =~= directory@ + seq!['\n'] + lines_text(done, times));
        }
        i = i + 1;
    }
    push_char(&mut text, '\n');
    assert(lines_of(lines@).take(i as int) =~= lines_of(lines@));
    assert(texts_of(time_texts@).take(i as int) =~= texts_of(time_texts@));
    assert(text@ =~= patch_text(directory@, lines_of(lines@), texts_of(time_texts@)));
    Some(text)
}

/// A whole report: the header, the side of the first root, and the side of
/// the second.
pub open spec fn report_text(
    generated_at: Seq<char>,
    directory_a: Seq<char>,
    lines_a: Seq<LineView>,
    times_a: Seq<Seq<char>>,
    directory_b: Seq<char>,
    lines_b: Seq<LineView>,
    times_b: Seq<Seq<char>>,
) -> Seq<char> {
    header_text(generated_at, directory_a, directory_b) + patch_text(directory_a, lines_a, times_a)
        + patch_text(directory_b, lines_b, times_b)
}

/// Writes a whole report: the header first, then the side of the first
/// root, then the side of the second. `times_a` and `times_b` hold, for each
/// line of their side in turn, the text of its record's modification time;
/// where a side has more or fewer texts than lines nothing is written.
pub fn render_report(
    generated_at: &str,
    directory_a: &str,
    lines_a: &Vec<Line>,
    times_a: &Vec<String>,
    directory_b: &str,
    lines_b: &Vec<Line>,
    times_b: &Vec<String>,
) -> (text: Option<String>)
    ensures
        text is Some == (times_a@.len() == lines_a@.len() && times_b@.len() == lines_b@.len()),
        text matches Some(t) ==> t@ == report_text(
            generated_at@,
            directory_a@,
            lines_of(lines_a@),
            texts_of(times_a@),
            directory_b@,
            lines_of(lines_b@),
            texts_of(times_b@),
        ),
{
    let side_a = match render_patch(directory_a, lines_a, times_a) {
        Some(side) => side,
        None => {
            return None;
        },
    };
    let side_b = match render_patch(directory_b, lines_b, times_b) {
        Some(side) => side,
        None => {
            return None;
        },
    };
    let mut text = render_header(generated_at, directory_a, directory_b);
    push_text(&mut text, side_a.as_str());
    push_text(&mut text, side_b.as_str());
    Some(text)
}

} // verus!
