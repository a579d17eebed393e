use dir_reconcile::file_result::{FileResult, Timestamp};
use dir_reconcile::reconcile::reconcile;
use dir_reconcile::report::{
    patch_lines, render_header, render_line, render_patch, render_report, sort_lines,
};
use dir_reconcile::results::{Line, PatchResult, ReconcileOperation, ScanDirectoryResult};

fn sized(path: &str, size: u64) -> FileResult {
    FileResult::new(path.to_string(), "h".to_string(), size, Timestamp::new(0, 0))
}

fn sample_patch() -> PatchResult {
    PatchResult {
        added: vec![sized("m", 1), sized("b", 2)],
        unchanged: vec![sized("z", 3), sized("a", 4)],
        conflict: vec![sized("c", 5)],
    }
}

fn shown(lines: &Vec<Line>) -> Vec<(char, String)> {
    lines.iter().map(|l| (l.0.symbol(), l.1.filepath.clone())).collect()
}

fn pairs(list: &[(char, &str)]) -> Vec<(char, String)> {
    list.iter().map(|(c, p)| (*c, p.to_string())).collect()
}

#[test]
fn lines_come_in_the_order_of_their_paths() {
    let lines = patch_lines(&sample_patch(), false);
    assert_eq!(
        shown(&lines),
        pairs(&[('=', "a"), ('+', "b"), ('!', "c"), ('+', "m"), ('=', "z")])
    );
}

#[test]
fn unchanged_lines_can_be_left_out() {
    let lines = patch_lines(&sample_patch(), true);
    assert_eq!(shown(&lines), pairs(&[('+', "b"), ('!', "c"), ('+', "m")]));
}

#[test]
fn leaving_unchanged_lines_out_leaves_the_patch_as_it_is() {
    let patch = sample_patch();
    let without = patch_lines(&patch, true);
    let with = patch_lines(&patch, false);
    let kept: Vec<(char, String)> = shown(&with).into_iter().filter(|l| l.0 != '=').collect();
    assert_eq!(shown(&without), kept);
    assert_eq!(patch.unchanged.len(), 2);
    assert_eq!(patch.added.len(), 2);
    assert_eq!(patch.conflict.len(), 1);
}

#[test]
fn sorting_keeps_every_line() {
    let names = ["q", "c", "x", "a", "c", "b", "zz", "", "m", "c"];
    let lines: Vec<Line> = names.iter().map(|n| (ReconcileOperation::Add, sized(n, 0))).collect();
    let sorted = sort_lines(lines);
    let got: Vec<&str> = sorted.iter().map(|l| l.1.filepath.as_str()).collect();
    assert_eq!(got, vec!["", "a", "b", "c", "c", "c", "m", "q", "x", "zz"]);
    assert!(sort_lines(Vec::new()).is_empty());
}

#[test]
fn a_record_shows_path_time_and_size() {
    let record = sized("sub/x.txt", 1234);
    assert_eq!(
        record.to_text("2017-07-14 02:40:00"),
        "sub/x.txt (2017-07-14 02:40:00 | 1234 bytes)"
    );
}

#[test]
fn sizes_are_written_in_decimal() {
    assert_eq!(sized("f", 0).to_text("t"), "f (t | 0 bytes)");
    assert_eq!(sized("f", 9).to_text("t"), "f (t | 9 bytes)");
    assert_eq!(sized("f", 10).to_text("t"), "f (t | 10 bytes)");
    assert_eq!(sized("f", 1_000_000).to_text("t"), "f (t | 1000000 bytes)");
    assert_eq!(sized("f", u64::MAX).to_text("t"), "f (t | 18446744073709551615 bytes)");
}

#[test]
fn a_line_starts_with_the_symbol_of_its_status() {
    let time = "2020-01-02 03:04:05";
    assert_eq!(
        render_line(&(ReconcileOperation::Add, sized("a.txt", 5)), time),
        "+ a.txt (2020-01-02 03:04:05 | 5 bytes)\n"
    );
    assert_eq!(
        render_line(&(ReconcileOperation::Unchanged, sized("b.txt", 6)), time),
        "= b.txt (2020-01-02 03:04:05 | 6 bytes)\n"
    );
    assert_eq!(
        render_line(&(ReconcileOperation::Conflict, sized("c.txt", 7)), time),
        "! c.txt (2020-01-02 03:04:05 | 7 bytes)\n"
    );
}

#[test]
fn the_header_names_the_time_and_the_roots() {
    assert_eq!(
        render_header("2020-01-02 03:04:05.678 +01:00", "/data/a", "/data/b"),
        "# Results for 2020-01-02 03:04:05.678 +01:00\n# Reconciled '/data/a' '/data/b'\n"
    );
}

#[test]
fn a_side_is_its_root_its_lines_and_an_empty_line() {
    let lines = patch_lines(&sample_patch(), true);
    let times = vec!["t1".to_string(), "t2".to_string(), "t3".to_string()];
    assert_eq!(
        render_patch("/data/a", &lines, &times),
        Some("/data/a\n+ b (t1 | 2 bytes)\n! c (t2 | 5 bytes)\n+ m (t3 | 1 bytes)\n\n".to_string())
    );
    assert_eq!(render_patch("/data/a", &Vec::new(), &Vec::new()), Some("/data/a\n\n".to_string()));
}

#[test]
fn a_side_without_a_time_for_each_line_is_not_written() {
    let lines = patch_lines(&sample_patch(), true);
    assert_eq!(render_patch("/data/a", &lines, &vec!["t1".to_string()]), None);
    assert_eq!(render_patch("/data/a", &Vec::new(), &vec!["t1".to_string()]), None);
}

#[test]
fn the_lines_of_a_reconciliation_are_the_same_on_every_run() {
    let mut a = ScanDirectoryResult::new();
    let mut b = ScanDirectoryResult::new();
    for (path, size) in [("k", 1), ("only-a", 2), ("d", 3)] {
        a.insert(sized(path, size));
    }
    for (path, size) in [("d", 4), ("k", 1), ("only-b", 2)] {
        b.insert(sized(path, size));
    }
    let (side_a, side_b) = reconcile(a, b);
    assert_eq!(
        shown(&patch_lines(&side_a, false)),
        pairs(&[('!', "d"), ('=', "k"), ('+', "only-a")])
    );
    assert_eq!(
        shown(&patch_lines(&side_b, false)),
        pairs(&[('!', "d"), ('=', "k"), ('+', "only-b")])
    );
}

#[test]
fn a_report_is_the_header_then_the_first_side_then_the_second() {
    let lines_a = vec![(ReconcileOperation::Add, sized("only-a", 1))];
    let lines_b = vec![
        (ReconcileOperation::Conflict, sized("c", 2)),
        (ReconcileOperation::Add, sized("only-b", 3)),
    ];
    let times_a = vec!["ta".to_string()];
    let times_b = vec!["tb1".to_string(), "tb2".to_string()];
    assert_eq!(
        render_report("now", "/a", &lines_a, &times_a, "/b", &lines_b, &times_b),
        Some(
            "# Results for now\n# Reconciled '/a' '/b'\n\
             /a\n+ only-a (ta | 1 bytes)\n\n\
             /b\n! c (tb1 | 2 bytes)\n+ only-b (tb2 | 3 bytes)\n\n"
                .to_string()
        )
    );
}

#[test]
fn a_report_without_a_time_for_each_line_is_not_written() {
    let lines = vec![(ReconcileOperation::Add, sized("x", 1))];
    let one = vec!["t".to_string()];
    let none: Vec<String> = Vec::new();
    assert_eq!(render_report("now", "/a", &lines, &none, "/b", &lines, &one), None);
    assert_eq!(render_report("now", "/a", &lines, &one, "/b", &lines, &none), None);
    assert!(render_report("now", "/a", &lines, &one, "/b", &lines, &one).is_some());
}
