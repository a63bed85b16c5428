use claude_sessions::diff::{
    build_diff_summary, file_status_from_output, numstat_file_diff, parse_hunk_header,
    parse_line_range, parse_numstat, parse_unified_diff,
};

#[test]
fn hunk_header_with_counts() {
    assert_eq!(parse_hunk_header("@@ -1,5 +1,7 @@"), Some((1, 5, 1, 7)));
}

#[test]
fn hunk_header_without_counts_defaults_to_one() {
    assert_eq!(parse_hunk_header("@@ -3 +4 @@ fn main()"), Some((3, 1, 4, 1)));
}

#[test]
fn hunk_header_garbage_rejected() {
    assert_eq!(parse_hunk_header("@@ nonsense"), None);
    assert_eq!(parse_hunk_header("@@ -a,b +c,d @@"), None);
}

#[test]
fn line_range_forms() {
    assert_eq!(parse_line_range("10,3"), Some((10, 3)));
    assert_eq!(parse_line_range("7"), Some((7, 1)));
    assert_eq!(parse_line_range("4294967295"), Some((4294967295, 1)));
    assert_eq!(parse_line_range("4294967296"), None);
    assert_eq!(parse_line_range(""), None);
    assert_eq!(parse_line_range("1,"), None);
}

#[test]
fn unified_diff_parsed_into_hunks() {
    let diff = [
        "diff --git a/f b/f",
        "index 000..111 100644",
        "--- a/f",
        "+++ b/f",
        "@@ -1,3 +1,4 @@",
        " context one",
        "-removed line",
        "+added line",
        "+another added",
        " context two",
        "",
    ]
    .join("\n");
    let fd = parse_unified_diff(&diff, "f").expect("parsing always succeeds");
    assert_eq!(fd.path, "f");
    assert_eq!(fd.status, "modified");
    assert_eq!(fd.insertions, 2);
    assert_eq!(fd.deletions, 1);
    assert_eq!(fd.hunks.len(), 1);
    let hunk = &fd.hunks[0];
    assert_eq!((hunk.old_start, hunk.old_count, hunk.new_start, hunk.new_count), (1, 3, 1, 4));
    assert_eq!(hunk.header, "@@ -1,3 +1,4 @@");
    assert_eq!(hunk.lines.len(), 5);
    assert_eq!(hunk.lines[0].line_type, "context");
    assert_eq!(hunk.lines[0].content, "context one");
    assert_eq!(hunk.lines[0].old_line, Some(1));
    assert_eq!(hunk.lines[0].new_line, Some(1));
    assert_eq!(hunk.lines[1].line_type, "delete");
    assert_eq!(hunk.lines[1].content, "removed line");
    assert_eq!(hunk.lines[1].old_line, Some(2));
    assert_eq!(hunk.lines[1].new_line, None);
    assert_eq!(hunk.lines[2].line_type, "add");
    assert_eq!(hunk.lines[2].content, "added line");
    assert_eq!(hunk.lines[2].old_line, None);
    assert_eq!(hunk.lines[2].new_line, Some(2));
    assert_eq!(hunk.lines[3].line_type, "add");
    assert_eq!(hunk.lines[3].content, "another added");
    assert_eq!(hunk.lines[4].line_type, "context");
    assert_eq!(hunk.lines[4].old_line, Some(3));
    assert_eq!(hunk.lines[4].new_line, Some(4));
}

#[test]
fn unified_diff_new_file_status() {
    let diff = "new file mode 100644\n\
                @@ -0,0 +1,2 @@\n\
                +a\n\
                +b\n";
    let fd = parse_unified_diff(diff, "fresh.txt").expect("parsing always succeeds");
    assert_eq!(fd.status, "added");
    assert_eq!(fd.insertions, 2);
    assert_eq!(fd.deletions, 0);
}

#[test]
fn unified_diff_empty_input() {
    let fd = parse_unified_diff("", "f").expect("parsing always succeeds");
    assert_eq!(fd.status, "modified");
    assert!(fd.hunks.is_empty());
    assert_eq!((fd.insertions, fd.deletions), (0, 0));
}

#[test]
fn numstat_lines_parsed() {
    let text = "3\t1\tsrc/a.rs\n-\t-\tassets/logo.png\nshort line\n10\t0\tsrc/b.rs\n";
    let entries = parse_numstat(text);
    assert_eq!(entries.len(), 3);
    assert_eq!(entries[0], (3, 1, "src/a.rs".to_string()));
    // A binary file's dashes count as zero.
    assert_eq!(entries[1], (0, 0, "assets/logo.png".to_string()));
    assert_eq!(entries[2], (10, 0, "src/b.rs".to_string()));
}

#[test]
fn summary_totals_files() {
    let files = vec![
        numstat_file_diff("a".to_string(), 3, 1, "modified".to_string()),
        numstat_file_diff("b".to_string(), 10, 0, "added".to_string()),
    ];
    let summary = build_diff_summary(files);
    assert_eq!(summary.total_files, 2);
    assert_eq!(summary.total_insertions, 13);
    assert_eq!(summary.total_deletions, 1);
    assert_eq!(summary.files[0].path, "a");
    assert!(summary.files[0].hunks.is_empty());
}

#[test]
fn file_status_letters() {
    assert_eq!(file_status_from_output("A\tfoo.rs"), "added");
    assert_eq!(file_status_from_output("D\tfoo.rs"), "deleted");
    assert_eq!(file_status_from_output("R100\told\tnew"), "renamed");
    assert_eq!(file_status_from_output("C50\ta\tb"), "copied");
    assert_eq!(file_status_from_output("M\tfoo.rs"), "modified");
    assert_eq!(file_status_from_output(""), "modified");
}
