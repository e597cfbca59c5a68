// Ingestion from the structured source and from text, and that they agree.

use stagent::diff::{parse_diff, RawDelta, RawHunk, RawLine, RawStatus};
use stagent::patch::{
    classify_line, parse_git_header_path, parse_hunk_header, parse_range, parse_unified_diff,
    parse_unified_diff_with_warnings, BodyLine, ParseErrorKind, Warning,
};
use stagent::types::{DeltaStatus, HunkStatus, LineKind};

fn raw_line(origin: char, content: &str, old: Option<u32>, new: Option<u32>) -> RawLine {
    RawLine {
        origin,
        content: content.as_bytes().to_vec(),
        old_lineno: old,
        new_lineno: new,
    }
}

fn raw_change() -> Vec<RawDelta> {
    vec![RawDelta {
        new_path: Some("src/lib.rs".to_string()),
        old_path: Some("src/lib.rs".to_string()),
        status: RawStatus::Modified,
        is_binary: false,
        hunks: Some(vec![
            RawHunk {
                header: b"@@ -1,3 +1,4 @@ fn first()\n".to_vec(),
                old_start: 1,
                old_lines: 3,
                new_start: 1,
                new_lines: 4,
                lines: vec![
                    raw_line(' ', "fn first() {\n", Some(1), Some(1)),
                    raw_line('-', "    old();\n", Some(2), None),
                    raw_line('+', "    new();\n", None, Some(2)),
                    raw_line('+', "    more();\n", None, Some(3)),
                    raw_line(' ', "}\n", Some(3), Some(4)),
                ],
            },
            RawHunk {
                header: b"@@ -20,2 +21,1 @@\n".to_vec(),
                old_start: 20,
                old_lines: 2,
                new_start: 21,
                new_lines: 1,
                lines: vec![
                    raw_line(' ', "\n", Some(20), Some(21)),
                    raw_line('-', "gone\n", Some(21), None),
                ],
            },
        ]),
    }]
}

const CHANGE_AS_TEXT: &str = "\
diff --git a/src/lib.rs b/src/lib.rs
index 1111111..2222222 100644
--- a/src/lib.rs
+++ b/src/lib.rs
@@ -1,3 +1,4 @@ fn first()
 fn first() {
-    old();
+    new();
+    more();
 }
@@ -20,2 +21,1 @@
 
-gone
";

#[test]
fn structured_ingestion_exact() {
    let files = parse_diff(&raw_change());
    assert_eq!(files.len(), 1);
    assert_eq!(files[0].path, "src/lib.rs");
    assert_eq!(files[0].status, DeltaStatus::Modified);
    assert!(!files[0].is_binary);
    let h = &files[0].hunks[0];
    assert_eq!(h.header, "@@ -1,3 +1,4 @@ fn first()");
    assert_eq!(h.status, HunkStatus::Pending);
    assert_eq!((h.old_start, h.old_lines, h.new_start, h.new_lines), (1, 3, 1, 4));
    assert_eq!(h.lines[1].kind, LineKind::Removed);
    assert_eq!(h.lines[1].content, "    old();\n");
    assert_eq!(h.lines[1].old_lineno, Some(2));
    assert_eq!(h.lines[1].new_lineno, None);
    assert_eq!(h.lines[3].kind, LineKind::Added);
    assert_eq!(h.lines[4].kind, LineKind::Context);
    assert_eq!(files[0].hunks[1].lines[0].content, "\n");
}

#[test]
fn text_ingestion_agrees_with_structured_ingestion() {
    let from_source = parse_diff(&raw_change());
    let from_text = parse_unified_diff(CHANGE_AS_TEXT).unwrap();
    assert_eq!(format!("{:?}", from_text), format!("{:?}", from_source));
    let noted = parse_unified_diff_with_warnings(CHANGE_AS_TEXT).unwrap();
    assert!(noted.warnings.is_empty());
}

#[test]
fn structured_ingestion_kinds_of_change() {
    let delta = |status, new_path: Option<&str>, old_path: Option<&str>| RawDelta {
        new_path: new_path.map(|p| p.to_string()),
        old_path: old_path.map(|p| p.to_string()),
        status,
        is_binary: false,
        hunks: None,
    };
    let files = parse_diff(&[
        delta(RawStatus::Added, Some("a"), None),
        delta(RawStatus::Deleted, None, Some("d")),
        delta(RawStatus::Renamed, Some("new"), Some("old")),
        delta(RawStatus::Untracked, Some("u"), None),
        delta(RawStatus::Typechange, Some("t"), None),
        delta(RawStatus::Copied, None, None),
        delta(RawStatus::Conflicted, Some("c"), None),
    ]);
    let got: Vec<(String, DeltaStatus)> = files.iter().map(|f| (f.path.clone(), f.status)).collect();
    assert_eq!(
        got,
        vec![
            ("a".to_string(), DeltaStatus::Added),
            ("d".to_string(), DeltaStatus::Deleted),
            ("new".to_string(), DeltaStatus::Renamed),
            ("u".to_string(), DeltaStatus::Untracked),
            ("t".to_string(), DeltaStatus::Modified),
            ("<unknown>".to_string(), DeltaStatus::Modified),
            ("c".to_string(), DeltaStatus::Modified),
        ]
    );
    assert!(files.iter().all(|f| f.hunks.is_empty()));
}

#[test]
fn structured_ingestion_binary_file_has_no_hunks() {
    let mut change = raw_change();
    change[0].is_binary = true;
    let files = parse_diff(&change);
    assert!(files[0].is_binary);
    assert!(files[0].hunks.is_empty());
}

#[test]
fn structured_ingestion_replaces_bytes_that_are_no_text() {
    let mut change = raw_change();
    let hunks = change[0].hunks.as_mut().unwrap();
    hunks[0].lines[0].content = vec![b'a', 0xff, b'b', b'\n'];
    hunks[0].lines[0].origin = '=';
    hunks[0].header = b"@@ -1,3 +1,4 @@ caf\xc3\xa9  \n".to_vec();
    let files = parse_diff(&change);
    assert_eq!(files[0].hunks[0].lines[0].content, "a\u{fffd}b\n");
    assert_eq!(files[0].hunks[0].lines[0].kind, LineKind::Context);
    assert_eq!(files[0].hunks[0].header, "@@ -1,3 +1,4 @@ caf\u{e9}");
}

#[test]
fn structured_ingestion_counts_are_those_of_the_lines() {
    let mut change = raw_change();
    change[0].hunks.as_mut().unwrap()[1].old_lines = 9;
    let files = parse_diff(&change);
    assert_eq!(files[0].hunks[1].old_lines, 2);
    assert_eq!(files[0].hunks[1].new_lines, 1);
}

#[test]
fn text_ingestion_notes_counts_that_differ() {
    let text = "diff --git a/x b/x\n@@ -1,5 +1,2 @@ ctx  \n-old\n+new\n";
    let got = parse_unified_diff_with_warnings(text).unwrap();
    let hunk = &got.files[0].hunks[0];
    assert_eq!((hunk.old_lines, hunk.new_lines), (1, 1));
    assert_eq!(got.warnings.len(), 1);
    match &got.warnings[0] {
        Warning::CountMismatch {
            header,
            declared_old,
            declared_new,
            parsed_old,
            parsed_new,
        } => {
            assert_eq!(header, "@@ -1,5 +1,2 @@ ctx");
            assert_eq!((*declared_old, *declared_new), (5, 2));
            assert_eq!((*parsed_old, *parsed_new), (1, 1));
        }
        other => panic!("unexpected warning {:?}", other),
    }
}

#[test]
fn text_ingestion_ends_a_hunk_at_an_unrecognized_line() {
    let text = "diff --git a/x b/x\n@@ -1,1 +1,1 @@\n-old\n+new\nwhat is this\n+lost\n@@ -9 +9 @@\n-a\n+b\n";
    let got = parse_unified_diff_with_warnings(text).unwrap();
    assert_eq!(got.files.len(), 1);
    assert_eq!(got.files[0].hunks.len(), 2);
    assert_eq!(got.files[0].hunks[0].lines.len(), 2);
    assert_eq!(got.files[0].hunks[1].old_start, 9);
    assert_eq!(got.warnings.len(), 1);
    match &got.warnings[0] {
        Warning::UnrecognizedLine { line_number } => assert_eq!(*line_number, 5),
        other => panic!("unexpected warning {:?}", other),
    }
}

#[test]
fn text_ingestion_errors_name_the_header() {
    let bad = |header: &str| {
        let text = format!("diff --git a/x b/x\n{}\n-old\n", header);
        parse_unified_diff(&text).unwrap_err()
    };
    let e = bad("@@ -1,2 +1,2");
    assert_eq!(e.kind, ParseErrorKind::MissingMarker);
    assert_eq!(e.header, "@@ -1,2 +1,2");
    let e = bad("@@ -1,2 @@");
    assert_eq!(e.kind, ParseErrorKind::RangeCount);
    assert_eq!(e.header, "@@ -1,2 @@");
    let e = bad("@@ -1,2 +3,4 5 @@");
    assert_eq!(e.kind, ParseErrorKind::RangeCount);
    let e = bad("@@ -1,x +1,2 @@ tail");
    assert_eq!(e.kind, ParseErrorKind::BadNumber);
    assert_eq!(e.header, "@@ -1,x +1,2 @@ tail");
    let e = bad("@@ -1 +4294967296 @@");
    assert_eq!(e.kind, ParseErrorKind::BadNumber);
    let e = bad("@@ -1 +-1 @@");
    assert_eq!(e.kind, ParseErrorKind::BadNumber);
}

#[test]
fn hunk_header_exact() {
    assert_eq!(
        parse_hunk_header("@@ -10,5 +12,7 @@ fn foo()  ").unwrap(),
        (10, 5, 12, 7, "@@ -10,5 +12,7 @@ fn foo()".to_string())
    );
    assert_eq!(
        parse_hunk_header("@@ -3 +4294967295,0 @@").unwrap(),
        (3, 1, 4294967295, 0, "@@ -3 +4294967295,0 @@".to_string())
    );
    assert_eq!(
        parse_hunk_header("@@   7,+8   +09   @@").unwrap(),
        (7, 8, 9, 1, "@@   7,+8   +09   @@".to_string())
    );
    assert_eq!(
        parse_hunk_header("-1 +1 @@").unwrap_err().kind,
        ParseErrorKind::MissingMarker
    );
    assert_eq!(parse_range("1,2,3").unwrap_err().kind, ParseErrorKind::BadNumber);
    assert_eq!(parse_range("+5,+6").unwrap(), (5, 6));
}

#[test]
fn git_header_path_exact() {
    assert_eq!(parse_git_header_path("a/src/x.rs b/src/x.rs"), "src/x.rs");
    assert_eq!(parse_git_header_path("a/my file b/my file"), "my file");
    assert_eq!(parse_git_header_path("a/one b/two b/three"), "two b/three");
    assert_eq!(parse_git_header_path("x a/last  "), "last");
    assert_eq!(parse_git_header_path("plain"), "plain");
    assert_eq!(parse_git_header_path("   "), "   ");
    assert_eq!(parse_git_header_path(""), "");
}

#[test]
fn body_lines_by_their_first_character() {
    let content = |l: BodyLine| match l {
        BodyLine::Content { kind, content } => (kind, content),
        other => panic!("no content: {:?}", other),
    };
    assert_eq!(content(classify_line("+a b")), (LineKind::Added, "a b\n".to_string()));
    assert_eq!(content(classify_line("-")), (LineKind::Removed, "\n".to_string()));
    assert_eq!(content(classify_line(" x")), (LineKind::Context, "x\n".to_string()));
    assert_eq!(content(classify_line("")), (LineKind::Context, "\n".to_string()));
    assert_eq!(content(classify_line("+++ b/x")), (LineKind::Added, "++ b/x\n".to_string()));
    assert!(matches!(classify_line("@@ -1 +1 @@"), BodyLine::Boundary));
    assert!(matches!(classify_line("diff --git a/x b/x"), BodyLine::Boundary));
    assert!(matches!(classify_line("\\ No newline at end of file"), BodyLine::Marker));
    assert!(matches!(classify_line("@@"), BodyLine::Unrecognized));
    assert!(matches!(classify_line("index 1..2"), BodyLine::Unrecognized));
}

#[test]
fn text_ingestion_paths_and_kinds() {
    let text = "\
diff --git a/old name b/new name
rename from old name
rename to new name
diff --git a/gone b/gone
deleted file mode 100644
--- a/gone
+++ /dev/null
diff --git a/pic b/pic
Binary files a/pic and b/pic differ
diff --git a/made b/made
new file mode 100644
--- /dev/null
+++ b/made
@@ -0,0 +1 @@
+x
";
    let files = parse_unified_diff(text).unwrap();
    let got: Vec<(String, DeltaStatus, bool, usize)> = files
        .iter()
        .map(|f| (f.path.clone(), f.status, f.is_binary, f.hunks.len()))
        .collect();
    assert_eq!(
        got,
        vec![
            ("new name".to_string(), DeltaStatus::Renamed, false, 0),
            ("gone".to_string(), DeltaStatus::Deleted, false, 0),
            ("pic".to_string(), DeltaStatus::Modified, true, 0),
            ("made".to_string(), DeltaStatus::Added, false, 1),
        ]
    );
}

#[test]
fn text_ingestion_reads_lines_that_end_with_carriage_returns() {
    let text = "diff --git a/x b/x\r\n@@ -1 +1 @@\r\n-old\r\n+new\r\n";
    let files = parse_unified_diff(text).unwrap();
    assert_eq!(files[0].path, "x");
    assert_eq!(files[0].hunks[0].lines[1].content, "new\n");
}

#[test]
fn line_numbers_after_the_largest_start_at_zero() {
    let text = "diff --git a/x b/x\n@@ -4294967295,2 +1,2 @@\n a\n b\n";
    let files = parse_unified_diff(text).unwrap();
    let lines = &files[0].hunks[0].lines;
    assert_eq!(lines[0].old_lineno, Some(4294967295));
    assert_eq!(lines[1].old_lineno, Some(0));
    assert_eq!(lines[1].new_lineno, Some(2));
}
