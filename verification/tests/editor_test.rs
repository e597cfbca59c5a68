use stagent::editor::{
    build_pane_exists_check_command, build_tmux_split_command, choose_editor, comment_template,
    extract_new_side_content, lines_match, pane_listed, parse_comment_result, parse_edit_result,
};
use stagent::types::{DiffLine, FeedbackKind, Hunk, HunkStatus, LineKind};

fn make_hunk(header: &str, lines: Vec<(LineKind, &str)>) -> Hunk {
    Hunk {
        header: header.to_string(),
        lines: lines
            .into_iter()
            .map(|(kind, content)| DiffLine {
                kind,
                content: content.to_string(),
                old_lineno: None,
                new_lineno: None,
            })
            .collect(),
        status: HunkStatus::Pending,
        old_start: 1,
        old_lines: 3,
        new_start: 1,
        new_lines: 4,
    }
}

// ---------------------------------------------------------------------------
// build_pane_exists_check_command
// ---------------------------------------------------------------------------

#[test]
fn test_pane_exists_check_command() {
    let cmd = build_pane_exists_check_command();
    assert_eq!(cmd[0], "tmux");
    assert_eq!(cmd[1], "list-panes");
    assert!(cmd.contains(&"-a".to_string()));
    assert!(cmd.contains(&"#{pane_id}".to_string()));
}

// ---------------------------------------------------------------------------
// parse_edit_result
// ---------------------------------------------------------------------------

#[test]
fn test_parse_edited_result() {
    let original = "fn main() {\n    old_code();\n}\n";
    let edited = "fn main() {\n    new_code();\n}\n";

    let result = parse_edit_result(original, edited, "src/main.rs", "@@ -1,3 +1,3 @@", &[]);

    assert!(result.is_some(), "should produce feedback for a diff");
    let feedback = result.unwrap();
    assert_eq!(feedback.file_path, "src/main.rs");
    assert_eq!(feedback.hunk_header, "@@ -1,3 +1,3 @@");
    assert_eq!(feedback.kind, FeedbackKind::Edit);
    // The content should be a unified diff
    assert!(
        feedback.content.contains("-    old_code();"),
        "diff should show removed line"
    );
    assert!(
        feedback.content.contains("+    new_code();"),
        "diff should show added line"
    );
}

#[test]
fn test_parse_no_changes() {
    let content = "fn main() {\n    code();\n}\n";

    let result = parse_edit_result(content, content, "src/main.rs", "@@ -1,3 +1,3 @@", &[]);

    assert!(
        result.is_none(),
        "should return None when content is unchanged"
    );
}

// ---------------------------------------------------------------------------
// parse_comment_result
// ---------------------------------------------------------------------------

#[test]
fn test_parse_comments() {
    let original = "\
# Add your comments anywhere in this file.
# Any new lines you add will be captured as comments.
# @@ -10,3 +10,4 @@ fn review()

 fn review() {
-    bad_code();
+    good_code();
 }
";

    let edited = "\
# Add your comments anywhere in this file.
# Any new lines you add will be captured as comments.
# @@ -10,3 +10,4 @@ fn review()

 fn review() {
# COMMENT: This function needs better error handling
-    bad_code();
# COMMENT: Good replacement, but consider using a Result
+    good_code();
 }
";

    let result = parse_comment_result(original, edited, "src/review.rs", "@@ -10,3 +10,4 @@", &[]);

    assert!(result.is_some(), "should extract comments");
    let feedback = result.unwrap();
    assert_eq!(feedback.file_path, "src/review.rs");
    assert_eq!(feedback.hunk_header, "@@ -10,3 +10,4 @@");
    assert_eq!(feedback.kind, FeedbackKind::Comment);
    assert!(
        feedback
            .content
            .contains("This function needs better error handling"),
        "should contain first comment"
    );
    assert!(
        feedback
            .content
            .contains("Good replacement, but consider using a Result"),
        "should contain second comment"
    );
}

#[test]
fn test_parse_comments_no_comments() {
    let content = "\
# Add your comments anywhere in this file.
# Any new lines you add will be captured as comments.
# @@ -1,3 +1,3 @@

 fn main() {
     code();
 }
";

    // Same content as original — no changes means no comments
    let result = parse_comment_result(content, content, "src/main.rs", "@@ -1,3 +1,3 @@", &[]);

    assert!(
        result.is_none(),
        "should return None when no changes are made"
    );
}

#[test]
fn test_parse_comments_whitespace_handling() {
    let original = "some original content\n";
    let edited =
        "some original content\n# COMMENT:   spaces around   \n# COMMENT:no leading space\n";

    let result = parse_comment_result(original, edited, "test.rs", "@@", &[]);

    assert!(result.is_some());
    let feedback = result.unwrap();
    // trim() is applied to each comment line
    assert!(feedback.content.contains("spaces around"));
    assert!(feedback.content.contains("no leading space"));
}

// ---------------------------------------------------------------------------
// the command that opens the editor
// ---------------------------------------------------------------------------

#[test]
fn test_split_command_passes_editor_and_path_apart() {
    let cmd = build_tmux_split_command("vim", "/tmp/my file.rs");
    assert_eq!(
        cmd,
        vec![
            "tmux",
            "split-window",
            "-h",
            "-p",
            "50",
            "-P",
            "-F",
            "#{pane_id}",
            "--",
            "vim",
            "/tmp/my file.rs"
        ]
    );
}

#[test]
fn test_pane_list_command_exact() {
    assert_eq!(
        build_pane_exists_check_command(),
        vec!["tmux", "list-panes", "-a", "-F", "#{pane_id}"]
    );
}

#[test]
fn test_choose_editor_precedence() {
    assert_eq!(
        choose_editor(Some("code".to_string()), Some("nano".to_string())),
        "code"
    );
    assert_eq!(choose_editor(None, Some("nano".to_string())), "nano");
    assert_eq!(choose_editor(None, None), "vi");
}

#[test]
fn test_pane_listed() {
    assert!(pane_listed("%1\n  %7  \n%12\n", "%7"));
    assert!(!pane_listed("%1\n%12\n", "%2"));
    assert!(!pane_listed("", "%2"));
    assert!(pane_listed("%3", "%3"));
}

// ---------------------------------------------------------------------------
// the templates
// ---------------------------------------------------------------------------

#[test]
fn test_edit_template_holds_new_side() {
    let hunk = make_hunk(
        "@@ -1,3 +1,4 @@ fn main()",
        vec![
            (LineKind::Context, "fn main() {\n"),
            (LineKind::Removed, "    old_code();\n"),
            (LineKind::Added, "    new_code();\n"),
            (LineKind::Added, "    extra_code();\n"),
            (LineKind::Context, "}\n"),
        ],
    );
    let content = extract_new_side_content(&hunk.lines);
    assert_eq!(
        content,
        "fn main() {\n    new_code();\n    extra_code();\n}\n"
    );
}

#[test]
fn test_edit_template_trailing_newlines() {
    let hunk = make_hunk(
        "@@ -1,1 +1,1 @@",
        vec![(LineKind::Added, "no_newline_here")],
    );
    assert_eq!(extract_new_side_content(&hunk.lines), "no_newline_here\n");
    assert_eq!(extract_new_side_content(&[]), "");
}

#[test]
fn test_comment_template_exact() {
    let hunk = make_hunk(
        "@@ -10,3 +10,4 @@ fn review()",
        vec![
            (LineKind::Context, "fn review() {\n"),
            (LineKind::Removed, "    bad_code();\n"),
            (LineKind::Added, "    good_code();"),
            (LineKind::Context, "}\n"),
        ],
    );
    assert_eq!(
        comment_template(&hunk),
        "# Add your comments anywhere in this file.\n\
         # Any new lines you add will be captured as comments.\n\
         # @@ -10,3 +10,4 @@ fn review()\n\
         \n \
         fn review() {\n\
         -    bad_code();\n\
         +    good_code();\n \
         }\n"
    );
}

#[test]
fn test_lines_match() {
    assert!(lines_match("abc", "abc"));
    assert!(lines_match("abc", "abc  \t"));
    assert!(lines_match("", " "));
    assert!(!lines_match(" abc", "abc"));
    assert!(!lines_match("abc", "abd"));
}
