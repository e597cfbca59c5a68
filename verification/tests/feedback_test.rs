use stagent::feedback::{format_feedback, DEFAULT_CONTEXT_LINES};
use stagent::types::{DiffLine, FeedbackKind, HunkFeedback, LineKind};


#[test]
fn test_empty_feedback() {
    let result = format_feedback(&[], DEFAULT_CONTEXT_LINES);
    assert_eq!(result, "");
}

#[test]
fn test_single_edit_feedback() {
    let feedback = vec![HunkFeedback {
        file_path: "src/main.rs".to_string(),
        hunk_header: "@@ -1,3 +1,4 @@".to_string(),
        kind: FeedbackKind::Edit,
        context_lines: vec![],
        comment_positions: vec![],
        content: "-old line\n+new line\n".to_string(),
    }];
    let result = format_feedback(&feedback, DEFAULT_CONTEXT_LINES);
    assert!(result.contains("--- a/src/main.rs"));
    assert!(result.contains("+++ b/src/main.rs"));
    assert!(result.contains("@@ -1,3 +1,4 @@"));
    assert!(result.contains("-old line"));
    assert!(result.contains("+new line"));
}

#[test]
fn test_multiple_edits_same_file() {
    let feedback = vec![
        HunkFeedback {
            file_path: "src/main.rs".to_string(),
            hunk_header: "@@ -1,3 +1,4 @@".to_string(),
            kind: FeedbackKind::Edit,
            context_lines: vec![],
            comment_positions: vec![],
            content: "-old\n+new\n".to_string(),
        },
        HunkFeedback {
            file_path: "src/main.rs".to_string(),
            hunk_header: "@@ -10,3 +11,4 @@".to_string(),
            kind: FeedbackKind::Edit,
            context_lines: vec![],
            comment_positions: vec![],
            content: "-another old\n+another new\n".to_string(),
        },
    ];
    let result = format_feedback(&feedback, DEFAULT_CONTEXT_LINES);
    // Should have only one file header pair
    assert_eq!(result.matches("--- a/src/main.rs").count(), 1);
    assert_eq!(result.matches("+++ b/src/main.rs").count(), 1);
    // But two hunk headers
    assert!(result.contains("@@ -1,3 +1,4 @@"));
    assert!(result.contains("@@ -10,3 +11,4 @@"));
}

#[test]
fn test_edits_across_files() {
    let feedback = vec![
        HunkFeedback {
            file_path: "src/a.rs".to_string(),
            hunk_header: "@@ -1,3 +1,4 @@".to_string(),
            kind: FeedbackKind::Edit,
            context_lines: vec![],
            comment_positions: vec![],
            content: "-old\n+new\n".to_string(),
        },
        HunkFeedback {
            file_path: "src/b.rs".to_string(),
            hunk_header: "@@ -5,3 +5,4 @@".to_string(),
            kind: FeedbackKind::Edit,
            context_lines: vec![],
            comment_positions: vec![],
            content: "-foo\n+bar\n".to_string(),
        },
    ];
    let result = format_feedback(&feedback, DEFAULT_CONTEXT_LINES);
    assert!(result.contains("--- a/src/a.rs"));
    assert!(result.contains("--- a/src/b.rs"));
}

#[test]
fn test_comment_feedback_format() {
    
    let feedback = vec![HunkFeedback {
        file_path: "src/main.rs".to_string(),
        hunk_header: "@@ -1,3 +1,3 @@".to_string(),
        kind: FeedbackKind::Comment,
        content: "This function needs better error handling".to_string(),
        context_lines: vec![
            DiffLine {
                kind: LineKind::Context,
                content: "fn main() {\n".into(),
                old_lineno: Some(1),
                new_lineno: Some(1),
            },
            DiffLine {
                kind: LineKind::Removed,
                content: "    old_code();\n".into(),
                old_lineno: Some(2),
                new_lineno: None,
            },
            DiffLine {
                kind: LineKind::Added,
                content: "    new_code();\n".into(),
                old_lineno: None,
                new_lineno: Some(2),
            },
            DiffLine {
                kind: LineKind::Context,
                content: "}\n".into(),
                old_lineno: Some(3),
                new_lineno: Some(3),
            },
        ],
        // Comment placed after the added line (index 3 = after context_lines[2])
        comment_positions: vec![(3, "This function needs better error handling".to_string())],
    }];
    let result = format_feedback(&feedback, DEFAULT_CONTEXT_LINES);
    assert!(result.contains("# REVIEW COMMENT: This function needs better error handling"));
    // Should contain context lines from the hunk
    assert!(
        result.contains(" fn main() {"),
        "should have context before: {}",
        result
    );
    assert!(
        result.contains("-    old_code();"),
        "should have removed line: {}",
        result
    );
    assert!(
        result.contains("+    new_code();"),
        "should have added line: {}",
        result
    );
    assert!(
        result.contains(" }"),
        "should have context after: {}",
        result
    );
    // Comment should be placed between changes and trailing context
    let comment_pos = result.find("# REVIEW COMMENT:").unwrap();
    let added_pos = result.find("+    new_code();").unwrap();
    let closing_brace_pos = result.rfind(" }").unwrap();
    assert!(comment_pos > added_pos, "comment should come after changes");
    assert!(
        comment_pos < closing_brace_pos,
        "comment should come before trailing context"
    );
}

#[test]
fn test_mixed_edits_and_comments() {
        let feedback = vec![
        HunkFeedback {
            file_path: "src/main.rs".to_string(),
            hunk_header: "@@ -1,3 +1,4 @@".to_string(),
            kind: FeedbackKind::Edit,
            context_lines: vec![],
            comment_positions: vec![],
            content: "-old\n+new\n".to_string(),
        },
        HunkFeedback {
            file_path: "src/main.rs".to_string(),
            hunk_header: "@@ -10,3 +11,3 @@".to_string(),
            kind: FeedbackKind::Comment,
            context_lines: vec![
                DiffLine {
                    kind: LineKind::Removed,
                    content: "old\n".into(),
                    old_lineno: Some(10),
                    new_lineno: None,
                },
                DiffLine {
                    kind: LineKind::Added,
                    content: "new\n".into(),
                    old_lineno: None,
                    new_lineno: Some(10),
                },
            ],
            comment_positions: vec![(2, "Consider refactoring this".to_string())],
            content: "Consider refactoring this".to_string(),
        },
    ];
    let result = format_feedback(&feedback, DEFAULT_CONTEXT_LINES);
    assert!(result.contains("-old"));
    assert!(result.contains("+new"));
    assert!(result.contains("# REVIEW COMMENT: Consider refactoring this"));
}

#[test]
fn test_multiple_comments_at_different_positions() {
    
    // Hunk with two separate changes and context between them
    let feedback = vec![HunkFeedback {
        file_path: "src/main.rs".to_string(),
        hunk_header: "@@ -1,7 +1,7 @@".to_string(),
        kind: FeedbackKind::Comment,
        content: "First comment\nSecond comment".to_string(),
        context_lines: vec![
            DiffLine {
                kind: LineKind::Context,
                content: "line1\n".into(),
                old_lineno: Some(1),
                new_lineno: Some(1),
            },
            DiffLine {
                kind: LineKind::Removed,
                content: "old_a\n".into(),
                old_lineno: Some(2),
                new_lineno: None,
            },
            DiffLine {
                kind: LineKind::Added,
                content: "new_a\n".into(),
                old_lineno: None,
                new_lineno: Some(2),
            },
            DiffLine {
                kind: LineKind::Context,
                content: "line3\n".into(),
                old_lineno: Some(3),
                new_lineno: Some(3),
            },
            DiffLine {
                kind: LineKind::Context,
                content: "line4\n".into(),
                old_lineno: Some(4),
                new_lineno: Some(4),
            },
            DiffLine {
                kind: LineKind::Context,
                content: "line5\n".into(),
                old_lineno: Some(5),
                new_lineno: Some(5),
            },
            DiffLine {
                kind: LineKind::Removed,
                content: "old_b\n".into(),
                old_lineno: Some(6),
                new_lineno: None,
            },
            DiffLine {
                kind: LineKind::Added,
                content: "new_b\n".into(),
                old_lineno: None,
                new_lineno: Some(6),
            },
            DiffLine {
                kind: LineKind::Context,
                content: "line7\n".into(),
                old_lineno: Some(7),
                new_lineno: Some(7),
            },
        ],
        // Comment after first change (pos 3) and after second change (pos 8)
        comment_positions: vec![
            (3, "First comment".to_string()),
            (8, "Second comment".to_string()),
        ],
    }];

    let result = format_feedback(&feedback, 2);

    // Both comments should appear
    assert!(
        result.contains("# REVIEW COMMENT: First comment"),
        "result: {}",
        result
    );
    assert!(
        result.contains("# REVIEW COMMENT: Second comment"),
        "result: {}",
        result
    );

    // First comment should appear after new_a and before line3
    let first_comment_pos = result.find("# REVIEW COMMENT: First comment").unwrap();
    let new_a_pos = result.find("+new_a").unwrap();
    assert!(first_comment_pos > new_a_pos, "first comment after +new_a");

    // Second comment should appear after new_b
    let second_comment_pos = result.find("# REVIEW COMMENT: Second comment").unwrap();
    let new_b_pos = result.find("+new_b").unwrap();
    assert!(
        second_comment_pos > new_b_pos,
        "second comment after +new_b"
    );

    // With context_count=2, there should be a gap indicator between the
    // two comment regions since they're far apart
}

#[test]
fn test_feedback_is_valid_patch() {
    let feedback = vec![HunkFeedback {
        file_path: "src/main.rs".to_string(),
        hunk_header: "@@ -1,3 +1,4 @@".to_string(),
        kind: FeedbackKind::Edit,
        context_lines: vec![],
        comment_positions: vec![],
        content: " context\n-old line\n+new line\n context2\n".to_string(),
    }];
    let result = format_feedback(&feedback, DEFAULT_CONTEXT_LINES);
    // Should start with file headers and contain valid unified diff structure
    assert!(result.starts_with("--- a/"));
    assert!(result.contains("+++ b/"));
    assert!(result.contains("@@"));
}
