// The session beyond its navigation: commands, staging, splitting, and the
// helpers of the panels and of the start of the program.

use stagent::app::{command_for, App, Command, Effect, Event, Key};
use stagent::cli::{patch_size_allowed, plan_run, select_files, Cli, RunMode, StartError};
use stagent::staging::{
    index_content, intent_entry, plan_stage, staged_entry, BinaryReason, EntryFields,
};
use stagent::types::{
    AppMode, DeltaStatus, DiffLine, FeedbackKind, FileDiff, FocusPanel, Hunk, HunkStatus, LineKind,
};
use stagent::ui::diff_view::{gutter, hunk_status_indicator, panel_title, treatment_of, Treatment};
use stagent::ui::help_overlay::{centered_margin, overlay_size};
use stagent::ui::file_list::{delta_status_icon, file_status_icon};
use stagent::ui::status_bar::{compute_progress, status_line};
use stagent::ui::theme::{syntect_theme, variant_for, ThemeVariant};

fn line(kind: LineKind, content: &str) -> DiffLine {
    DiffLine {
        kind,
        content: content.to_string(),
        old_lineno: None,
        new_lineno: None,
    }
}

fn hunk(status: HunkStatus, old_lines: u32, new_lines: u32) -> Hunk {
    Hunk {
        header: "@@ -1,1 +1,1 @@".to_string(),
        lines: vec![
            line(LineKind::Removed, "a\n"),
            line(LineKind::Context, "b\n"),
            line(LineKind::Added, "c\n"),
        ],
        status,
        old_start: 1,
        old_lines,
        new_start: 1,
        new_lines,
    }
}

fn file(path: &str, hunks: Vec<Hunk>) -> FileDiff {
    FileDiff {
        path: path.to_string(),
        hunks,
        status: DeltaStatus::Modified,
        is_binary: false,
    }
}

fn session(no_stage: bool) -> App {
    App::new(
        vec![
            file(
                "a.rs",
                vec![
                    hunk(HunkStatus::Staged, 2, 5),
                    hunk(HunkStatus::Pending, 2, 2),
                ],
            ),
            file("b.txt", vec![hunk(HunkStatus::Pending, 2, 2)]),
        ],
        no_stage,
    )
}

#[test]
fn keys_while_browsing() {
    let at = |focus, key| command_for(AppMode::Browsing, focus, Event::Key(key));
    assert_eq!(at(FocusPanel::DiffView, Key::Char('q')), Command::Quit);
    assert_eq!(at(FocusPanel::DiffView, Key::Char('j')), Command::ScrollDown);
    assert_eq!(at(FocusPanel::DiffView, Key::Char('k')), Command::ScrollUp);
    assert_eq!(at(FocusPanel::DiffView, Key::Char('y')), Command::Stage);
    assert_eq!(at(FocusPanel::DiffView, Key::Char('n')), Command::Skip);
    assert_eq!(at(FocusPanel::DiffView, Key::Char('s')), Command::Split);
    assert_eq!(at(FocusPanel::DiffView, Key::Char('e')), Command::Edit);
    assert_eq!(at(FocusPanel::DiffView, Key::Char('c')), Command::Comment);
    assert_eq!(at(FocusPanel::DiffView, Key::Char('x')), Command::Nothing);
    assert_eq!(at(FocusPanel::DiffView, Key::Down), Command::NextHunk);
    assert_eq!(at(FocusPanel::FileList, Key::Down), Command::NextFile);
    assert_eq!(at(FocusPanel::DiffView, Key::Up), Command::PrevHunk);
    assert_eq!(at(FocusPanel::FileList, Key::Up), Command::PrevFile);
    assert_eq!(at(FocusPanel::FileList, Key::Tab), Command::ToggleFocus);
    assert_eq!(at(FocusPanel::FileList, Key::Other), Command::Nothing);
}

#[test]
fn keys_while_the_editor_is_open() {
    let at = |event| command_for(AppMode::WaitingForEditor, FocusPanel::DiffView, event);
    assert_eq!(at(Event::Key(Key::Char('q'))), Command::Quit);
    assert_eq!(at(Event::Key(Key::Char('y'))), Command::Nothing);
    assert_eq!(at(Event::Key(Key::Down)), Command::Nothing);
    assert_eq!(at(Event::WheelDown), Command::ScrollDown);
    assert_eq!(at(Event::WheelUp), Command::ScrollUp);
    assert_eq!(
        at(Event::LeftClick { column: 3, row: 4 }),
        Command::Click { column: 3, row: 4 }
    );
    assert_eq!(at(Event::Resize), Command::Redraw);
    assert_eq!(at(Event::Other), Command::Nothing);
}

#[test]
fn stage_command_asks_for_the_write() {
    let mut app = session(false);
    app.selected_hunk = 1;
    assert_eq!(
        app.apply(Command::Stage),
        Effect::Stage {
            file_idx: 0,
            hunk_idx: 1,
            offset: 3
        }
    );
    assert_eq!(app.files[0].hunks[1].status, HunkStatus::Pending);
    app.stage_current_hunk();
    assert_eq!(app.files[0].hunks[1].status, HunkStatus::Staged);
    assert_eq!(app.message.as_deref(), Some("Hunk staged"));
    assert_eq!((app.selected_file, app.selected_hunk), (1, 0));
}

#[test]
fn stage_command_marks_at_once_where_nothing_is_written() {
    let mut app = session(true);
    app.selected_hunk = 1;
    assert_eq!(app.apply(Command::Stage), Effect::Nothing);
    assert_eq!(app.files[0].hunks[1].status, HunkStatus::Staged);
    // the first hunk is staged already: nothing happens
    app.selected_file = 0;
    app.selected_hunk = 0;
    app.message = None;
    assert_eq!(app.apply(Command::Stage), Effect::Nothing);
    assert_eq!(app.message, None);
    assert_eq!((app.selected_file, app.selected_hunk), (0, 0));
}

#[test]
fn edit_and_comment_commands() {
    let mut app = session(false);
    assert_eq!(
        app.apply(Command::Edit),
        Effect::OpenEditor { is_comment: false }
    );
    assert_eq!(
        app.apply(Command::Comment),
        Effect::OpenEditor { is_comment: true }
    );
    app.editor_opened();
    assert_eq!(app.mode, AppMode::WaitingForEditor);
    let mut empty = App::new(vec![], false);
    assert_eq!(empty.apply(Command::Edit), Effect::Nothing);
    assert_eq!(empty.message.as_deref(), Some("No hunk selected"));
    assert_eq!(empty.apply(Command::Quit), Effect::Quit);
}

#[test]
fn editor_notes() {
    let mut app = session(false);
    app.note_editor_result(true, true);
    assert_eq!(app.message.as_deref(), Some("Comment captured"));
    app.note_editor_result(true, false);
    assert_eq!(app.message.as_deref(), Some("Edit captured"));
    app.note_editor_result(false, true);
    assert_eq!(app.message.as_deref(), Some("No changes detected"));
}

#[test]
fn scroll_goes_to_the_selected_hunk() {
    let mut app = session(false);
    app.select_next_hunk();
    // the header of the first hunk, its three lines, and the line after it
    assert_eq!(app.scroll_offset, 5);
    app.select_prev_hunk();
    assert_eq!(app.scroll_offset, 0);
    app.select_prev_hunk();
    assert_eq!((app.selected_file, app.selected_hunk), (0, 0));
    app.selected_file = 1;
    app.select_prev_hunk();
    assert_eq!((app.selected_file, app.selected_hunk), (0, 1));
    assert_eq!(app.scroll_offset, 5);
}

#[test]
fn split_puts_the_parts_in_place() {
    let mut app = session(false);
    app.selected_hunk = 1;
    app.split_current_hunk();
    assert_eq!(app.message.as_deref(), Some("Hunk split"));
    let headers: Vec<&str> = app.files[0].hunks.iter().map(|h| h.header.as_str()).collect();
    assert_eq!(
        headers,
        vec![
            "@@ -1,1 +1,1 @@",
            "@@ -1,2 +1,1 @@ split 1/2",
            "@@ -1,0 +1,1 @@ split 2/2"
        ]
    );
    app.selected_hunk = 2;
    app.split_current_hunk();
    assert_eq!(app.message.as_deref(), Some("Cannot split hunk further"));
    assert_eq!(app.files[0].hunks.len(), 3);
}

#[test]
fn edit_feedback_marks_the_hunk() {
    let mut app = session(false);
    app.selected_hunk = 1;
    app.editor_opened();
    let captured = app.flush_pending_editor_state("b\nC\n", false, "");
    assert!(captured);
    assert_eq!(app.mode, AppMode::Browsing);
    assert_eq!(app.files[0].hunks[1].status, HunkStatus::Edited);
    assert_eq!(app.feedback.len(), 1);
    assert_eq!(app.feedback[0].kind, FeedbackKind::Edit);
    assert_eq!(app.feedback[0].file_path, "a.rs");
    assert_eq!(app.feedback[0].content, "@@ -1,2 +1,2 @@\n b\n-c\n+C\n");
    let captured = app.flush_pending_editor_state("b\nc\n", false, "");
    assert!(!captured);
    assert_eq!(app.feedback.len(), 1);
}

#[test]
fn click_on_the_border_selects_the_first_file() {
    let mut app = session(false);
    app.file_list_area = stagent::app::Area::new(2, 3, 10, 6);
    app.selected_file = 1;
    app.handle_mouse_click(2, 3);
    assert_eq!(app.selected_file, 0);
    app.handle_mouse_click(11, 5);
    assert_eq!(app.selected_file, 1);
    assert_eq!(app.focus, FocusPanel::FileList);
    app.dirty = false;
    app.handle_mouse_click(12, 5);
    app.handle_mouse_click(5, 9);
    app.handle_mouse_click(5, 6);
    assert!(!app.dirty);
}

#[test]
fn signs_of_the_panels() {
    assert_eq!(hunk_status_indicator(&hunk(HunkStatus::Pending, 1, 1)), "○");
    assert_eq!(hunk_status_indicator(&hunk(HunkStatus::Staged, 1, 1)), "✓");
    assert_eq!(hunk_status_indicator(&hunk(HunkStatus::Skipped, 1, 1)), "✗");
    assert_eq!(hunk_status_indicator(&hunk(HunkStatus::Edited, 1, 1)), "✎");
    assert_eq!(hunk_status_indicator(&hunk(HunkStatus::Commented, 1, 1)), "💬");
    assert_eq!(delta_status_icon(DeltaStatus::Modified), "M");
    assert_eq!(delta_status_icon(DeltaStatus::Added), "A");
    assert_eq!(delta_status_icon(DeltaStatus::Deleted), "D");
    assert_eq!(delta_status_icon(DeltaStatus::Renamed), "R");
    assert_eq!(delta_status_icon(DeltaStatus::Untracked), "?");
    let of = |statuses: Vec<HunkStatus>| {
        file_status_icon(&file(
            "x",
            statuses.into_iter().map(|s| hunk(s, 1, 1)).collect(),
        ))
    };
    assert_eq!(of(vec![]), " ");
    assert_eq!(of(vec![HunkStatus::Staged, HunkStatus::Staged]), "✓");
    assert_eq!(of(vec![HunkStatus::Staged, HunkStatus::Skipped]), "●");
    assert_eq!(of(vec![HunkStatus::Edited, HunkStatus::Commented]), "●");
    assert_eq!(of(vec![HunkStatus::Pending, HunkStatus::Staged]), "◐");
    assert_eq!(of(vec![HunkStatus::Pending, HunkStatus::Skipped]), "○");
}

#[test]
fn progress_counts_hunks_that_are_not_pending() {
    let app = session(false);
    assert_eq!(compute_progress(&app.files), (1, 3));
    assert_eq!(compute_progress(&[]), (0, 0));
}

#[test]
fn themes_by_name() {
    assert_eq!(variant_for("light", Some("0;0")), ThemeVariant::Light);
    assert_eq!(variant_for("dark", Some("0;15")), ThemeVariant::Dark);
    assert_eq!(variant_for("default", None), ThemeVariant::Dark);
    assert_eq!(variant_for("default", Some("15;0")), ThemeVariant::Dark);
    assert_eq!(variant_for("default", Some("0;7")), ThemeVariant::Dark);
    assert_eq!(variant_for("default", Some("0;8")), ThemeVariant::Light);
    assert_eq!(variant_for("auto", Some("0;default;15")), ThemeVariant::Light);
    assert_eq!(variant_for("auto", Some("255")), ThemeVariant::Light);
    assert_eq!(variant_for("auto", Some("0;256")), ThemeVariant::Dark);
    assert_eq!(variant_for("auto", Some("0;")), ThemeVariant::Dark);
    assert_eq!(variant_for("auto", Some("0;x")), ThemeVariant::Dark);
    assert_eq!(syntect_theme(ThemeVariant::Dark), "base16-ocean.dark");
    assert_eq!(syntect_theme(ThemeVariant::Light), "InspiredGitHub");
}

fn options(spawn: bool, patch: bool) -> Cli {
    Cli {
        output: Some("out.diff".to_string()),
        no_stage: true,
        files: None,
        theme: "dark".to_string(),
        context_lines: 7,
        spawn,
        patch,
    }
}

#[test]
fn what_the_program_is_to_do() {
    assert_eq!(plan_run(&options(false, false), false).unwrap_err(), StartError::NoTmux);
    assert_eq!(plan_run(&options(true, true), false).unwrap_err(), StartError::NoTmux);
    assert_eq!(
        plan_run(&options(true, true), true).unwrap_err(),
        StartError::PatchWithSpawn
    );
    assert!(matches!(plan_run(&options(false, true), true), Ok(RunMode::Patch)));
    assert!(matches!(plan_run(&options(false, false), true), Ok(RunMode::Git)));
    match plan_run(&options(true, false), true) {
        Ok(RunMode::Spawn(opts)) => {
            assert_eq!(opts.output.as_deref(), Some("out.diff"));
            assert_eq!(opts.files, None);
            assert_eq!(opts.theme, "dark");
            assert_eq!(opts.context_lines, 7);
            assert!(opts.no_stage);
        }
        other => panic!("unexpected plan {:?}", other),
    }
    assert!(patch_size_allowed(100 * 1024 * 1024));
    assert!(!patch_size_allowed(100 * 1024 * 1024 + 1));
}

#[test]
fn files_are_selected_by_pattern_and_kind() {
    let files = || {
        let mut pic = file("pic.rs", vec![]);
        pic.is_binary = true;
        vec![
            file("src/a.rs", vec![]),
            file("notes.txt", vec![]),
            pic,
            file("b.rs", vec![]),
        ]
    };
    let paths = |kept: Vec<FileDiff>| kept.into_iter().map(|f| f.path).collect::<Vec<_>>();
    assert_eq!(paths(select_files(files(), Some("*.rs"))), vec!["src/a.rs", "b.rs"]);
    assert_eq!(paths(select_files(files(), Some("*.txt"))), vec!["notes.txt"]);
    assert_eq!(
        paths(select_files(files(), None)),
        vec!["src/a.rs", "notes.txt", "b.rs"]
    );
    // what is no pattern lets every path through
    assert_eq!(
        paths(select_files(files(), Some("[a"))),
        vec!["src/a.rs", "notes.txt", "b.rs"]
    );
    assert!(select_files(vec![], Some("*")).is_empty());
}

#[test]
fn stored_content_as_text() {
    assert_eq!(index_content(None, "p").unwrap(), "");
    assert_eq!(
        index_content(Some(&"caf\u{e9}\n".as_bytes().to_vec()), "p").unwrap(),
        "caf\u{e9}\n"
    );
    let e = index_content(Some(&vec![b'a', 0, 0xff]), "src/x").unwrap_err();
    assert_eq!(e.reason, BinaryReason::NulByte);
    assert_eq!(e.path, "src/x");
    let e = index_content(Some(&vec![b'a', 0xff]), "src/y").unwrap_err();
    assert_eq!(e.reason, BinaryReason::InvalidUtf8);
    assert_eq!(e.path, "src/y");
}

#[test]
fn index_entries() {
    let kept = EntryFields {
        mode: 0o100755,
        file_size: 3,
        flags: 0x0007,
        flags_extended: 0x6000,
    };
    assert_eq!(
        staged_entry(Some(kept), 10),
        EntryFields {
            mode: 0o100755,
            file_size: 10,
            flags: 0x0007,
            flags_extended: 0x4000
        }
    );
    assert_eq!(
        staged_entry(None, 0),
        EntryFields {
            mode: 0o100644,
            file_size: 0,
            flags: 0,
            flags_extended: 0
        }
    );
    assert_eq!(
        intent_entry(true),
        EntryFields {
            mode: 0o100755,
            file_size: 0,
            flags: 0,
            flags_extended: 0x2000
        }
    );
    assert_eq!(intent_entry(false).mode, 0o100644);
}

#[test]
fn plan_of_a_stage() {
    let h = Hunk {
        header: "@@ -2 +2 @@".to_string(),
        lines: vec![line(LineKind::Removed, "b\n"), line(LineKind::Added, "\u{e9}\n")],
        status: HunkStatus::Pending,
        old_start: 2,
        old_lines: 1,
        new_start: 2,
        new_lines: 1,
    };
    let marked = intent_entry(false);
    let plan = plan_stage(Some(&b"a\nb\nc\n".to_vec()), "f", &h, 0, Some(marked)).unwrap();
    assert_eq!(plan.content, "a\n\u{e9}\nc\n");
    assert_eq!(plan.entry.file_size, 7);
    assert_eq!(plan.entry.flags_extended, 0);
    let plan = plan_stage(None, "f", &h, 0, None).unwrap();
    assert_eq!(plan.content, "\u{e9}\n");
    assert_eq!(plan.entry.mode, 0o100644);
    let e = plan_stage(Some(&b"a\0".to_vec()), "f", &h, 0, None).unwrap_err();
    assert_eq!((e.path.as_str(), e.reason), ("f", BinaryReason::NulByte));
    let e = plan_stage(Some(&vec![0xc3]), "g", &h, 0, None).unwrap_err();
    assert_eq!((e.path.as_str(), e.reason), ("g", BinaryReason::InvalidUtf8));
}

#[test]
fn texts_of_the_panels() {
    assert_eq!(gutter(None), "    ");
    assert_eq!(gutter(Some(0)), "   0");
    assert_eq!(gutter(Some(42)), "  42");
    assert_eq!(gutter(Some(9999)), "9999");
    assert_eq!(gutter(Some(123456)), "123456");
    assert_eq!(panel_title(Some("src/a.rs")), " src/a.rs ");
    assert_eq!(panel_title(None), " No file selected ");
    assert_eq!(treatment_of(LineKind::Removed), Treatment::Dimmed);
    assert_eq!(
        treatment_of(LineKind::Added),
        Treatment::Highlighted { added: true }
    );
    assert_eq!(
        treatment_of(LineKind::Context),
        Treatment::Highlighted { added: false }
    );
    assert_eq!(
        status_line(AppMode::Browsing, None, (1, 3), false),
        " y:stage  n:skip  s:split  e:edit  c:comment  q:quit  ?:help  [1/3] "
    );
    assert_eq!(
        status_line(AppMode::Browsing, None, (0, 12), true),
        " y:accept  n:skip  s:split  e:edit  c:comment  q:quit  ?:help  [0/12] "
    );
    assert_eq!(
        status_line(AppMode::Browsing, Some("Hunk staged"), (0, 12), true),
        " Hunk staged "
    );
    assert_eq!(
        status_line(AppMode::WaitingForEditor, Some("x"), (0, 0), false),
        " Editing in split pane... (waiting for editor to close)"
    );
    assert_eq!(
        status_line(AppMode::Help, None, (0, 0), false),
        " Press any key to dismiss help "
    );
    assert_eq!(overlay_size(200, 50), (60, 22));
    assert_eq!(overlay_size(64, 24), (60, 22));
    assert_eq!(overlay_size(63, 23), (59, 21));
    assert_eq!(overlay_size(3, 1), (0, 0));
    assert_eq!(centered_margin(10, 4), 3);
    assert_eq!(centered_margin(10, 5), 2);
    assert_eq!(centered_margin(4, 10), 0);
}
