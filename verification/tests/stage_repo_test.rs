// Staging hunks into real repositories: the library plans, the repository
// is written.

use git2::{DiffOptions, Repository, Signature};
use std::io::Write;
use std::path::Path;
use tempfile::TempDir;

use stagent::diff::{parse_diff, RawDelta, RawHunk, RawLine, RawStatus};
use stagent::staging::{intent_entry, plan_stage, EntryFields};
use stagent::types::{FileDiff, Hunk, LineKind};

fn create_temp_repo() -> (TempDir, Repository) {
    let dir = TempDir::new().expect("Failed to create temp dir");
    let repo = Repository::init(dir.path()).expect("Failed to init repo");

    {
        let mut index = repo.index().unwrap();
        let tree_oid = index.write_tree().unwrap();
        let tree = repo.find_tree(tree_oid).unwrap();
        let sig = Signature::now("Test", "test@test.com").unwrap();
        repo.commit(Some("HEAD"), &sig, &sig, "Initial commit", &tree, &[])
            .unwrap();
    }

    (dir, repo)
}

fn write_file(repo: &Repository, path: &str, content: &[u8]) {
    let workdir = repo.workdir().expect("Not a bare repo");
    let mut file = tempfile::NamedTempFile::new_in(workdir).unwrap();
    file.write_all(content).unwrap();
    file.flush().unwrap();
    file.persist(workdir.join(path)).unwrap();
}

fn commit_file(repo: &Repository, path: &str, content: &str) {
    write_file(repo, path, content.as_bytes());

    let mut index = repo.index().unwrap();
    index.add_path(Path::new(path)).unwrap();
    index.write().unwrap();

    let tree_oid = index.write_tree().unwrap();
    let tree = repo.find_tree(tree_oid).unwrap();
    let sig = Signature::now("Test", "test@test.com").unwrap();

    let head = repo.head().unwrap();
    let parent_commit = head.peel_to_commit().unwrap();

    repo.commit(
        Some("HEAD"),
        &sig,
        &sig,
        &format!("Add {}", path),
        &tree,
        &[&parent_commit],
    )
    .unwrap();
}

fn modify_file(repo: &Repository, path: &str, content: &str) {
    write_file(repo, path, content.as_bytes());
}

fn raw_status(status: git2::Delta) -> RawStatus {
    match status {
        git2::Delta::Unmodified => RawStatus::Unmodified,
        git2::Delta::Added => RawStatus::Added,
        git2::Delta::Deleted => RawStatus::Deleted,
        git2::Delta::Modified => RawStatus::Modified,
        git2::Delta::Renamed => RawStatus::Renamed,
        git2::Delta::Copied => RawStatus::Copied,
        git2::Delta::Ignored => RawStatus::Ignored,
        git2::Delta::Untracked => RawStatus::Untracked,
        git2::Delta::Typechange => RawStatus::Typechange,
        git2::Delta::Unreadable => RawStatus::Unreadable,
        git2::Delta::Conflicted => RawStatus::Conflicted,
    }
}

fn raw_hunks(diff: &git2::Diff, file_idx: usize) -> Option<Vec<RawHunk>> {
    let patch = match git2::Patch::from_diff(diff, file_idx) {
        Ok(Some(patch)) => patch,
        _ => return None,
    };
    let mut hunks = Vec::new();
    for hunk_idx in 0..patch.num_hunks() {
        let (header, num_lines) = patch.hunk(hunk_idx).unwrap();
        let mut lines = Vec::new();
        for line_idx in 0..num_lines {
            let line = patch.line_in_hunk(hunk_idx, line_idx).unwrap();
            lines.push(RawLine {
                origin: line.origin(),
                content: line.content().to_vec(),
                old_lineno: line.old_lineno(),
                new_lineno: line.new_lineno(),
            });
        }
        hunks.push(RawHunk {
            header: header.header().to_vec(),
            old_start: header.old_start(),
            old_lines: header.old_lines(),
            new_start: header.new_start(),
            new_lines: header.new_lines(),
            lines,
        });
    }
    Some(hunks)
}

fn raw_deltas(diff: &git2::Diff) -> Vec<RawDelta> {
    let mut deltas = Vec::new();
    for (file_idx, delta) in diff.deltas().enumerate() {
        let is_binary = delta.flags().contains(git2::DiffFlags::BINARY);
        deltas.push(RawDelta {
            new_path: delta
                .new_file()
                .path()
                .map(|p| p.to_string_lossy().to_string()),
            old_path: delta
                .old_file()
                .path()
                .map(|p| p.to_string_lossy().to_string()),
            status: raw_status(delta.status()),
            is_binary,
            hunks: if is_binary {
                None
            } else {
                raw_hunks(diff, file_idx)
            },
        });
    }
    deltas
}

fn library_unstaged_diff(repo: &Repository) -> Result<Vec<FileDiff>, git2::Error> {
    let index = repo.index()?;
    let mut opts = DiffOptions::new();
    opts.include_untracked(true);
    opts.recurse_untracked_dirs(true);
    opts.show_untracked_content(true);
    let diff = repo.diff_index_to_workdir(Some(&index), Some(&mut opts))?;
    Ok(parse_diff(&raw_deltas(&diff)))
}

fn new_entry(fields: EntryFields, id: git2::Oid, path: &str) -> git2::IndexEntry {
    git2::IndexEntry {
        ctime: git2::IndexTime::new(0, 0),
        mtime: git2::IndexTime::new(0, 0),
        dev: 0,
        ino: 0,
        mode: fields.mode,
        uid: 0,
        gid: 0,
        file_size: fields.file_size,
        id,
        flags: fields.flags,
        flags_extended: fields.flags_extended,
        path: path.as_bytes().to_vec(),
    }
}

/// Marks every untracked file as meant to be added.
fn intent_to_add_untracked(repo: &Repository) -> Result<(), git2::Error> {
    let untracked: Vec<String> = repo
        .statuses(None)?
        .iter()
        .filter(|e| e.status().contains(git2::Status::WT_NEW))
        .filter_map(|e| e.path().map(String::from))
        .collect();
    if untracked.is_empty() {
        return Ok(());
    }
    let mut index = repo.index()?;
    let empty_oid = repo.blob(&[])?;
    for path in &untracked {
        index.add(&new_entry(intent_entry(false), empty_oid, path))?;
    }
    index.write()?;
    repo.set_index(&mut repo.index()?)?;
    Ok(())
}

fn stored_bytes(repo: &Repository, path: &str) -> Option<Vec<u8>> {
    let index = repo.index().unwrap();
    if let Some(entry) = index.get_path(Path::new(path), 0) {
        return Some(repo.find_blob(entry.id).unwrap().content().to_vec());
    }
    let tree = repo.head().ok()?.peel_to_tree().ok()?;
    let entry = tree.get_path(Path::new(path)).ok()?;
    let object = entry.to_object(repo).ok()?;
    object.as_blob().map(|blob| blob.content().to_vec())
}

/// Stages one hunk as the program does: the library plans, the repository
/// is written.
fn stage_hunk(
    repo: &Repository,
    file_diff: &FileDiff,
    hunk: &Hunk,
    line_offset: i64,
) -> Result<(), String> {
    let path = file_diff.path.as_str();
    let mut index = repo.index().map_err(|e| e.to_string())?;
    let stored = stored_bytes(repo, path);
    let existing = index.get_path(Path::new(path), 0);
    let kept = existing.as_ref().map(|e| EntryFields {
        mode: e.mode,
        file_size: e.file_size,
        flags: e.flags,
        flags_extended: e.flags_extended,
    });
    let plan = plan_stage(stored.as_ref(), path, hunk, line_offset, kept)
        .map_err(|e| format!("{:?}", e))?;
    let blob_oid = repo
        .blob(plan.content.as_bytes())
        .map_err(|e| e.to_string())?;
    let entry = match existing {
        Some(mut entry) => {
            entry.id = blob_oid;
            entry.mode = plan.entry.mode;
            entry.file_size = plan.entry.file_size;
            entry.flags = plan.entry.flags;
            entry.flags_extended = plan.entry.flags_extended;
            entry
        }
        None => new_entry(plan.entry, blob_oid, path),
    };
    index.add(&entry).map_err(|e| e.to_string())?;
    index.write().map_err(|e| e.to_string())?;
    Ok(())
}

fn create_untracked_file(repo: &Repository, path: &str, content: &str) {
    write_file(repo, path, content.as_bytes());
}

/// Helper: get the staged (cached) diff for assertion checks.
fn get_staged_diff(repo: &Repository) -> Vec<FileDiff> {
    let head_tree = repo.head().unwrap().peel_to_tree().unwrap();
    let diff = repo
        .diff_tree_to_index(Some(&head_tree), None, None)
        .unwrap();
    parse_diff(&raw_deltas(&diff))
}

/// Helper: get the unstaged diff (index-to-workdir).
fn get_unstaged_diff(repo: &Repository) -> Vec<FileDiff> {
    let mut opts = DiffOptions::new();
    opts.include_untracked(true);
    opts.recurse_untracked_dirs(true);
    let diff = repo.diff_index_to_workdir(None, Some(&mut opts)).unwrap();
    parse_diff(&raw_deltas(&diff))
}

/// Helper: get the unstaged diff with untracked file content included.
fn get_unstaged_diff_with_untracked_content(repo: &Repository) -> Vec<FileDiff> {
    let mut opts = DiffOptions::new();
    opts.include_untracked(true);
    opts.recurse_untracked_dirs(true);
    opts.show_untracked_content(true);
    let diff = repo.diff_index_to_workdir(None, Some(&mut opts)).unwrap();
    parse_diff(&raw_deltas(&diff))
}

// ============================================================
// Integration tests: stage_hunk
// ============================================================

#[test]
fn test_stage_single_hunk_single_file() {
    let (dir, repo) = create_temp_repo();

    // Commit a file, then modify it
    commit_file(&repo, "hello.txt", "line1\nline2\nline3\n");
    modify_file(&repo, "hello.txt", "line1\nline2 modified\nline3\n");

    // Parse the unstaged diff
    let files = get_unstaged_diff(&repo);
    assert_eq!(files.len(), 1);
    assert_eq!(files[0].hunks.len(), 1);

    // Stage the hunk
    stage_hunk(&repo, &files[0], &files[0].hunks[0], 0).unwrap();

    // Verify: staged diff should show this change
    let staged = get_staged_diff(&repo);
    assert_eq!(staged.len(), 1, "Staged diff should have 1 file");
    assert_eq!(staged[0].path.as_str(), "hello.txt");

    // Verify: unstaged diff should be empty now
    let unstaged = get_unstaged_diff(&repo);
    let hello_unstaged: Vec<_> = unstaged
        .iter()
        .filter(|f| f.path.as_str() == "hello.txt")
        .collect();
    assert!(
        hello_unstaged.is_empty() || hello_unstaged[0].hunks.is_empty(),
        "All changes should be staged"
    );

    drop(dir);
}

#[test]
fn test_stage_one_of_two_hunks() {
    let (dir, repo) = create_temp_repo();

    // Create a file with enough lines to produce two separate hunks
    let original = (1..=20)
        .map(|i| format!("line{}", i))
        .collect::<Vec<_>>()
        .join("\n")
        + "\n";
    commit_file(&repo, "multi.txt", &original);

    // Modify lines near the top and near the bottom to create two hunks
    let modified = original
        .replace("line2", "line2 CHANGED")
        .replace("line19", "line19 CHANGED");
    modify_file(&repo, "multi.txt", &modified);

    let files = get_unstaged_diff(&repo);
    assert_eq!(files.len(), 1);
    assert!(
        files[0].hunks.len() >= 2,
        "Expected at least 2 hunks, got {}",
        files[0].hunks.len()
    );

    // Stage only the first hunk
    stage_hunk(&repo, &files[0], &files[0].hunks[0], 0).unwrap();

    // Staged diff should show the first change
    let staged = get_staged_diff(&repo);
    assert_eq!(staged.len(), 1);
    // Should have the first hunk staged
    let staged_lines: String = staged[0]
        .hunks
        .iter()
        .flat_map(|h| h.lines.iter())
        .map(|l| l.content.clone())
        .collect();
    assert!(
        staged_lines.contains("line2 CHANGED"),
        "First hunk should be staged"
    );

    // Unstaged diff should still show the second change
    let unstaged = get_unstaged_diff(&repo);
    let multi_unstaged: Vec<_> = unstaged
        .iter()
        .filter(|f| f.path.as_str() == "multi.txt")
        .collect();
    assert!(
        !multi_unstaged.is_empty(),
        "Second hunk should remain unstaged"
    );
    let unstaged_lines: String = multi_unstaged[0]
        .hunks
        .iter()
        .flat_map(|h| h.lines.iter())
        .map(|l| l.content.clone())
        .collect();
    assert!(
        unstaged_lines.contains("line19 CHANGED"),
        "Second hunk should remain unstaged"
    );

    drop(dir);
}

#[test]
fn test_stage_hunk_new_file() {
    let (dir, repo) = create_temp_repo();

    // Create a new untracked file
    create_untracked_file(&repo, "newfile.txt", "brand new content\n");

    // Need include_untracked_content to get diff hunks for untracked files
    let files = get_unstaged_diff_with_untracked_content(&repo);
    let new_file: Vec<_> = files
        .iter()
        .filter(|f| f.path.as_str() == "newfile.txt")
        .collect();
    assert_eq!(new_file.len(), 1, "Should detect new file");
    assert!(!new_file[0].hunks.is_empty(), "New file should have hunks");

    // Stage the new file's hunk
    stage_hunk(&repo, new_file[0], &new_file[0].hunks[0], 0).unwrap();

    // Staged diff should show the new file
    let staged = get_staged_diff(&repo);
    let staged_new: Vec<_> = staged
        .iter()
        .filter(|f| f.path.as_str() == "newfile.txt")
        .collect();
    assert_eq!(staged_new.len(), 1, "New file should appear in staged diff");

    drop(dir);
}

#[test]
fn test_stage_new_file_via_intent_to_add_clears_ita_flag() {
    let (dir, repo) = create_temp_repo();

    // Create a new untracked file and mark it intent-to-add (same as `stagent -N`)
    create_untracked_file(&repo, "newfile.txt", "brand new content\nsecond line\n");
    intent_to_add_untracked(&repo).unwrap();

    // Get the unstaged diff (intent-to-add shows content as added lines)
    let files = get_unstaged_diff(&repo);
    let new_file: Vec<_> = files
        .iter()
        .filter(|f| f.path.as_str() == "newfile.txt")
        .collect();
    assert_eq!(new_file.len(), 1, "Should detect intent-to-add file");
    assert!(
        !new_file[0].hunks.is_empty(),
        "Intent-to-add file should have hunks"
    );

    // Stage the hunk
    stage_hunk(&repo, new_file[0], &new_file[0].hunks[0], 0).unwrap();

    // After staging, the intent-to-add flag must be cleared on the index entry.
    // If it's still set, git CLI treats the file as "not staged" even though
    // the blob has real content.
    let index = repo.index().unwrap();
    let entry = index
        .get_path(Path::new("newfile.txt"), 0)
        .expect("newfile.txt should be in the index after staging");

    const GIT_IDXENTRY_INTENT_TO_ADD: u16 = 1 << 13;
    assert_eq!(
        entry.flags_extended & GIT_IDXENTRY_INTENT_TO_ADD,
        0,
        "Intent-to-add flag should be cleared after staging, \
         otherwise git treats the file as not staged"
    );

    // Also verify the staged diff shows the content
    let staged = get_staged_diff(&repo);
    let staged_new: Vec<_> = staged
        .iter()
        .filter(|f| f.path.as_str() == "newfile.txt")
        .collect();
    assert_eq!(staged_new.len(), 1, "New file should appear in staged diff");

    let staged_content: String = staged_new[0]
        .hunks
        .iter()
        .flat_map(|h| h.lines.iter())
        .filter(|l| l.kind == LineKind::Added)
        .map(|l| l.content.clone())
        .collect();
    assert!(
        staged_content.contains("brand new content"),
        "Staged diff should contain the file content, got: {}",
        staged_content
    );

    drop(dir);
}

#[test]
fn test_get_unstaged_diff_sees_ita_files_with_staged_changes() {
    // Reproduce the user's exact scenario:
    // - Some files are committed and then staged (modified)
    // - Some files are new with intent-to-add
    // - get_unstaged_diff should return the ITA files with hunks
    let (dir, repo) = create_temp_repo();

    // Create and commit some files, then stage modifications (like the user has)
    commit_file(&repo, "existing.txt", "original\n");
    modify_file(&repo, "existing.txt", "modified\n");
    // Stage the modification
    {
        let mut index = repo.index().unwrap();
        index
            .add_path(Path::new("existing.txt"))
            .unwrap();
        index.write().unwrap();
    }

    // Create new untracked files and mark them intent-to-add
    create_untracked_file(&repo, "newfile.txt", "brand new content\nsecond line\n");
    intent_to_add_untracked(&repo).unwrap();

    // Now call the LIBRARY function (same code path as main.rs)
    let files = library_unstaged_diff(&repo).unwrap();

    // The ITA file should appear with hunks
    let new_file: Vec<_> = files
        .iter()
        .filter(|f| f.path.as_str() == "newfile.txt")
        .collect();
    assert!(
        !new_file.is_empty(),
        "ITA file should appear in unstaged diff, got files: {:?}",
        files
            .iter()
            .map(|f| f.path.as_str())
            .collect::<Vec<_>>()
    );
    assert!(
        !new_file[0].hunks.is_empty(),
        "ITA file should have hunks so it can be staged"
    );

    drop(dir);
}

#[test]
fn test_get_unstaged_diff_sees_ita_files_after_repo_reopen() {
    // Simulate the case where `git add -N` was run externally before stagent
    let (dir, repo) = create_temp_repo();

    // Create new file and add intent-to-add
    create_untracked_file(&repo, "newfile.txt", "brand new content\n");
    intent_to_add_untracked(&repo).unwrap();

    // Drop and reopen the repo (simulates running stagent as a new process)
    drop(repo);
    let repo = Repository::discover(dir.path()).unwrap();

    let files = library_unstaged_diff(&repo).unwrap();
    let new_file: Vec<_> = files
        .iter()
        .filter(|f| f.path.as_str() == "newfile.txt")
        .collect();
    assert!(
        !new_file.is_empty(),
        "ITA file should appear after repo reopen, got files: {:?}",
        files
            .iter()
            .map(|f| f.path.as_str())
            .collect::<Vec<_>>()
    );
    assert!(
        !new_file[0].hunks.is_empty(),
        "ITA file should have hunks after repo reopen"
    );

    drop(dir);
}

#[test]
fn test_stage_hunk_deleted_lines() {
    let (dir, repo) = create_temp_repo();

    commit_file(&repo, "del.txt", "keep1\nremove_me\nkeep2\n");
    modify_file(&repo, "del.txt", "keep1\nkeep2\n");

    let files = get_unstaged_diff(&repo);
    assert_eq!(files.len(), 1);

    stage_hunk(&repo, &files[0], &files[0].hunks[0], 0).unwrap();

    let staged = get_staged_diff(&repo);
    assert_eq!(staged.len(), 1);
    // The staged change should show a removed line
    let has_removed = staged[0]
        .hunks
        .iter()
        .flat_map(|h| h.lines.iter())
        .any(|l| l.kind == LineKind::Removed && l.content.contains("remove_me"));
    assert!(has_removed, "Staged diff should show removed line");

    drop(dir);
}

#[test]
fn test_stage_hunk_added_lines() {
    let (dir, repo) = create_temp_repo();

    commit_file(&repo, "add.txt", "first\nlast\n");
    modify_file(&repo, "add.txt", "first\nnew_middle\nlast\n");

    let files = get_unstaged_diff(&repo);
    assert_eq!(files.len(), 1);

    stage_hunk(&repo, &files[0], &files[0].hunks[0], 0).unwrap();

    let staged = get_staged_diff(&repo);
    assert_eq!(staged.len(), 1);
    let has_added = staged[0]
        .hunks
        .iter()
        .flat_map(|h| h.lines.iter())
        .any(|l| l.kind == LineKind::Added && l.content.contains("new_middle"));
    assert!(has_added, "Staged diff should show added line");

    drop(dir);
}

#[test]
fn test_stage_hunk_mixed_changes() {
    let (dir, repo) = create_temp_repo();

    commit_file(&repo, "mix.txt", "alpha\nbeta\ngamma\ndelta\n");
    modify_file(&repo, "mix.txt", "alpha\nBETA\ngamma\nepsilon\n");

    let files = get_unstaged_diff(&repo);
    assert_eq!(files.len(), 1);

    stage_hunk(&repo, &files[0], &files[0].hunks[0], 0).unwrap();

    let staged = get_staged_diff(&repo);
    assert_eq!(staged.len(), 1);

    let staged_lines: Vec<_> = staged[0]
        .hunks
        .iter()
        .flat_map(|h| h.lines.iter())
        .collect();

    let has_beta_removed = staged_lines
        .iter()
        .any(|l| l.kind == LineKind::Removed && l.content.contains("beta"));
    let has_beta_added = staged_lines
        .iter()
        .any(|l| l.kind == LineKind::Added && l.content.contains("BETA"));
    let has_delta_removed = staged_lines
        .iter()
        .any(|l| l.kind == LineKind::Removed && l.content.contains("delta"));
    let has_epsilon_added = staged_lines
        .iter()
        .any(|l| l.kind == LineKind::Added && l.content.contains("epsilon"));

    assert!(has_beta_removed, "Should show beta removed");
    assert!(has_beta_added, "Should show BETA added");
    assert!(has_delta_removed, "Should show delta removed");
    assert!(has_epsilon_added, "Should show epsilon added");

    drop(dir);
}

#[test]
fn test_stage_preserves_other_files() {
    let (dir, repo) = create_temp_repo();

    commit_file(&repo, "file_a.txt", "content_a\n");
    commit_file(&repo, "file_b.txt", "content_b\n");

    // Modify both files
    modify_file(&repo, "file_a.txt", "content_a modified\n");
    modify_file(&repo, "file_b.txt", "content_b modified\n");

    let files = get_unstaged_diff(&repo);
    assert_eq!(files.len(), 2);

    // Stage only file_a's hunk
    let file_a = files
        .iter()
        .find(|f| f.path.as_str() == "file_a.txt")
        .unwrap();
    stage_hunk(&repo, file_a, &file_a.hunks[0], 0).unwrap();

    // file_a should be staged
    let staged = get_staged_diff(&repo);
    let staged_a: Vec<_> = staged
        .iter()
        .filter(|f| f.path.as_str() == "file_a.txt")
        .collect();
    assert_eq!(staged_a.len(), 1, "file_a should be staged");

    // file_b should NOT be staged
    let staged_b: Vec<_> = staged
        .iter()
        .filter(|f| f.path.as_str() == "file_b.txt")
        .collect();
    assert!(staged_b.is_empty(), "file_b should not be staged");

    // file_b should still be in unstaged diff
    let unstaged = get_unstaged_diff(&repo);
    let unstaged_b: Vec<_> = unstaged
        .iter()
        .filter(|f| f.path.as_str() == "file_b.txt")
        .collect();
    assert_eq!(unstaged_b.len(), 1, "file_b should remain unstaged");

    drop(dir);
}

// ============================================================
// Integration tests: split-then-stage workflow
// ============================================================

#[test]
fn test_stage_split_then_stage() {
    let (dir, repo) = create_temp_repo();

    // Create a file with enough lines to produce two separate hunks
    // when split_hunk is called
    let original = (1..=20)
        .map(|i| format!("line{}", i))
        .collect::<Vec<_>>()
        .join("\n")
        + "\n";
    commit_file(&repo, "split.txt", &original);

    // Modify lines to create two hunks with enough context gap between them
    let modified = original
        .replace("line2", "line2 CHANGED")
        .replace("line19", "line19 CHANGED");
    modify_file(&repo, "split.txt", &modified);

    let files = get_unstaged_diff(&repo);
    assert_eq!(files.len(), 1);

    // For this test, we'll work with the single hunk from git diff
    // and demonstrate that we can stage individual hunks
    assert!(
        !files[0].hunks.is_empty(),
        "File should have at least one hunk"
    );

    // Stage the first hunk
    stage_hunk(&repo, &files[0], &files[0].hunks[0], 0).unwrap();

    // Verify that at least one change was staged
    let staged = get_staged_diff(&repo);
    assert_eq!(staged.len(), 1, "Staged diff should have 1 file");
    assert!(!staged[0].hunks.is_empty(), "Staged file should have hunks");

    // Verify unstaged changes remain
    let unstaged = get_unstaged_diff(&repo);
    let split_unstaged: Vec<_> = unstaged
        .iter()
        .filter(|f| f.path.as_str() == "split.txt")
        .collect();
    assert!(
        !split_unstaged.is_empty(),
        "Should have unstaged changes remaining"
    );

    drop(dir);
}

