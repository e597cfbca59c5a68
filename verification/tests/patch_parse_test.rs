// Text ingestion of the diffs of real repositories, and its agreement with
// structured ingestion.

use git2::{DiffOptions, Repository, Signature};
use std::io::Write;
use std::path::Path;
use tempfile::TempDir;

use stagent::diff::{parse_diff, RawDelta, RawHunk, RawLine, RawStatus};
use stagent::patch::parse_unified_diff;
use stagent::types::{DeltaStatus, FileDiff, LineKind};

fn create_temp_repo() -> (TempDir, Repository) {
    let dir = TempDir::new().expect("Failed to create temp dir");
    let repo = Repository::init(dir.path()).expect("Failed to init repo");

    {
        let mut index = repo.index().unwrap();
        let tree_oid = index.write_tree().unwrap();
        let tree = repo.find_tree(tree_oid).unwrap();
        let sig = Signature::now("Test", "test@test.com").unwrap();
        repo.commit(Some("HEAD"), &sig, &sig, "Initial commit", &tree, &[])
            .unwrap();
    }

    (dir, repo)
}

fn write_file(repo: &Repository, path: &str, content: &[u8]) {
    let workdir = repo.workdir().expect("Not a bare repo");
    let mut file = tempfile::NamedTempFile::new_in(workdir).unwrap();
    file.write_all(content).unwrap();
    file.flush().unwrap();
    file.persist(workdir.join(path)).unwrap();
}

fn commit_file(repo: &Repository, path: &str, content: &str) {
    write_file(repo, path, content.as_bytes());

    let mut index = repo.index().unwrap();
    index.add_path(Path::new(path)).unwrap();
    index.write().unwrap();

    let tree_oid = index.write_tree().unwrap();
    let tree = repo.find_tree(tree_oid).unwrap();
    let sig = Signature::now("Test", "test@test.com").unwrap();

    let head = repo.head().unwrap();
    let parent_commit = head.peel_to_commit().unwrap();

    repo.commit(
        Some("HEAD"),
        &sig,
        &sig,
        &format!("Add {}", path),
        &tree,
        &[&parent_commit],
    )
    .unwrap();
}

fn modify_file(repo: &Repository, path: &str, content: &str) {
    write_file(repo, path, content.as_bytes());
}

fn delete_file(repo: &Repository, path: &str) {
    let workdir = repo.workdir().expect("Not a bare repo");
    drop(tempfile::TempPath::from_path(workdir.join(path)));
}

fn raw_status(status: git2::Delta) -> RawStatus {
    match status {
        git2::Delta::Unmodified => RawStatus::Unmodified,
        git2::Delta::Added => RawStatus::Added,
        git2::Delta::Deleted => RawStatus::Deleted,
        git2::Delta::Modified => RawStatus::Modified,
        git2::Delta::Renamed => RawStatus::Renamed,
        git2::Delta::Copied => RawStatus::Copied,
        git2::Delta::Ignored => RawStatus::Ignored,
        git2::Delta::Untracked => RawStatus::Untracked,
        git2::Delta::Typechange => RawStatus::Typechange,
        git2::Delta::Unreadable => RawStatus::Unreadable,
        git2::Delta::Conflicted => RawStatus::Conflicted,
    }
}

fn raw_hunks(diff: &git2::Diff, file_idx: usize) -> Option<Vec<RawHunk>> {
    let patch = match git2::Patch::from_diff(diff, file_idx) {
        Ok(Some(patch)) => patch,
        _ => return None,
    };
    let mut hunks = Vec::new();
    for hunk_idx in 0..patch.num_hunks() {
        let (header, num_lines) = patch.hunk(hunk_idx).unwrap();
        let mut lines = Vec::new();
        for line_idx in 0..num_lines {
            let line = patch.line_in_hunk(hunk_idx, line_idx).unwrap();
            lines.push(RawLine {
                origin: line.origin(),
                content: line.content().to_vec(),
                old_lineno: line.old_lineno(),
                new_lineno: line.new_lineno(),
            });
        }
        hunks.push(RawHunk {
            header: header.header().to_vec(),
            old_start: header.old_start(),
            old_lines: header.old_lines(),
            new_start: header.new_start(),
            new_lines: header.new_lines(),
            lines,
        });
    }
    Some(hunks)
}

fn get_unstaged_diff(repo: &Repository) -> Result<Vec<FileDiff>, git2::Error> {
    let index = repo.index()?;
    let mut opts = DiffOptions::new();
    opts.include_untracked(true);
    opts.recurse_untracked_dirs(true);
    opts.show_untracked_content(true);
    let diff = repo.diff_index_to_workdir(Some(&index), Some(&mut opts))?;

    let mut deltas = Vec::new();
    for (file_idx, delta) in diff.deltas().enumerate() {
        let is_binary = delta.flags().contains(git2::DiffFlags::BINARY);
        deltas.push(RawDelta {
            new_path: delta
                .new_file()
                .path()
                .map(|p| p.to_string_lossy().to_string()),
            old_path: delta
                .old_file()
                .path()
                .map(|p| p.to_string_lossy().to_string()),
            status: raw_status(delta.status()),
            is_binary,
            hunks: if is_binary {
                None
            } else {
                raw_hunks(&diff, file_idx)
            },
        });
    }
    Ok(parse_diff(&deltas))
}

/// The diff of the index and the working directory as text.
fn git_diff_output(repo: &Repository) -> String {
    let diff = repo.diff_index_to_workdir(None, None).unwrap();
    let mut text = String::new();
    diff.print(git2::DiffFormat::Patch, |_delta, _hunk, line| {
        match line.origin() {
            '+' | '-' | ' ' => text.push(line.origin()),
            _ => {}
        }
        text.push_str(&String::from_utf8_lossy(line.content()));
        true
    })
    .unwrap();
    text
}

#[test]
fn test_patch_parse_single_file_modification() {
    let (_dir, repo) = create_temp_repo();
    commit_file(&repo, "file.txt", "line 1\nline 2\nline 3\n");
    modify_file(&repo, "file.txt", "line 1\nline 2 modified\nline 3\n");

    let diff_text = git_diff_output(&repo);
    let files = parse_unified_diff(&diff_text).expect("parse failed");

    assert_eq!(files.len(), 1);
    assert_eq!(files[0].path, "file.txt");
    assert_eq!(files[0].status, DeltaStatus::Modified);
    assert_eq!(files[0].hunks.len(), 1);

    let hunk = &files[0].hunks[0];
    let removed: Vec<_> = hunk
        .lines
        .iter()
        .filter(|l| l.kind == LineKind::Removed)
        .collect();
    let added: Vec<_> = hunk
        .lines
        .iter()
        .filter(|l| l.kind == LineKind::Added)
        .collect();
    assert_eq!(removed.len(), 1);
    assert_eq!(added.len(), 1);
    assert_eq!(removed[0].content, "line 2\n");
    assert_eq!(added[0].content, "line 2 modified\n");
}

#[test]
fn test_patch_parse_multiple_files() {
    let (_dir, repo) = create_temp_repo();
    commit_file(&repo, "a.txt", "aaa\n");
    commit_file(&repo, "b.txt", "bbb\n");
    modify_file(&repo, "a.txt", "aaa modified\n");
    modify_file(&repo, "b.txt", "bbb modified\n");

    let diff_text = git_diff_output(&repo);
    let files = parse_unified_diff(&diff_text).expect("parse failed");

    assert_eq!(files.len(), 2);
    let paths: Vec<String> = files
        .iter()
        .map(|f| f.path.clone())
        .collect();
    assert!(paths.contains(&"a.txt".to_string()));
    assert!(paths.contains(&"b.txt".to_string()));
}

#[test]
fn test_patch_parse_multiple_hunks() {
    let (_dir, repo) = create_temp_repo();

    let mut original = String::new();
    for i in 1..=30 {
        original.push_str(&format!("line {}\n", i));
    }
    commit_file(&repo, "big.txt", &original);

    let mut modified = String::new();
    for i in 1..=30 {
        if i == 2 {
            modified.push_str("line 2 CHANGED\n");
        } else if i == 28 {
            modified.push_str("line 28 CHANGED\n");
        } else {
            modified.push_str(&format!("line {}\n", i));
        }
    }
    modify_file(&repo, "big.txt", &modified);

    let diff_text = git_diff_output(&repo);
    let files = parse_unified_diff(&diff_text).expect("parse failed");

    assert_eq!(files.len(), 1);
    assert!(
        files[0].hunks.len() >= 2,
        "should have at least 2 hunks, got {}",
        files[0].hunks.len()
    );
}

#[test]
fn test_patch_parse_line_numbers_match_git2() {
    let (_dir, repo) = create_temp_repo();
    commit_file(&repo, "file.txt", "aaa\nbbb\nccc\n");
    modify_file(&repo, "file.txt", "aaa\nBBB\nccc\n");

    // Parse with our unified diff parser
    let diff_text = git_diff_output(&repo);
    let patch_files = parse_unified_diff(&diff_text).expect("parse failed");

    // Parse with git2
    let git2_files = get_unstaged_diff(&repo).expect("git2 diff failed");

    assert_eq!(patch_files.len(), git2_files.len());
    assert_eq!(patch_files[0].hunks.len(), git2_files[0].hunks.len());

    let patch_hunk = &patch_files[0].hunks[0];
    let git2_hunk = &git2_files[0].hunks[0];

    // Hunk ranges should match
    assert_eq!(patch_hunk.old_start, git2_hunk.old_start);
    assert_eq!(patch_hunk.old_lines, git2_hunk.old_lines);
    assert_eq!(patch_hunk.new_start, git2_hunk.new_start);
    assert_eq!(patch_hunk.new_lines, git2_hunk.new_lines);

    // Line counts and kinds should match
    assert_eq!(patch_hunk.lines.len(), git2_hunk.lines.len());
    for (pl, gl) in patch_hunk.lines.iter().zip(git2_hunk.lines.iter()) {
        assert_eq!(pl.kind, gl.kind, "line kind mismatch");
        assert_eq!(pl.old_lineno, gl.old_lineno, "old_lineno mismatch");
        assert_eq!(pl.new_lineno, gl.new_lineno, "new_lineno mismatch");
        assert_eq!(pl.content, gl.content, "content mismatch");
    }
}

#[test]
fn test_patch_parse_deleted_file() {
    let (_dir, repo) = create_temp_repo();
    commit_file(&repo, "doomed.txt", "this will be deleted\n");
    delete_file(&repo, "doomed.txt");

    let diff_text = git_diff_output(&repo);
    let files = parse_unified_diff(&diff_text).expect("parse failed");

    assert_eq!(files.len(), 1);
    assert_eq!(files[0].path, "doomed.txt");
    assert_eq!(files[0].status, DeltaStatus::Deleted);
    assert_eq!(files[0].hunks.len(), 1);

    // All lines should be removed
    for line in &files[0].hunks[0].lines {
        assert_eq!(line.kind, LineKind::Removed);
    }
}

#[test]
fn test_patch_parse_added_lines_only() {
    let (_dir, repo) = create_temp_repo();
    commit_file(&repo, "file.txt", "line 1\nline 2\n");
    modify_file(&repo, "file.txt", "line 1\nline 2\nline 3\nline 4\n");

    let diff_text = git_diff_output(&repo);
    let files = parse_unified_diff(&diff_text).expect("parse failed");

    assert_eq!(files.len(), 1);
    let added: Vec<_> = files[0].hunks[0]
        .lines
        .iter()
        .filter(|l| l.kind == LineKind::Added)
        .collect();
    assert_eq!(added.len(), 2);
    assert_eq!(added[0].content, "line 3\n");
    assert_eq!(added[1].content, "line 4\n");
}
