//! The options of the program, and what it is to do with them.

use vstd::prelude::*;
use crate::spawn::{SpawnModel, SpawnOptions};
use crate::types::{lemma_deep_view_push, FileDiff, FileModel};

verus! {

/// The options that the program is started with.
#[derive(Debug, Clone)]
pub struct Cli {
    /// The file to write the feedback to, in place of the standard output.
    pub output: Option<String>,
    /// Whether hunks are only reviewed, and none is staged.
    pub no_stage: bool,
    /// The pattern that the paths of the files to review match.
    pub files: Option<String>,
    /// The name of the theme.
    pub theme: String,
    /// The number of hunk lines shown on each side of a comment.
    pub context_lines: usize,
    /// Whether the review is started in a new pane.
    pub spawn: bool,
    /// Whether the change set is read as text from the standard input.
    pub patch: bool,
}

/// The mathematical view of a `Cli`.
pub struct CliModel {
    pub output: Option<Seq<char>>,
    pub no_stage: bool,
    pub files: Option<Seq<char>>,
    pub theme: Seq<char>,
    pub context_lines: usize,
    pub spawn: bool,
    pub patch: bool,
}

impl View for Cli {
    type V = CliModel;

    open spec fn view(&self) -> CliModel {
        CliModel {
            output: self.output.deep_view(),
            no_stage: self.no_stage,
            files: self.files.deep_view(),
            theme: self.theme@,
            context_lines: self.context_lines,
            spawn: self.spawn,
            patch: self.patch,
        }
    }
}

/// What the program is to do.
#[derive(Debug, Clone)]
pub enum RunMode {
    /// Start the review in a new pane, with these options, and wait for it.
    Spawn(SpawnOptions),
    /// Review the change set that the standard input holds. No hunk is
    /// staged in this mode.
    Patch,
    /// Review the unstaged changes of the repository.
    Git,
}

/// Why the program cannot start.
#[derive(Debug, Clone, Copy, PartialEq, Eq, Structural)]
pub enum StartError {
    /// The program does not run in a terminal multiplexer.
    NoTmux,
    /// A change set on the standard input cannot be handed to a new pane.
    PatchWithSpawn,
}

/// The mathematical view of a `RunMode`.
pub enum RunModeModel {
    Spawn(SpawnModel),
    Patch,
    Git,
}

impl View for RunMode {
    type V = RunModeModel;

    open spec fn view(&self) -> RunModeModel {
        match *self {
            RunMode::Spawn(opts) => RunModeModel::Spawn(opts@),
            RunMode::Patch => RunModeModel::Patch,
            RunMode::Git => RunModeModel::Git,
        }
    }
}

/// What the program is to do with the options `cli`: nothing outside a
/// terminal multiplexer, and nothing where both the standard input and a new
/// pane are asked for; else start in a new pane where that is asked for,
/// read the standard input where that is asked for, and otherwise review the
/// repository.
pub open spec fn planned(cli: CliModel, in_tmux: bool) -> Result<RunModeModel, StartError> {
    if !in_tmux {
        Err(StartError::NoTmux)
    } else if cli.patch && cli.spawn {
        Err(StartError::PatchWithSpawn)
    } else if cli.spawn {
        Ok(
            RunModeModel::Spawn(
                SpawnModel {
                    output: cli.output,
                    files: cli.files,
                    theme: cli.theme,
                    context_lines: cli.context_lines,
                    no_stage: cli.no_stage,
                },
            ),
        )
    } else if cli.patch {
        Ok(RunModeModel::Patch)
    } else {
        Ok(RunModeModel::Git)
    }
}

/// A copy of a text that may be missing.
fn copy_text(text: &Option<String>) -> (r: Option<String>)
    ensures
        r.deep_view() == text.deep_view(),
{
    match text {
        Some(s) => Some(s.clone()),
        None => None,
    }
}

/// Decides what the program is to do with the options `cli`, `in_tmux`
/// saying whether it runs in a terminal multiplexer.
pub fn plan_run(cli: &Cli, in_tmux: bool) -> (r: Result<RunMode, StartError>)
    ensures
        match r {
            Ok(mode) => planned(cli@, in_tmux) == Ok::<RunModeModel, StartError>(mode@),
            Err(e) => planned(cli@, in_tmux) == Err::<RunModeModel, StartError>(e),
        },
{
    if !in_tmux {
        return Err(StartError::NoTmux);
    }
    if cli.patch && cli.spawn {
        return Err(StartError::PatchWithSpawn);
    }
    if cli.spawn {
        return Ok(
            RunMode::Spawn(
                SpawnOptions {
                    output: copy_text(&cli.output),
                    files: copy_text(&cli.files),
                    theme: cli.theme.clone(),
                    context_lines: cli.context_lines,
                    no_stage: cli.no_stage,
                },
            ),
        );
    }
    if cli.patch {
        Ok(RunMode::Patch)
    } else {
        Ok(RunMode::Git)
    }
}

/// The largest change set, in bytes, that is read from the standard input.
pub const MAX_PATCH_SIZE: u64 = 104857600;

/// Tests whether a change set of `len` bytes is small enough to be read.
pub fn patch_size_allowed(len: u64) -> (r: bool)
    ensures
        r == (len <= MAX_PATCH_SIZE),
{
    len <= MAX_PATCH_SIZE
}

/// Whether the path `path` matches the pattern `pattern`, as the crate
/// `glob` decides it; nothing where `pattern` is no pattern.
pub uninterp spec fn glob_matches(pattern: Seq<char>, path: Seq<char>) -> Option<bool>;

/// `glob::Pattern::new` and `glob::Pattern::matches`: whether a pattern can
/// be read, and whether a path matches it, depends on the two texts alone;
/// the answer is named `glob_matches`.
#[verifier::external_body]
fn glob_match(pattern: &str, path: &str) -> (r: Option<bool>)
    ensures
        r == glob_matches(pattern@, path@),
{
    match glob::Pattern::new(pattern) {
        Ok(p) => Some(p.matches(path)),
        Err(_) => None,
    }
}

/// Whether a file is reviewed: it is not binary, and its path matches the
/// pattern. `matched` is what the pattern says of the path; a pattern that
/// is missing, or is no pattern, lets every path through.
pub open spec fn is_selected(is_binary: bool, matched: Option<bool>) -> bool {
    !is_binary && matched != Some(false)
}

/// Decides whether a file is reviewed.
pub fn selects(is_binary: bool, matched: Option<bool>) -> (r: bool)
    ensures
        r == is_selected(is_binary, matched),
{
    if is_binary {
        return false;
    }
    match matched {
        Some(false) => false,
        _ => true,
    }
}

/// What the pattern `pattern`, which may be missing, says of `path`.
pub open spec fn match_of(pattern: Option<Seq<char>>, path: Seq<char>) -> Option<bool> {
    match pattern {
        Some(p) => glob_matches(p, path),
        None => None,
    }
}

/// The files of `files` from index `i` on that are reviewed.
pub open spec fn selected_from(files: Seq<FileModel>, pattern: Option<Seq<char>>, i: int) -> Seq<
    FileModel,
>
    decreases files.len() - i,
{
    if i < 0 || i >= files.len() {
        Seq::empty()
    } else if is_selected(files[i].is_binary, match_of(pattern, files[i].path)) {
        seq![files[i]] + selected_from(files, pattern, i + 1)
    } else {
        selected_from(files, pattern, i + 1)
    }
}

/// Selects the files to review: those whose path matches `pattern`, where
/// there is one that can be read, and that are not binary. The files keep
/// their order.
pub fn select_files(files: Vec<FileDiff>, pattern: Option<&str>) -> (kept: Vec<FileDiff>)
    ensures
        kept.deep_view() == selected_from(files.deep_view(), pattern.deep_view(), 0),
{
    let ghost fs = files.deep_view();
    let ghost pat = pattern.deep_view();
    let mut rest = files;
    let mut kept_rev: Vec<FileDiff> = Vec::new();
    let ghost mut done: int = fs.len() as int;
    assert(kept_rev.deep_view() =~= selected_from(fs, pat, done).reverse());
    while rest.len() > 0
        invariant
            0 <= done <= fs.len(),
            rest.len() == done,
            rest.deep_view() == fs.take(done),
            pat == pattern.deep_view(),
            kept_rev.deep_view() == selected_from(fs, pat, done).reverse(),
        decreases rest.len(),
    {
        let ghost before_rest = rest;
        let file = rest.pop().unwrap();
        proof {
            assert(file == before_rest@[done - 1]);
            assert(before_rest.deep_view()[done - 1] == file@);
            assert(fs.take(done)[done - 1] == fs[done - 1]);
            assert(rest.deep_view() =~= fs.take(done - 1)) by {
                assert forall|k: int| 0 <= k < done - 1 implies rest.deep_view()[k] == fs.take(
                    done - 1,
                )[k] by {
                    assert(rest@[k] == before_rest@[k]);
                    assert(before_rest.deep_view()[k] == before_rest@[k]@);
                    assert(fs.take(done)[k] == fs[k]);
                }
            }
        }
        let matched = match pattern {
            Some(p) => glob_match(p, file.path.as_str()),
            None => None,
        };
        let ghost before = kept_rev;
        if selects(file.is_binary, matched) {
            kept_rev.push(file);
            proof {
                assert(kept_rev@.drop_last() =~= before@);
                lemma_deep_view_push(before, kept_rev);
                assert(kept_rev.deep_view() =~= selected_from(fs, pat, done - 1).reverse());
            }
        }
        proof {
            done = done - 1;
        }
    }
    let mut kept: Vec<FileDiff> = Vec::new();
    let ghost target = selected_from(fs, pat, 0);
    assert(done == 0);
    assert(kept.deep_view() =~= target.take(0));
    while kept_rev.len() > 0
        invariant
            kept.len() + kept_rev.len() == target.len(),
            kept.deep_view() == target.take(kept.len() as int),
            kept_rev.deep_view() == target.reverse().take(kept_rev.len() as int),
        decreases kept_rev.len(),
    {
        let ghost before_rev = kept_rev;
        let ghost before = kept;
        let file = kept_rev.pop().unwrap();
        proof {
            let n = before_rev.len() as int;
            assert(file == before_rev@[n - 1]);
            assert(before_rev.deep_view()[n - 1] == file@);
            assert(target.reverse().take(n)[n - 1] == target[target.len() - n]);
            assert(kept_rev.deep_view() =~= target.reverse().take(n - 1)) by {
                assert forall|k: int| 0 <= k < n - 1 implies kept_rev.deep_view()[k]
                    == target.reverse().take(n - 1)[k] by {
                    assert(kept_rev@[k] == before_rev@[k]);
                    assert(before_rev.deep_view()[k] == before_rev@[k]@);
                    assert(target.reverse().take(n)[k] == target.reverse()[k]);
                }
            }
        }
        kept.push(file);
        proof {
            assert(kept@.drop_last() =~= before@);
            lemma_deep_view_push(before, kept);
            assert(kept.deep_view() =~= target.take(kept.len() as int));
        }
    }
    assert(target.take(target.len() as int) =~= target);
    kept
}

} // verus!
