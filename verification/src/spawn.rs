//! The command that starts a review in a new pane.

use vstd::prelude::*;
use crate::feedback::DEFAULT_CONTEXT_LINES;
use crate::text::{chars_of, decimal, decimal_chars, push_word, same_chars, string_of};

verus! {

/// The options of a review that is started in a new pane.
#[derive(Debug, Clone)]
pub struct SpawnOptions {
    /// The file to write the feedback to.
    pub output: Option<String>,
    /// The pattern that the paths of the files to review match.
    pub files: Option<String>,
    /// The name of the theme.
    pub theme: String,
    /// The number of hunk lines shown on each side of a comment.
    pub context_lines: usize,
    /// Whether hunks are only reviewed, and none is staged.
    pub no_stage: bool,
}

/// The mathematical view of a `SpawnOptions`.
pub struct SpawnModel {
    pub output: Option<Seq<char>>,
    pub files: Option<Seq<char>>,
    pub theme: Seq<char>,
    pub context_lines: usize,
    pub no_stage: bool,
}

impl View for SpawnOptions {
    type V = SpawnModel;

    open spec fn view(&self) -> SpawnModel {
        SpawnModel {
            output: self.output.deep_view(),
            files: self.files.deep_view(),
            theme: self.theme@,
            context_lines: self.context_lines,
            no_stage: self.no_stage,
        }
    }
}

/// The arguments that hand the options on: each option that is set, or
/// differs from its default, with its value. That the review is to be
/// started in a new pane is not handed on.
pub open spec fn forwarded(opts: SpawnModel) -> Seq<Seq<char>> {
    (match opts.output {
        Some(path) => seq!["--output"@, path],
        None => Seq::empty(),
    }) + (match opts.files {
        Some(pattern) => seq!["--files"@, pattern],
        None => Seq::empty(),
    }) + (if opts.theme != "default"@ {
        seq!["--theme"@, opts.theme]
    } else {
        Seq::empty()
    }) + (if opts.context_lines != DEFAULT_CONTEXT_LINES {
        seq!["--context-lines"@, decimal(opts.context_lines as nat)]
    } else {
        Seq::empty()
    }) + (if opts.no_stage {
        seq!["--no-stage"@]
    } else {
        Seq::empty()
    })
}

/// The command that opens a new pane beside the current one, half as wide,
/// prints the pane's id, and runs the program `exe` in it with the options
/// handed on.
pub open spec fn spawn_command(opts: SpawnModel, exe: Seq<char>) -> Seq<Seq<char>> {
    seq![
        "tmux"@,
        "split-window"@,
        "-h"@,
        "-p"@,
        "50"@,
        "-P"@,
        "-F"@,
        "#{pane_id}"@,
        "--"@,
        exe,
    ] + forwarded(opts)
}

/// Builds the arguments of the command that starts a review in a new pane,
/// `exe` being the path of the program to run there.
pub fn build_spawn_command(opts: &SpawnOptions, exe: &str) -> (cmd: Vec<String>)
    ensures
        cmd.deep_view() == spawn_command(opts@, exe@),
{
    let mut cmd: Vec<String> = Vec::new();
    assert(cmd.deep_view() =~= Seq::<Seq<char>>::empty());
    push_word(&mut cmd, "tmux");
    push_word(&mut cmd, "split-window");
    push_word(&mut cmd, "-h");
    push_word(&mut cmd, "-p");
    push_word(&mut cmd, "50");
    push_word(&mut cmd, "-P");
    push_word(&mut cmd, "-F");
    push_word(&mut cmd, "#{pane_id}");
    push_word(&mut cmd, "--");
    push_word(&mut cmd, exe);
    let ghost head = cmd.deep_view();
    let ghost mut tail: Seq<Seq<char>> = Seq::empty();
    assert(cmd.deep_view() =~= head + tail);
    match &opts.output {
        Some(path) => {
            push_word(&mut cmd, "--output");
            push_word(&mut cmd, path.as_str());
            proof {
                tail = tail + seq!["--output"@, path@];
            }
        },
        None => {},
    }
    assert(cmd.deep_view() =~= head + tail);
    match &opts.files {
        Some(pattern) => {
            push_word(&mut cmd, "--files");
            push_word(&mut cmd, pattern.as_str());
            proof {
                tail = tail + seq!["--files"@, pattern@];
            }
        },
        None => {},
    }
    assert(cmd.deep_view() =~= head + tail);
    if !same_chars(&chars_of(opts.theme.as_str()), &chars_of("default")) {
        push_word(&mut cmd, "--theme");
        push_word(&mut cmd, opts.theme.as_str());
        proof {
            tail = tail + seq!["--theme"@, opts.theme@];
        }
    }
    assert(cmd.deep_view() =~= head + tail);
    if opts.context_lines != DEFAULT_CONTEXT_LINES {
        push_word(&mut cmd, "--context-lines");
        let count = string_of(&decimal_chars(opts.context_lines as u64));
        push_word(&mut cmd, count.as_str());
        proof {
            tail = tail + seq!["--context-lines"@, decimal(opts.context_lines as nat)];
        }
    }
    assert(cmd.deep_view() =~= head + tail);
    if opts.no_stage {
        push_word(&mut cmd, "--no-stage");
        proof {
            tail = tail + seq!["--no-stage"@];
        }
    }
    assert(cmd.deep_view() =~= head + tail);
    assert(tail =~= forwarded(opts@));
    assert(head =~= seq![
        "tmux"@,
        "split-window"@,
        "-h"@,
        "-p"@,
        "50"@,
        "-P"@,
        "-F"@,
        "#{pane_id}"@,
        "--"@,
        exe@,
    ]);
    cmd
}

/// The id of the pane that the command printed: its output without white
/// space around it, if anything is left.
pub open spec fn pane_id_in(output: Seq<char>) -> Option<Seq<char>> {
    if crate::text::trim(output).len() == 0 {
        None
    } else {
        Some(crate::text::trim(output))
    }
}

/// Reads the id of the new pane out of what the command printed.
pub fn pane_id_of(output: &str) -> (r: Option<String>)
    ensures
        r.deep_view() == pane_id_in(output@),
{
    let id = crate::text::trim_chars(&chars_of(output));
    if id.len() == 0 {
        None
    } else {
        Some(string_of(&id))
    }
}

} // verus!
