//! The decisions taken over a run of several files: what each file's report
//! starts with, whether the macro table parsed from it replaces the current
//! one, and the exit status.
use vstd::prelude::*;
use crate::escape::quoted;
use crate::text::{field_line, lines_view, push_line};

verus! {

/// The switches that shape a run.
#[derive(Clone, Copy, Debug, PartialEq, Eq, Structural)]
pub struct Options {
    /// Dump the whole syntax tree instead of the structural listing.
    pub full_tree: bool,
    /// Keep whitespace nodes in the dump.
    pub include_whitespace: bool,
    /// List the macro definitions after each file.
    pub show_macro_defs: bool,
    /// Parse each file against the given definitions alone.
    pub separate: bool,
}

/// How parsing one file went.
#[derive(Clone, Copy, Debug, PartialEq, Eq, Structural)]
pub enum FileOutcome {
    Parsed,
    Failed,
}

/// What to do after a file, besides printing its report.
#[derive(Clone, Copy, Debug, PartialEq, Eq, Structural)]
pub struct FileStep {
    /// Replace the current macro table by the one the parser returned.
    pub replace_defines: bool,
    /// List the macro table.
    pub show_macro_defs: bool,
}

/// The state of a run: its exit status so far and how many files it has taken.
#[derive(Clone, Copy, Debug, PartialEq, Eq, Structural)]
pub struct Session {
    pub exit_code: i32,
    pub attempted: usize,
}

/// The exit status after the given outcomes: 1 once any file has failed, else 0.
pub open spec fn exit_code_after(outcomes: Seq<FileOutcome>) -> i32
    decreases outcomes.len(),
{
    if outcomes.len() == 0 {
        0
    } else if outcomes.last() is Failed {
        1
    } else {
        exit_code_after(outcomes.drop_last())
    }
}

impl Session {
    /// A run that has taken no file yet and so far succeeds.
    pub fn new() -> (r: Session)
        ensures
            r.exit_code == 0,
            r.attempted == 0,
    {
        Session { exit_code: 0, attempted: 0 }
    }

    /// Takes the outcome of the next file: a failure sets the exit status to 1
    /// for good; after a success the new macro table is adopted unless files
    /// are kept separate, and listed where asked.
    pub fn record(&mut self, opts: &Options, outcome: FileOutcome) -> (step: FileStep)
        requires
            old(self).attempted < usize::MAX,
        ensures
            final(self).attempted == old(self).attempted + 1,
            final(self).exit_code == if outcome is Failed {
                1
            } else {
                old(self).exit_code
            },
            step.replace_defines == (outcome is Parsed && !opts.separate),
            step.show_macro_defs == (outcome is Parsed && opts.show_macro_defs),
    {
        self.attempted = self.attempted + 1;
        match outcome {
            FileOutcome::Parsed => FileStep {
                replace_defines: !opts.separate,
                show_macro_defs: opts.show_macro_defs,
            },
            FileOutcome::Failed => {
                self.exit_code = 1;
                FileStep { replace_defines: false, show_macro_defs: false }
            },
        }
    }
}

/// Over the outcomes of all files of a run, the exit status is 1 exactly
/// where some file failed, and 0 exactly where every file parsed.
pub proof fn lemma_run_outcomes(outcomes: Seq<FileOutcome>)
    ensures
        exit_code_after(outcomes) == 1 <==> exists|i: int|
            0 <= i < outcomes.len() && #[trigger] outcomes[i] is Failed,
        exit_code_after(outcomes) == 0 <==> forall|i: int|
            0 <= i < outcomes.len() ==> #[trigger] outcomes[i] is Parsed,
    decreases outcomes.len(),
{
    if outcomes.len() > 0 {
        let pre = outcomes.drop_last();
        lemma_run_outcomes(pre);
        assert forall|i: int| 0 <= i < pre.len() implies #[trigger] pre[i] == outcomes[i] by {}
        if outcomes.last() is Failed {
            assert(outcomes[outcomes.len() - 1] is Failed);
        } else {
            assert(outcomes[outcomes.len() - 1] is Parsed);
            assert forall|i: int| 0 <= i < outcomes.len() && outcomes[i] is Failed implies 0 <= i
                < pre.len() && #[trigger] pre[i] is Failed by {}
            assert forall|i: int|
                0 <= i < pre.len() && pre[i] is Parsed implies #[trigger] outcomes[i] is Parsed by {}
        }
    }
}

/// The lines that open the report of a parsed file: its name, and the key
/// under which the listing or the dump follows.
pub open spec fn file_header_lines(path: Seq<char>, full_tree: bool) -> Seq<Seq<char>> {
    seq![
        "  - file_name: "@ + quoted(path),
        if full_tree {
            "    syntax_tree:"@
        } else {
            "    defs:"@
        },
    ]
}

/// The lines that open the report of the parsed file at `path`.
pub fn file_header(path: &str, full_tree: bool) -> (r: Vec<String>)
    ensures
        lines_view(r@) == file_header_lines(path@, full_tree),
{
    let mut out: Vec<String> = Vec::new();
    let a = field_line("  - file_name: ", path);
    let ghost a0 = a@;
    push_line(&mut out, a);
    let b = if full_tree {
        String::from_str("    syntax_tree:")
    } else {
        String::from_str("    defs:")
    };
    let ghost b0 = b@;
    push_line(&mut out, b);
    assert(lines_view(out@) =~= seq![a0, b0]);
    out
}

} // verus!
