//! The command line of the front end, as plain values.
use vstd::prelude::*;
use crate::command::{arg_views, diff, log, show, CaptureCommand, OutputKind};

verus! {

/// The options of the front end.
#[derive(Clone, Debug, PartialEq, Eq)]
pub struct Args {
    pub command: Option<Commands>,
    pub status: bool,
    pub exit_immediately: bool,
}

/// A command given on the command line instead of the interactive view.
#[derive(Clone, Debug, PartialEq, Eq)]
pub enum Commands {
    Show { reference: String },
    Log { git_log_args: Vec<String> },
    Diff { git_diff_args: Vec<String> },
}

impl Commands {
    /// The `git` invocation that the command stands for.
    pub fn capture(&self) -> (r: CaptureCommand)
        ensures
            match self {
                Commands::Show { reference } => arg_views(r.args@) == seq!["show"@, reference@]
                    && r.output == OutputKind::Diff,
                Commands::Log { git_log_args } => arg_views(r.args@) == seq!["log"@, "--oneline"@, "--decorate"@, "--color"@]
                    + arg_views(git_log_args@) && r.output == OutputKind::Text,
                Commands::Diff { git_diff_args } => arg_views(r.args@) == seq!["diff"@] + arg_views(git_diff_args@)
                    && r.output == OutputKind::Diff,
            },
    {
        match self {
            Commands::Show { reference } => {
                let mut extra: Vec<String> = Vec::new();
                extra.push(reference.clone());
                assert(arg_views(extra@) =~= seq![reference@]);
                assert(seq!["show"@] + seq![reference@] =~= seq!["show"@, reference@]);
                show(&extra)
            },
            Commands::Log { git_log_args } => log(git_log_args),
            Commands::Diff { git_diff_args } => diff(git_diff_args),
        }
    }
}

} // verus!
