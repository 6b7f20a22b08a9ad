//! Argument vectors for the `git` invocations: commands whose output is
//! captured and parsed, and commands that the caller runs on its terminal.
use vstd::prelude::*;
use vstd::utf8::{decode_utf8, valid_utf8};
use crate::error::GitError;
use crate::text::string_from_utf8;

verus! {

/// How the output of a captured command is read.
#[derive(Clone, Copy, Debug, PartialEq, Eq, Structural)]
pub enum OutputKind {
    /// Unified-diff text, for `parse_diff`.
    Diff,
    /// Porcelain status text, for `parse_status`.
    Status,
    /// A listing of branches, for `parse_refs`.
    Refs,
    /// Text shown as it is.
    Text,
}

/// A `git` command whose standard output is captured; `args` follow the
/// program name.
#[derive(Clone, Debug, PartialEq, Eq)]
pub struct CaptureCommand {
    pub args: Vec<String>,
    pub output: OutputKind,
}

/// A `git` command that needs the caller's terminal, editor or credentials, or
/// whose effect the caller inspects afterwards; `args` follow the program name.
#[derive(Clone, Debug, PartialEq, Eq)]
pub struct InteractiveCommand {
    pub args: Vec<String>,
}

pub open spec fn arg_views(v: Seq<String>) -> Seq<Seq<char>> {
    v.map_values(|s: String| s@)
}

fn push_arg(v: &mut Vec<String>, a: &str)
    ensures
        arg_views(final(v)@) == arg_views(old(v)@).push(a@),
{
    let ghost before = v@;
    v.push(String::from_str(a));
    assert(arg_views(v@) =~= arg_views(before).push(a@));
}

/// `base` followed by the extra arguments, verbatim.
fn with_extra(base: Vec<String>, extra: &Vec<String>) -> (r: Vec<String>)
    ensures
        arg_views(r@) == arg_views(base@) + arg_views(extra@),
{
    let mut r = base;
    let ghost b = arg_views(base@);
    let mut i: usize = 0;
    assert(b + arg_views(extra@).take(0) =~= b);
    while i < extra.len()
        invariant
            i <= extra@.len(),
            arg_views(r@) == b + arg_views(extra@).take(i as int),
        decreases extra@.len() - i,
    {
        let ghost before = r@;
        let c = extra[i].clone();
        assert(c@ == arg_views(extra@)[i as int]);
        r.push(c);
        assert(arg_views(r@) =~= arg_views(before).push(c@));
        assert(arg_views(r@) =~= b + arg_views(extra@).take(i + 1));
        i += 1;
    }
    assert(arg_views(extra@).take(i as int) =~= arg_views(extra@));
    r
}

fn args1(a: &str) -> (r: Vec<String>)
    ensures
        arg_views(r@) == seq![a@],
{
    let mut v: Vec<String> = Vec::new();
    push_arg(&mut v, a);
    assert(arg_views(Seq::<String>::empty()).push(a@) =~= seq![a@]);
    v
}

fn args2(a: &str, b: &str) -> (r: Vec<String>)
    ensures
        arg_views(r@) == seq![a@, b@],
{
    let mut v = args1(a);
    push_arg(&mut v, b);
    assert(seq![a@].push(b@) =~= seq![a@, b@]);
    v
}

fn args3(a: &str, b: &str, c: &str) -> (r: Vec<String>)
    ensures
        arg_views(r@) == seq![a@, b@, c@],
{
    let mut v = args2(a, b);
    push_arg(&mut v, c);
    assert(seq![a@, b@].push(c@) =~= seq![a@, b@, c@]);
    v
}

fn args4(a: &str, b: &str, c: &str, d: &str) -> (r: Vec<String>)
    ensures
        arg_views(r@) == seq![a@, b@, c@, d@],
{
    let mut v = args3(a, b, c);
    push_arg(&mut v, d);
    assert(seq![a@, b@, c@].push(d@) =~= seq![a@, b@, c@, d@]);
    v
}

/// Unstaged changes, or a diff chosen by extra arguments.
pub fn diff(extra: &Vec<String>) -> (r: CaptureCommand)
    ensures
        arg_views(r.args@) == seq!["diff"@] + arg_views(extra@),
        r.output == OutputKind::Diff,
{
    let v = args1("diff");
    CaptureCommand { args: with_extra(v, extra), output: OutputKind::Diff }
}

/// Changes in the working tree that are not staged.
pub fn diff_unstaged() -> (r: CaptureCommand)
    ensures
        arg_views(r.args@) == seq!["diff"@],
        r.output == OutputKind::Diff,
{
    let v = args1("diff");
    CaptureCommand { args: v, output: OutputKind::Diff }
}

/// Changes staged in the index.
pub fn diff_staged() -> (r: CaptureCommand)
    ensures
        arg_views(r.args@) == seq!["diff"@, "--staged"@],
        r.output == OutputKind::Diff,
{
    let v = args2("diff", "--staged");
    CaptureCommand { args: v, output: OutputKind::Diff }
}

/// The branch and the changed paths, in porcelain form.
pub fn status() -> (r: CaptureCommand)
    ensures
        arg_views(r.args@) == seq!["status"@, "--porcelain"@, "--branch"@],
        r.output == OutputKind::Status,
{
    let v = args3("status", "--porcelain", "--branch");
    CaptureCommand { args: v, output: OutputKind::Status }
}

/// The diff of a commit.
pub fn show(extra: &Vec<String>) -> (r: CaptureCommand)
    ensures
        arg_views(r.args@) == seq!["show"@] + arg_views(extra@),
        r.output == OutputKind::Diff,
{
    let v = args1("show");
    CaptureCommand { args: with_extra(v, extra), output: OutputKind::Diff }
}

/// A commit's summary, decorated and coloured, for display.
pub fn show_summary(extra: &Vec<String>) -> (r: CaptureCommand)
    ensures
        arg_views(r.args@) == seq!["show"@, "--summary"@, "--decorate"@, "--color"@] + arg_views(extra@),
        r.output == OutputKind::Text,
{
    let v = args4("show", "--summary", "--decorate", "--color");
    CaptureCommand { args: with_extra(v, extra), output: OutputKind::Text }
}

/// The five most recent commits, one line each, for display.
pub fn log_recent() -> (r: CaptureCommand)
    ensures
        arg_views(r.args@) == seq!["log"@, "-n"@, "5"@, "--oneline"@, "--decorate"@, "--color"@],
        r.output == OutputKind::Text,
{
    let mut v = args4("log", "-n", "5", "--oneline");
    push_arg(&mut v, "--decorate");
    assert(seq!["log"@, "-n"@, "5"@, "--oneline"@].push("--decorate"@) =~= seq!["log"@, "-n"@, "5"@, "--oneline"@, "--decorate"@]);
    push_arg(&mut v, "--color");
    assert(seq!["log"@, "-n"@, "5"@, "--oneline"@, "--decorate"@].push("--color"@) =~= seq!["log"@, "-n"@, "5"@, "--oneline"@, "--decorate"@, "--color"@]);
    CaptureCommand { args: v, output: OutputKind::Text }
}

/// Commits one line each, for display.
pub fn log(extra: &Vec<String>) -> (r: CaptureCommand)
    ensures
        arg_views(r.args@) == seq!["log"@, "--oneline"@, "--decorate"@, "--color"@] + arg_views(extra@),
        r.output == OutputKind::Text,
{
    let v = args4("log", "--oneline", "--decorate", "--color");
    CaptureCommand { args: with_extra(v, extra), output: OutputKind::Text }
}

/// Local branches, newest first, with upstream and subject.
pub fn show_refs() -> (r: CaptureCommand)
    ensures
        arg_views(r.args@) == seq!["for-each-ref"@, "--sort"@, "-creatordate"@, "--format"@, "%(refname:short) %(upstream:short) %(subject)"@, "refs/heads"@],
        r.output == OutputKind::Refs,
{
    let mut v = args4("for-each-ref", "--sort", "-creatordate", "--format");
    push_arg(&mut v, "%(refname:short) %(upstream:short) %(subject)");
    assert(seq!["for-each-ref"@, "--sort"@, "-creatordate"@, "--format"@].push("%(refname:short) %(upstream:short) %(subject)"@) =~= seq!["for-each-ref"@, "--sort"@, "-creatordate"@, "--format"@, "%(refname:short) %(upstream:short) %(subject)"@]);
    push_arg(&mut v, "refs/heads");
    assert(seq!["for-each-ref"@, "--sort"@, "-creatordate"@, "--format"@, "%(refname:short) %(upstream:short) %(subject)"@].push("refs/heads"@) =~= seq!["for-each-ref"@, "--sort"@, "-creatordate"@, "--format"@, "%(refname:short) %(upstream:short) %(subject)"@, "refs/heads"@]);
    CaptureCommand { args: v, output: OutputKind::Refs }
}

/// Every ref with its hash, to name a commit.
pub fn list_refs() -> (r: CaptureCommand)
    ensures
        arg_views(r.args@) == seq!["for-each-ref"@, "--format"@, "%(objectname) %(refname:short)"@],
        r.output == OutputKind::Text,
{
    let v = args3("for-each-ref", "--format", "%(objectname) %(refname:short)");
    CaptureCommand { args: v, output: OutputKind::Text }
}

/// Stages a file.
pub fn stage_file_cmd(file: &str) -> (r: InteractiveCommand)
    ensures
        arg_views(r.args@) == seq!["add"@, file@],
{
    InteractiveCommand { args: args2("add", file) }
}

/// Stages the patch given on standard input.
pub fn stage_patch_cmd() -> (r: InteractiveCommand)
    ensures
        arg_views(r.args@) == seq!["apply"@, "--cached"@],
{
    InteractiveCommand { args: args2("apply", "--cached") }
}

/// Unstages a file.
pub fn unstage_file_cmd(file: &str) -> (r: InteractiveCommand)
    ensures
        arg_views(r.args@) == seq!["restore"@, "--staged"@, file@],
{
    InteractiveCommand { args: args3("restore", "--staged", file) }
}

/// Unstages the patch given on standard input.
pub fn unstage_patch_cmd() -> (r: InteractiveCommand)
    ensures
        arg_views(r.args@) == seq!["apply"@, "--cached"@, "--reverse"@],
{
    InteractiveCommand { args: args3("apply", "--cached", "--reverse") }
}

/// Discards the unstaged patch given on standard input.
pub fn discard_unstaged_patch_cmd() -> (r: InteractiveCommand)
    ensures
        arg_views(r.args@) == seq!["apply"@, "--reverse"@],
{
    InteractiveCommand { args: args2("apply", "--reverse") }
}

/// Commits, with the editor for the message.
pub fn commit_cmd() -> (r: InteractiveCommand)
    ensures
        arg_views(r.args@) == seq!["commit"@],
{
    InteractiveCommand { args: args1("commit") }
}

/// Amends the last commit.
pub fn commit_amend_cmd() -> (r: InteractiveCommand)
    ensures
        arg_views(r.args@) == seq!["commit"@, "--amend"@],
{
    InteractiveCommand { args: args2("commit", "--amend") }
}

/// Commits a fixup of a commit.
pub fn commit_fixup_cmd(reference: &str) -> (r: InteractiveCommand)
    ensures
        arg_views(r.args@) == seq!["commit"@, "--fixup"@, reference@],
{
    InteractiveCommand { args: args3("commit", "--fixup", reference) }
}

/// Pushes.
pub fn push_cmd() -> (r: InteractiveCommand)
    ensures
        arg_views(r.args@) == seq!["push"@],
{
    InteractiveCommand { args: args1("push") }
}

/// Pulls.
pub fn pull_cmd() -> (r: InteractiveCommand)
    ensures
        arg_views(r.args@) == seq!["pull"@],
{
    InteractiveCommand { args: args1("pull") }
}

/// Fetches every remote.
pub fn fetch_all_cmd() -> (r: InteractiveCommand)
    ensures
        arg_views(r.args@) == seq!["fetch"@, "--all"@],
{
    InteractiveCommand { args: args2("fetch", "--all") }
}

/// Starts an interactive rebase; local changes are stashed around it.
pub fn rebase_interactive_cmd(reference: &str) -> (r: InteractiveCommand)
    ensures
        arg_views(r.args@) == seq!["rebase"@, "-i"@, "--autostash"@, reference@],
{
    InteractiveCommand { args: args4("rebase", "-i", "--autostash", reference) }
}

/// Starts an interactive rebase that squashes fixups; local changes are stashed around it.
pub fn rebase_autosquash_cmd(reference: &str) -> (r: InteractiveCommand)
    ensures
        arg_views(r.args@) == seq!["rebase"@, "-i"@, "--autosquash"@, "--keep-empty"@, "--autostash"@, reference@],
{
    let mut v = args4("rebase", "-i", "--autosquash", "--keep-empty");
    push_arg(&mut v, "--autostash");
    assert(seq!["rebase"@, "-i"@, "--autosquash"@, "--keep-empty"@].push("--autostash"@) =~= seq!["rebase"@, "-i"@, "--autosquash"@, "--keep-empty"@, "--autostash"@]);
    push_arg(&mut v, reference);
    assert(seq!["rebase"@, "-i"@, "--autosquash"@, "--keep-empty"@, "--autostash"@].push(reference@) =~= seq!["rebase"@, "-i"@, "--autosquash"@, "--keep-empty"@, "--autostash"@, reference@]);
    InteractiveCommand { args: v }
}

/// Continues a rebase.
pub fn rebase_continue_cmd() -> (r: InteractiveCommand)
    ensures
        arg_views(r.args@) == seq!["rebase"@, "--continue"@],
{
    InteractiveCommand { args: args2("rebase", "--continue") }
}

/// Aborts a rebase.
pub fn rebase_abort_cmd() -> (r: InteractiveCommand)
    ensures
        arg_views(r.args@) == seq!["rebase"@, "--abort"@],
{
    InteractiveCommand { args: args2("rebase", "--abort") }
}

/// Restores a file from the index.
pub fn checkout_file_cmd(file: &str) -> (r: InteractiveCommand)
    ensures
        arg_views(r.args@) == seq!["checkout"@, "--"@, file@],
{
    InteractiveCommand { args: args3("checkout", "--", file) }
}

/// Checks out a ref.
pub fn checkout_ref_cmd(reference: &str) -> (r: InteractiveCommand)
    ensures
        arg_views(r.args@) == seq!["checkout"@, reference@],
{
    InteractiveCommand { args: args2("checkout", reference) }
}

/// The text of what a captured command printed: an encoding error where the
/// bytes are not UTF-8.
pub fn decode_output(out: Vec<u8>) -> (r: Result<String, GitError>)
    ensures
        valid_utf8(out@) <==> r is Ok,
        r matches Ok(s) ==> s@ == decode_utf8(out@),
        r matches Err(e) ==> e is Encoding,
{
    match string_from_utf8(out) {
        Some(s) => Ok(s),
        None => Err(GitError::Encoding),
    }
}

} // verus!
