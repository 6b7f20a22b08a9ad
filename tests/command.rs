use gitu::cli::Commands;
use gitu::command::decode_output;
use gitu::error::GitError;
use gitu::command::{
    diff, diff_staged, log_recent, rebase_autosquash_cmd, rebase_interactive_cmd, stage_file_cmd, status,
    OutputKind,
};

fn strs(v: &[String]) -> Vec<&str> {
    v.iter().map(|s| s.as_str()).collect()
}

#[test]
fn capture_commands_have_templates() {
    let c = status();
    assert_eq!(strs(&c.args), vec!["status", "--porcelain", "--branch"]);
    assert_eq!(c.output, OutputKind::Status);
    assert_eq!(strs(&diff_staged().args), vec!["diff", "--staged"]);
    assert_eq!(strs(&log_recent().args), vec!["log", "-n", "5", "--oneline", "--decorate", "--color"]);
}

#[test]
fn extra_arguments_are_appended_verbatim() {
    let c = diff(&vec!["HEAD~1".to_string(), "--".to_string(), "a b".to_string()]);
    assert_eq!(strs(&c.args), vec!["diff", "HEAD~1", "--", "a b"]);
    assert_eq!(c.output, OutputKind::Diff);
}

#[test]
fn interactive_rebases_autostash() {
    assert_eq!(strs(&rebase_interactive_cmd("main").args), vec!["rebase", "-i", "--autostash", "main"]);
    assert_eq!(
        strs(&rebase_autosquash_cmd("main").args),
        vec!["rebase", "-i", "--autosquash", "--keep-empty", "--autostash", "main"]
    );
    assert_eq!(strs(&stage_file_cmd("f.txt").args), vec!["add", "f.txt"]);
}

#[test]
fn cli_commands_map_to_invocations() {
    let c = Commands::Show { reference: "HEAD".to_string() }.capture();
    assert_eq!(strs(&c.args), vec!["show", "HEAD"]);
    let c = Commands::Log { git_log_args: vec!["-3".to_string()] }.capture();
    assert_eq!(strs(&c.args), vec!["log", "--oneline", "--decorate", "--color", "-3"]);
    assert_eq!(c.output, OutputKind::Text);
}

#[test]
fn output_decoding() {
    assert_eq!(decode_output(vec![b'o', b'k', 0xc3, 0xa9]).unwrap(), "oké");
    assert!(matches!(decode_output(vec![0xff, b'a']), Err(GitError::Encoding)));
}
