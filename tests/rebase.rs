use gitu::error::GitError;
use gitu::rebase::{branch_name, parse_refs, rebase_status, resolve_rebase};

const REFS: &str = "1111111111111111111111111111111111111111 main\nabcdef0123456789abcdef0123456789abcdef01 feature\n";

#[test]
fn rebase_absent_onto_file_is_none() {
    assert_eq!(rebase_status(None, None, REFS).unwrap(), None);
    assert_eq!(rebase_status(None, Some("refs/heads/x".to_string()), REFS).unwrap(), None);
}

#[test]
fn rebase_onto_matching_ref_is_named() {
    let st = rebase_status(
        Some("abcdef0123456789abcdef0123456789abcdef01\n".to_string()),
        Some("refs/heads/topic\n".to_string()),
        REFS,
    )
    .unwrap()
    .unwrap();
    assert_eq!(st.onto, "feature");
    assert_eq!(st.head_name, "topic");
}

#[test]
fn rebase_onto_without_ref_is_abbreviated() {
    let st = rebase_status(
        Some("  abcdef0123456789\n".to_string()),
        Some("refs/heads/topic".to_string()),
        "2222222222 main\n",
    )
    .unwrap()
    .unwrap();
    assert_eq!(st.onto, "abcdef0");
}

#[test]
fn rebase_missing_head_name_is_error() {
    let r = rebase_status(Some("abcdef0123".to_string()), None, REFS);
    assert!(matches!(r, Err(GitError::MissingRef(_))));
}

#[test]
fn rebase_head_name_without_prefix_is_error() {
    let r = resolve_rebase("abcdef0123", "topic", REFS);
    assert!(matches!(r, Err(GitError::Parse(_))));
}

#[test]
fn rebase_short_unknown_hash_is_error() {
    let r = resolve_rebase("abc", "refs/heads/topic", "");
    assert!(matches!(r, Err(GitError::Parse(_))));
}

#[test]
fn branch_name_takes_first_match() {
    assert_eq!(branch_name(REFS, "1111"), Some("main".to_string()));
    assert_eq!(branch_name(REFS, "abcdef0"), Some("feature".to_string()));
    assert_eq!(branch_name(REFS, "9999"), None);
}

#[test]
fn refs_listing_rows() {
    let rows = parse_refs("main origin/main Fix the thing\ntopic  WIP: more words\n").unwrap();
    assert_eq!(rows.len(), 2);
    assert_eq!(rows[0], ("main".to_string(), "origin/main".to_string(), "Fix the thing".to_string()));
    assert_eq!(rows[1], ("topic".to_string(), "".to_string(), "WIP: more words".to_string()));
    let e = parse_refs("main origin/main x\nbroken\n").unwrap_err();
    assert_eq!(e.line, 1);
}

#[test]
fn branch_name_crlf_listing() {
    assert_eq!(branch_name("abc123 main\r\n", "abc"), Some("main".to_string()));
}

#[test]
fn rebase_trims_unicode_white_space() {
    let st = rebase_status(
        Some("\u{a0}abcdef0123456789\u{3000}\n".to_string()),
        Some("\trefs/heads/topic ".to_string()),
        "",
    )
    .unwrap()
    .unwrap();
    assert_eq!(st.onto, "abcdef0");
    assert_eq!(st.head_name, "topic");
}

#[test]
fn rebase_short_or_empty_hash_is_error_even_with_refs() {
    assert!(matches!(resolve_rebase("1111", "refs/heads/x", REFS), Err(GitError::Parse(_))));
    assert!(matches!(resolve_rebase("", "refs/heads/x", REFS), Err(GitError::Parse(_))));
    let r = rebase_status(Some("\n".to_string()), Some("refs/heads/x".to_string()), REFS);
    assert!(matches!(r, Err(GitError::Parse(_))));
}
