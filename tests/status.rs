use gitu::status::{parse_status, Branch, ChangeKind};

#[test]
fn status_tracking_ahead_scenario() {
    let s = parse_status("## main...origin/main [ahead 2]\nM  foo.txt\n?? bar.txt\n").unwrap();
    assert_eq!(s.branch, Branch::Named("main".to_string()));
    assert_eq!(s.upstream, Some("origin/main".to_string()));
    assert_eq!(s.ahead, 2);
    assert_eq!(s.behind, 0);
    assert_eq!(s.entries.len(), 2);
    assert_eq!(s.entries[0].path, "foo.txt");
    assert_eq!(s.entries[0].staged_kind, Some(ChangeKind::Modified));
    assert_eq!(s.entries[0].unstaged_kind, None);
    assert!(!s.entries[0].is_untracked);
    assert_eq!(s.entries[1].path, "bar.txt");
    assert!(s.entries[1].is_untracked);
    assert_eq!(s.entries[1].staged_kind, None);
}

#[test]
fn status_header_without_upstream() {
    let s = parse_status("## feature/x\n").unwrap();
    assert_eq!(s.branch, Branch::Named("feature/x".to_string()));
    assert_eq!(s.upstream, None);
    assert_eq!((s.ahead, s.behind), (0, 0));
    assert!(s.entries.is_empty());
}

#[test]
fn status_header_upstream_no_counts() {
    let s = parse_status("## main...origin/main\n").unwrap();
    assert_eq!(s.upstream, Some("origin/main".to_string()));
    assert_eq!((s.ahead, s.behind), (0, 0));
}

#[test]
fn status_header_behind_only() {
    let s = parse_status("## dev...up/dev [behind 13]\n").unwrap();
    assert_eq!(s.branch, Branch::Named("dev".to_string()));
    assert_eq!(s.upstream, Some("up/dev".to_string()));
    assert_eq!((s.ahead, s.behind), (0, 13));
}

#[test]
fn status_header_ahead_and_behind() {
    let s = parse_status("## main...origin/main [ahead 1, behind 4]\n").unwrap();
    assert_eq!((s.ahead, s.behind), (1, 4));
}

#[test]
fn status_header_detached() {
    let s = parse_status("## HEAD (no branch)\nA  new.rs\n").unwrap();
    assert_eq!(s.branch, Branch::Detached);
    assert_eq!(s.upstream, None);
    assert_eq!(s.entries[0].staged_kind, Some(ChangeKind::Added));
}

#[test]
fn status_header_unborn() {
    let s = parse_status("## No commits yet on main\n").unwrap();
    assert_eq!(s.branch, Branch::Unborn("main".to_string()));
}

#[test]
fn status_bad_header_is_error() {
    let e = parse_status("main...origin/main\n").unwrap_err();
    assert_eq!(e.line, 0);
    assert_eq!(e.text, "main...origin/main");
    let e = parse_status("## main...origin/main [gone]\n").unwrap_err();
    assert_eq!(e.line, 0);
}

#[test]
fn status_empty_text_is_error() {
    let e = parse_status("").unwrap_err();
    assert_eq!(e.line, 0);
}

#[test]
fn status_unknown_letter_is_error() {
    let e = parse_status("## main\nM  ok.txt\nX  odd.txt\n").unwrap_err();
    assert_eq!(e.line, 2);
    assert_eq!(e.text, "X  odd.txt");
    let e = parse_status("## main\n!! ignored\n").unwrap_err();
    assert_eq!(e.line, 1);
}

#[test]
fn status_partially_staged() {
    let s = parse_status("## main\nMM both.txt\n D gone.txt\n").unwrap();
    assert_eq!(s.entries[0].staged_kind, Some(ChangeKind::Modified));
    assert_eq!(s.entries[0].unstaged_kind, Some(ChangeKind::Modified));
    assert_eq!(s.entries[1].staged_kind, None);
    assert_eq!(s.entries[1].unstaged_kind, Some(ChangeKind::Deleted));
}

#[test]
fn status_conflicts() {
    let s = parse_status("## main\nUU a.txt\nAA b.txt\nDD c.txt\n").unwrap();
    for e in &s.entries {
        assert!(e.is_conflicted);
        assert!(!e.is_untracked);
        assert_eq!(e.staged_kind, None);
        assert_eq!(e.unstaged_kind, None);
    }
}

#[test]
fn status_rename_splits_paths() {
    let s = parse_status("## main\nR  old name.txt -> new.txt\nC  a.txt -> b.txt\n").unwrap();
    assert_eq!(s.entries[0].rename_from, Some("old name.txt".to_string()));
    assert_eq!(s.entries[0].path, "new.txt");
    assert_eq!(s.entries[0].staged_kind, Some(ChangeKind::Renamed));
    assert_eq!(s.entries[1].staged_kind, Some(ChangeKind::Copied));
    assert_eq!(s.entries[1].rename_from, Some("a.txt".to_string()));
}

#[test]
fn status_quoted_paths_are_unquoted() {
    let s = parse_status("## main\n?? \"a \\\"b\\\"\\tc\"\n M \"caf\\303\\251.txt\"\n").unwrap();
    assert_eq!(s.entries[0].path, "a \"b\"\tc");
    assert_eq!(s.entries[1].path, "café.txt");
}

#[test]
fn status_bad_quoting_is_error() {
    let e = parse_status("## main\n?? \"bad\\q\"\n").unwrap_err();
    assert_eq!(e.line, 1);
    let e = parse_status("## main\n?? \"\\377\"\n").unwrap_err();
    assert_eq!(e.line, 1);
}

#[test]
fn status_both_spaces_is_error() {
    let e = parse_status("## main\n   x\n").unwrap_err();
    assert_eq!(e.line, 1);
}

#[test]
fn status_unknown_letter_beside_question_or_u_is_error() {
    for line in ["?Z f", "Z? f", "UZ f", "ZU f", "?! f", "T  f"] {
        let text = format!("## main\n{}\n", line);
        let e = parse_status(&text).unwrap_err();
        assert_eq!(e.line, 1);
    }
}

#[test]
fn status_all_unmerged_pairs_are_conflicts() {
    let s = parse_status("## main\nDD a\nAU b\nUD c\nUA d\nDU e\nAA f\nUU g\n").unwrap();
    assert_eq!(s.entries.len(), 7);
    assert!(s.entries.iter().all(|e| e.is_conflicted && !e.is_untracked));
}

#[test]
fn status_crlf_lines() {
    let s = parse_status("## main\r\nM  a.txt\r\n").unwrap();
    assert_eq!(s.branch, Branch::Named("main".to_string()));
    assert_eq!(s.entries[0].path, "a.txt");
}

#[test]
fn status_question_or_u_in_either_position() {
    let s = parse_status("## main\n?M a\nM? b\nUM c\nMU d\nU  e\n").unwrap();
    for e in &s.entries[..2] {
        assert!(e.is_untracked && !e.is_conflicted);
        assert_eq!((e.staged_kind, e.unstaged_kind), (None, None));
    }
    for e in &s.entries[2..] {
        assert!(e.is_conflicted && !e.is_untracked);
        assert_eq!((e.staged_kind, e.unstaged_kind), (None, None));
    }
}

#[test]
fn status_quoted_path_with_raw_unicode() {
    let s = parse_status("## main\n?? \"caf\u{e9} \u{1F600}\\tx\"\n").unwrap();
    assert_eq!(s.entries[0].path, "caf\u{e9} \u{1F600}\tx");
}
