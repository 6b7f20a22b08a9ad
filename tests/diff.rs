use gitu::diff::{parse_diff, FileKind, LineKind};

#[test]
fn diff_header_counts_that_cannot_reconcile_fail() {
    let text = "diff --git a/f.txt b/f.txt\nindex 1111111..2222222 100644\n--- a/f.txt\n+++ b/f.txt\n@@ -1,3 +1,4 @@\n-gone\n one\n two\n three\n+added\n";
    let e = parse_diff(text).unwrap_err();
    assert_eq!(e.line, 4);
    assert_eq!(e.text, "@@ -1,3 +1,4 @@");
}

#[test]
fn diff_hunk_reconciles_with_header() {
    let text = "diff --git a/f.txt b/f.txt\nindex 1111111..2222222 100644\n--- a/f.txt\n+++ b/f.txt\n@@ -1,3 +1,4 @@\n-gone\n one\n two\n+added\n+more\n";
    let d = parse_diff(text).unwrap();
    assert_eq!(d.files.len(), 1);
    let f = &d.files[0];
    assert_eq!(f.kind, FileKind::Modified);
    assert_eq!(f.old_path, Some("f.txt".to_string()));
    assert_eq!(f.new_path, Some("f.txt".to_string()));
    let h = &f.hunks[0];
    assert_eq!((h.old_start, h.old_count, h.new_start, h.new_count), (1, 3, 1, 4));
    let old = h.lines.iter().filter(|l| l.kind != LineKind::Added).count();
    let new = h.lines.iter().filter(|l| l.kind != LineKind::Removed).count();
    assert_eq!((old, new), (3, 4));
    assert_eq!(h.lines[0].kind, LineKind::Removed);
    assert_eq!(h.lines[0].text, "gone");
    assert_eq!(h.lines[1].kind, LineKind::Context);
    assert_eq!(h.lines[1].text, "one");
    assert_eq!(h.lines[4].text, "more");
}

#[test]
fn diff_empty_text_has_no_files() {
    assert!(parse_diff("").unwrap().files.is_empty());
}

#[test]
fn diff_added_and_deleted_files() {
    let text = "diff --git a/new.rs b/new.rs\nnew file mode 100644\nindex 0000000..1111111\n--- /dev/null\n+++ b/new.rs\n@@ -0,0 +1 @@\n+fn main() {}\ndiff --git a/old.rs b/old.rs\ndeleted file mode 100644\nindex 1111111..0000000\n--- a/old.rs\n+++ /dev/null\n@@ -1,2 +0,0 @@\n-a\n-b\n";
    let d = parse_diff(text).unwrap();
    assert_eq!(d.files.len(), 2);
    assert_eq!(d.files[0].kind, FileKind::Added);
    assert_eq!(d.files[0].old_path, None);
    assert_eq!(d.files[0].new_path, Some("new.rs".to_string()));
    let h = &d.files[0].hunks[0];
    assert_eq!((h.old_start, h.old_count, h.new_start, h.new_count), (0, 0, 1, 1));
    assert_eq!(d.files[1].kind, FileKind::Deleted);
    assert_eq!(d.files[1].new_path, None);
    assert_eq!(d.files[1].old_path, Some("old.rs".to_string()));
    assert_eq!(d.files[1].hunks[0].lines.len(), 2);
}

#[test]
fn diff_rename_and_copy() {
    let text = "diff --git a/a.txt b/b.txt\nsimilarity index 90%\nrename from a.txt\nrename to b.txt\ndiff --git a/c.txt b/d.txt\nsimilarity index 100%\ncopy from c.txt\ncopy to d.txt\n";
    let d = parse_diff(text).unwrap();
    assert_eq!(d.files[0].kind, FileKind::Renamed);
    assert_eq!(d.files[0].similarity, Some(90));
    assert_eq!(d.files[0].old_path, Some("a.txt".to_string()));
    assert_eq!(d.files[0].new_path, Some("b.txt".to_string()));
    assert!(d.files[0].hunks.is_empty());
    assert_eq!(d.files[1].kind, FileKind::Copied);
    assert_eq!(d.files[1].similarity, Some(100));
    assert_eq!(d.files[1].new_path, Some("d.txt".to_string()));
}

#[test]
fn diff_binary_file() {
    let text = "diff --git a/img.png b/img.png\nindex 1111111..2222222 100644\nBinary files a/img.png and b/img.png differ\n";
    let d = parse_diff(text).unwrap();
    assert_eq!(d.files.len(), 1);
    assert_eq!(d.files[0].kind, FileKind::Binary);
    assert!(d.files[0].hunks.is_empty());
}

#[test]
fn diff_no_newline_marker() {
    let text = "diff --git a/f b/f\n--- a/f\n+++ b/f\n@@ -1 +1 @@\n-x\n\\ No newline at end of file\n+y\n\\ No newline at end of file\n";
    let d = parse_diff(text).unwrap();
    let h = &d.files[0].hunks[0];
    assert_eq!(h.lines.len(), 2);
    assert!(h.lines[0].no_newline_at_eof);
    assert!(h.lines[1].no_newline_at_eof);
    assert_eq!(h.lines[1].text, "y");
}

#[test]
fn diff_bad_body_line_is_error() {
    let text = "diff --git a/f b/f\n--- a/f\n+++ b/f\n@@ -1 +1 @@\n-x\n?y\n";
    let e = parse_diff(text).unwrap_err();
    assert_eq!(e.line, 5);
    assert_eq!(e.text, "?y");
}

#[test]
fn diff_bad_hunk_header_is_error() {
    let e = parse_diff("diff --git a/f b/f\n@@ -a,1 +1 @@\n").unwrap_err();
    assert_eq!(e.line, 1);
}

#[test]
fn diff_commit_preamble_is_skipped() {
    let text = "commit 0123456789abcdef\nAuthor: A <a@b>\n\n    message\n\ndiff --git a/f b/f\n--- a/f\n+++ b/f\n@@ -2,2 +2,2 @@ fn f() {\n a\n-b\n+c\n";
    let d = parse_diff(text).unwrap();
    assert_eq!(d.files.len(), 1);
    let h = &d.files[0].hunks[0];
    assert_eq!((h.old_start, h.old_count, h.new_start, h.new_count), (2, 2, 2, 2));
}

#[test]
fn diff_two_hunks_and_dashes_inside_body() {
    let text = "diff --git a/f b/f\n--- a/f\n+++ b/f\n@@ -1 +1 @@\n--- a/x\n+++ b/x\n@@ -10,1 +10,1 @@\n-p\n+q\n";
    let d = parse_diff(text).unwrap();
    let f = &d.files[0];
    assert_eq!(f.hunks.len(), 2);
    assert_eq!(f.hunks[0].lines[0].kind, LineKind::Removed);
    assert_eq!(f.hunks[0].lines[0].text, "-- a/x");
    assert_eq!(f.hunks[1].old_start, 10);
}

#[test]
fn diff_parse_twice_is_equal() {
    let text = "diff --git a/f b/f\n--- a/f\n+++ b/f\n@@ -1,2 +1,2 @@\n a\n-b\n+c\ndiff --git a/g b/g\nBinary files a/g and b/g differ\n";
    assert_eq!(parse_diff(text).unwrap(), parse_diff(text).unwrap());
}

#[test]
fn diff_bad_file_header_is_error() {
    let e = parse_diff("diff --git nothing\n").unwrap_err();
    assert_eq!(e.line, 0);
}

#[test]
fn diff_quoted_paths_are_unquoted() {
    let text = "diff --git \"a/caf\\303\\251\" \"b/caf\\303\\251\"\nindex 1111111..2222222 100644\n--- \"a/caf\\303\\251\"\n+++ \"b/caf\\303\\251\"\n@@ -1 +1 @@\n-a\n+b\n";
    let d = parse_diff(text).unwrap();
    assert_eq!(d.files[0].old_path, Some("café".to_string()));
    assert_eq!(d.files[0].new_path, Some("café".to_string()));
}

#[test]
fn diff_backslash_line_that_is_not_the_marker_is_error() {
    let text = "diff --git a/f b/f\n--- a/f\n+++ b/f\n@@ -1 +1 @@\n x\n\\y\n";
    let e = parse_diff(text).unwrap_err();
    assert_eq!(e.line, 5);
    assert_eq!(e.text, "\\y");
}

#[test]
fn diff_renamed_binary_keeps_rename() {
    let text = "diff --git a/a.png b/b.png\nsimilarity index 80%\nrename from a.png\nrename to b.png\nindex 1111111..2222222 100644\nBinary files a/a.png and b/b.png differ\n";
    let d = parse_diff(text).unwrap();
    assert_eq!(d.files[0].kind, FileKind::Renamed);
    assert_eq!(d.files[0].similarity, Some(80));
    assert_eq!(d.files[0].old_path, Some("a.png".to_string()));
    assert_eq!(d.files[0].new_path, Some("b.png".to_string()));
}

#[test]
fn diff_rename_without_similarity_is_error() {
    let e = parse_diff("diff --git a/a b/b\nrename from a\nrename to b\n").unwrap_err();
    assert_eq!(e.line, 1);
}

#[test]
fn diff_quoted_rename_paths_are_unquoted() {
    let text = "diff --git \"a/x\\ty\" \"b/z\\ty\"\nsimilarity index 100%\nrename from \"x\\ty\"\nrename to \"z\\ty\"\n";
    let d = parse_diff(text).unwrap();
    assert_eq!(d.files[0].old_path, Some("x\ty".to_string()));
    assert_eq!(d.files[0].new_path, Some("z\ty".to_string()));
}

#[test]
fn diff_crlf_lines() {
    let text = "diff --git a/f b/f\r\n--- a/f\r\n+++ b/f\r\n@@ -1 +1 @@\r\n-a\r\n+b\r\n";
    let d = parse_diff(text).unwrap();
    assert_eq!(d.files[0].new_path, Some("f".to_string()));
    assert_eq!(d.files[0].hunks[0].lines[1].text, "b");
}
