//! The unified-diff parser: the text that `git diff` and `git show` print,
//! read into files, hunks and lines.
use vstd::prelude::*;
use crate::error::ParseError;
use crate::status::{line_at, line_text, opt_view, unquote, unquote_spec};
use crate::text::{
    chars_of, digits_value, find, find_in, is_number, is_prefix, lemma_find_bound, lines_of, parse_number,
    slice, split_lines, starts_with_at, string_of, strip, strip_prefix, views,
};

verus! {

/// The role of one line of a hunk.
#[derive(Clone, Copy, Debug, PartialEq, Eq, Structural)]
pub enum LineKind {
    Context,
    Added,
    Removed,
}

/// How a file changed.
#[derive(Clone, Copy, Debug, PartialEq, Eq, Structural)]
pub enum FileKind {
    Added,
    Deleted,
    Modified,
    Renamed,
    Copied,
    Binary,
}

/// One line of a hunk, without its prefix character and newline.
#[derive(Clone, Debug, PartialEq, Eq)]
pub struct Line {
    pub kind: LineKind,
    pub text: String,
    pub no_newline_at_eof: bool,
}

/// A region of changed lines with the line numbers and lengths of its header.
#[derive(Clone, Debug, PartialEq, Eq)]
pub struct Hunk {
    pub old_start: u64,
    pub old_count: u64,
    pub new_start: u64,
    pub new_count: u64,
    pub lines: Vec<Line>,
}

/// The change of one file.
#[derive(Clone, Debug, PartialEq, Eq)]
pub struct FileChange {
    pub old_path: Option<String>,
    pub new_path: Option<String>,
    pub kind: FileKind,
    pub similarity: Option<u64>,
    pub hunks: Vec<Hunk>,
}

/// The files of a diff, in the order in which the text lists them.
#[derive(Clone, Debug, PartialEq, Eq)]
pub struct Diff {
    pub files: Vec<FileChange>,
}

pub struct LineModel {
    pub kind: LineKind,
    pub text: Seq<char>,
    pub no_newline_at_eof: bool,
}

pub struct HunkModel {
    pub old_start: u64,
    pub old_count: u64,
    pub new_start: u64,
    pub new_count: u64,
    pub lines: Seq<LineModel>,
}

pub struct FileModel {
    pub old_path: Option<Seq<char>>,
    pub new_path: Option<Seq<char>>,
    pub kind: FileKind,
    pub similarity: Option<u64>,
    pub hunks: Seq<HunkModel>,
}

impl View for Line {
    type V = LineModel;

    open spec fn view(&self) -> LineModel {
        LineModel { kind: self.kind, text: self.text@, no_newline_at_eof: self.no_newline_at_eof }
    }
}

pub open spec fn line_views(ls: Seq<Line>) -> Seq<LineModel> {
    ls.map_values(|l: Line| l@)
}

impl View for Hunk {
    type V = HunkModel;

    open spec fn view(&self) -> HunkModel {
        HunkModel {
            old_start: self.old_start,
            old_count: self.old_count,
            new_start: self.new_start,
            new_count: self.new_count,
            lines: line_views(self.lines@),
        }
    }
}

pub open spec fn hunk_views(hs: Seq<Hunk>) -> Seq<HunkModel> {
    hs.map_values(|h: Hunk| h@)
}

impl View for FileChange {
    type V = FileModel;

    open spec fn view(&self) -> FileModel {
        FileModel {
            old_path: opt_view(self.old_path),
            new_path: opt_view(self.new_path),
            kind: self.kind,
            similarity: self.similarity,
            hunks: hunk_views(self.hunks@),
        }
    }
}

pub open spec fn file_views(fs: Seq<FileChange>) -> Seq<FileModel> {
    fs.map_values(|f: FileChange| f@)
}

impl View for Diff {
    type V = Seq<FileModel>;

    open spec fn view(&self) -> Seq<FileModel> {
        file_views(self.files@)
    }
}

/// The number of lines of `ls` that belong to the old side: context and removed.
pub open spec fn old_side(ls: Seq<LineModel>) -> nat
    decreases ls.len(),
{
    if ls.len() == 0 {
        0
    } else {
        old_side(ls.drop_last()) + if ls.last().kind == LineKind::Added {
            0nat
        } else {
            1nat
        }
    }
}

/// The number of lines of `ls` that belong to the new side: context and added.
pub open spec fn new_side(ls: Seq<LineModel>) -> nat
    decreases ls.len(),
{
    if ls.len() == 0 {
        0
    } else {
        new_side(ls.drop_last()) + if ls.last().kind == LineKind::Removed {
            0nat
        } else {
            1nat
        }
    }
}

/// The lines of a hunk agree with the counts of its header.
pub open spec fn reconciles(h: HunkModel) -> bool {
    old_side(h.lines) == h.old_count && new_side(h.lines) == h.new_count
}

/// Every hunk of every file reconciles.
pub open spec fn all_reconcile(fs: Seq<FileModel>) -> bool {
    forall|i: int, j: int|
        0 <= i < fs.len() && 0 <= j < fs[i].hunks.len() ==> reconciles(#[trigger] fs[i].hunks[j])
}

/// A range `<start>[,<count>]` of a hunk header; the count is 1 where it is left out.
pub open spec fn range_spec(r: Seq<char>) -> Option<(u64, u64)> {
    match find(r, ","@) {
        Some(k) => {
            let a = r.take(k as int);
            let b = r.skip((k + 1) as int);
            if is_number(a) && is_number(b) {
                Some((digits_value(a) as u64, digits_value(b) as u64))
            } else {
                None
            }
        },
        None => if is_number(r) {
            Some((digits_value(r) as u64, 1u64))
        } else {
            None
        },
    }
}

/// The hunk that a header `@@ -<old> +<new> @@<anything>` opens, with no lines yet.
pub open spec fn hunk_header_spec(line: Seq<char>) -> Option<HunkModel> {
    match strip("@@ -"@, line) {
        None => None,
        Some(r) => match find(r, " +"@) {
            None => None,
            Some(k) => {
                let old = r.take(k as int);
                let rest = r.skip((k + 2) as int);
                match find(rest, " @@"@) {
                    None => None,
                    Some(m) => match (range_spec(old), range_spec(rest.take(m as int))) {
                        (Some((os, oc)), Some((ns, nc))) => Some(
                            HunkModel {
                                old_start: os,
                                old_count: oc,
                                new_start: ns,
                                new_count: nc,
                                lines: Seq::empty(),
                            },
                        ),
                        _ => None,
                    },
                }
            },
        },
    }
}


/// Where a line-by-line reading of a diff stands: the files already complete,
/// the file being read (with its complete hunks) and the hunk being read.
pub struct ScanModel {
    pub files: Seq<FileModel>,
    pub file: Option<FileModel>,
    pub hunk: Option<HunkModel>,
    /// The index of the header line of the hunk being read.
    pub hunk_at: nat,
}

pub open spec fn start_scan() -> ScanModel {
    ScanModel { files: Seq::empty(), file: None, hunk: None, hunk_at: 0 }
}

/// Ends the hunk being read, which must agree with its header; where it does
/// not, the error names the header line.
pub open spec fn close_hunk(s: ScanModel) -> Result<ScanModel, nat> {
    match s.hunk {
        None => Ok(s),
        Some(h) => if !reconciles(h) {
            Err(s.hunk_at)
        } else {
            match s.file {
                Some(f) => Ok(ScanModel { file: Some(FileModel { hunks: f.hunks.push(h), ..f }), hunk: None, ..s }),
                None => Ok(ScanModel { hunk: None, ..s }),
            }
        },
    }
}

/// Ends the file being read.
pub open spec fn close_file(s: ScanModel) -> Seq<FileModel> {
    match s.file {
        Some(f) => s.files.push(f),
        None => s.files,
    }
}

/// The two paths of `a/<old> b/<new>`; where git quoted them, the paths are
/// left for the `---` and `+++` lines to give.
pub open spec fn git_paths_spec(r: Seq<char>) -> Option<(Option<Seq<char>>, Option<Seq<char>>)> {
    match strip("a/"@, r) {
        None => if r.len() > 0 && r[0] == '"' {
            Some((None, None))
        } else {
            None
        },
        Some(x) => match find(x, " b/"@) {
            None => None,
            Some(k) => Some((Some(x.take(k as int)), Some(x.skip((k + 3) as int)))),
        },
    }
}

/// The path of a `---` or `+++` line: none for `/dev/null`, else the unquoted
/// path without its side prefix `pfx` where it has one; `None` where the
/// quoting is malformed.
pub open spec fn side_path_spec(r: Seq<char>, pfx: Seq<char>) -> Option<Option<Seq<char>>> {
    if r == "/dev/null"@ {
        Some(None)
    } else {
        match unquote_spec(r) {
            None => None,
            Some(q) => match strip(pfx, q) {
                Some(p) => Some(Some(p)),
                None => Some(Some(q)),
            },
        }
    }
}

/// The value of `N%`.
pub open spec fn percent_spec(r: Seq<char>) -> Option<u64> {
    if r.len() > 0 && r.last() == '%' && is_number(r.drop_last()) {
        Some(digits_value(r.drop_last()) as u64)
    } else {
        None
    }
}

/// The kinds that carry a similarity.
pub open spec fn is_rename_kind(k: FileKind) -> bool {
    k == FileKind::Renamed || k == FileKind::Copied
}

/// A line of the extended header of file `f`, before its first hunk. A rename
/// or copy line must follow the similarity line that git prints before it; a
/// binary file that is renamed or copied keeps that kind.
pub open spec fn header_line_spec(f: FileModel, line: Seq<char>) -> Option<FileModel> {
    if let Some(_) = strip("new file mode"@, line) {
        Some(FileModel { kind: FileKind::Added, old_path: None, similarity: None, ..f })
    } else if let Some(_) = strip("deleted file mode"@, line) {
        Some(FileModel { kind: FileKind::Deleted, new_path: None, similarity: None, ..f })
    } else if let Some(r) = strip("similarity index "@, line) {
        match percent_spec(r) {
            Some(p) => Some(
                FileModel {
                    kind: if f.kind == FileKind::Copied {
                        FileKind::Copied
                    } else {
                        FileKind::Renamed
                    },
                    similarity: Some(p),
                    ..f
                },
            ),
            None => None,
        }
    } else if let Some(r) = strip("copy from "@, line) {
        match (unquote_spec(r), f.similarity) {
            (Some(q), Some(_)) => Some(FileModel { kind: FileKind::Copied, old_path: Some(q), ..f }),
            _ => None,
        }
    } else if let Some(r) = strip("copy to "@, line) {
        match unquote_spec(r) {
            Some(q) => Some(FileModel { new_path: Some(q), ..f }),
            None => None,
        }
    } else if let Some(r) = strip("rename from "@, line) {
        match (unquote_spec(r), f.similarity) {
            (Some(q), Some(_)) => Some(FileModel { kind: FileKind::Renamed, old_path: Some(q), ..f }),
            _ => None,
        }
    } else if let Some(r) = strip("rename to "@, line) {
        match unquote_spec(r) {
            Some(q) => Some(FileModel { new_path: Some(q), ..f }),
            None => None,
        }
    } else if let Some(_) = strip("Binary files "@, line) {
        if is_rename_kind(f.kind) {
            Some(f)
        } else {
            Some(FileModel { kind: FileKind::Binary, ..f })
        }
    } else if let Some(r) = strip("--- "@, line) {
        match side_path_spec(r, "a/"@) {
            Some(p) => Some(FileModel { old_path: p, ..f }),
            None => None,
        }
    } else if let Some(r) = strip("+++ "@, line) {
        match side_path_spec(r, "b/"@) {
            Some(p) => Some(FileModel { new_path: p, ..f }),
            None => None,
        }
    } else {
        Some(f)
    }
}

/// A line inside hunk `h`: a context, added or removed line, or the marker
/// that the line before it has no newline at the end of the file.
pub open spec fn body_line_spec(h: HunkModel, line: Seq<char>) -> Option<HunkModel> {
    if line.len() == 0 {
        None
    } else if line[0] == ' ' {
        Some(HunkModel { lines: h.lines.push(LineModel { kind: LineKind::Context, text: line.skip(1), no_newline_at_eof: false }), ..h })
    } else if line[0] == '+' {
        Some(HunkModel { lines: h.lines.push(LineModel { kind: LineKind::Added, text: line.skip(1), no_newline_at_eof: false }), ..h })
    } else if line[0] == '-' {
        Some(HunkModel { lines: h.lines.push(LineModel { kind: LineKind::Removed, text: line.skip(1), no_newline_at_eof: false }), ..h })
    } else if is_prefix("\\ No newline at end of file"@, line) && h.lines.len() > 0 {
        Some(HunkModel { lines: h.lines.update(h.lines.len() - 1, LineModel { no_newline_at_eof: true, ..h.lines.last() }), ..h })
    } else {
        None
    }
}

/// Reads line `at` of a diff in state `s`.
pub open spec fn step_spec(s: ScanModel, line: Seq<char>, at: nat) -> Result<ScanModel, nat> {
    if is_prefix("diff --git "@, line) {
        match close_hunk(s) {
            Err(e) => Err(e),
            Ok(s1) => match git_paths_spec(line.skip("diff --git "@.len() as int)) {
                None => Err(at),
                Some((a, b)) => Ok(
                    ScanModel {
                        files: close_file(s1),
                        file: Some(FileModel { old_path: a, new_path: b, kind: FileKind::Modified, similarity: None, hunks: Seq::empty() }),
                        hunk: None,
                        hunk_at: s1.hunk_at,
                    },
                ),
            },
        }
    } else if s.file is None {
        Ok(s)
    } else if is_prefix("@@"@, line) {
        match close_hunk(s) {
            Err(e) => Err(e),
            Ok(s1) => match hunk_header_spec(line) {
                None => Err(at),
                Some(h) => Ok(ScanModel { hunk: Some(h), hunk_at: at, ..s1 }),
            },
        }
    } else if let Some(h) = s.hunk {
        match body_line_spec(h, line) {
            None => Err(at),
            Some(h1) => Ok(ScanModel { hunk: Some(h1), ..s }),
        }
    } else {
        match header_line_spec(s.file->0, line) {
            None => Err(at),
            Some(f1) => Ok(ScanModel { file: Some(f1), ..s }),
        }
    }
}

/// Reads the lines `ls` one after the other; lines before the first file are
/// a preamble (such as a commit message) and are passed over.
pub open spec fn scan_spec(ls: Seq<Seq<char>>) -> Result<ScanModel, nat>
    decreases ls.len(),
{
    if ls.len() == 0 {
        Ok(start_scan())
    } else {
        match scan_spec(ls.drop_last()) {
            Err(e) => Err(e),
            Ok(s) => step_spec(s, ls.last(), (ls.len() - 1) as nat),
        }
    }
}

/// The files that diff text describes, or the index of the first line at which
/// it breaks the grammar (the number of lines where the last hunk falls short).
pub open spec fn diff_spec(text: Seq<char>) -> Result<Seq<FileModel>, nat> {
    let ls = lines_of(text);
    match scan_spec(ls) {
        Err(e) => Err(e),
        Ok(s) => match close_hunk(s) {
            Err(e) => Err(e),
            Ok(s1) => Ok(close_file(s1)),
        },
    }
}


/// The state of a diff being read: see [`ScanModel`].
pub struct Scan {
    pub files: Vec<FileChange>,
    pub file: Option<FileChange>,
    pub hunk: Option<Hunk>,
    pub hunk_at: usize,
}

impl View for Scan {
    type V = ScanModel;

    open spec fn view(&self) -> ScanModel {
        ScanModel {
            files: file_views(self.files@),
            file: match self.file {
                Some(f) => Some(f@),
                None => None,
            },
            hunk: match self.hunk {
                Some(h) => Some(h@),
                None => None,
            },
            hunk_at: self.hunk_at as nat,
        }
    }
}

/// Whether the lines of `h` agree with the counts of its header.
pub fn hunk_reconciles(h: &Hunk) -> (r: bool)
    ensures
        r == reconciles(h@),
{
    let ghost ls = line_views(h.lines@);
    let mut old: usize = 0;
    let mut new: usize = 0;
    let mut i: usize = 0;
    assert(ls.take(0) =~= Seq::<LineModel>::empty());
    while i < h.lines.len()
        invariant
            ls == line_views(h.lines@),
            i <= h.lines@.len(),
            old == old_side(ls.take(i as int)),
            new == new_side(ls.take(i as int)),
            old <= i,
            new <= i,
        decreases h.lines@.len() - i,
    {
        assert(ls.take(i + 1).drop_last() =~= ls.take(i as int));
        assert(ls.take(i + 1).last() == h.lines@[i as int]@);
        match h.lines[i].kind {
            LineKind::Context => {
                old += 1;
                new += 1;
            },
            LineKind::Added => {
                new += 1;
            },
            LineKind::Removed => {
                old += 1;
            },
        }
        i += 1;
    }
    assert(ls.take(i as int) =~= ls);
    old as u64 == h.old_count && new as u64 == h.new_count
}

fn close_hunk_exec(s: Scan) -> (r: Result<Scan, usize>)
    ensures
        match r {
            Ok(t) => close_hunk(s@) == Ok::<ScanModel, nat>(t@),
            Err(e) => close_hunk(s@) == Err::<ScanModel, nat>(e as nat),
        },
{
    let Scan { files, file, hunk, hunk_at } = s;
    match hunk {
        None => Ok(Scan { files, file, hunk: None, hunk_at }),
        Some(h) => {
            if !hunk_reconciles(&h) {
                return Err(hunk_at);
            }
            match file {
                Some(f) => {
                    let FileChange { old_path, new_path, kind, similarity, hunks } = f;
                    let mut hunks = hunks;
                    let ghost before = hunks@;
                    let ghost hv = h@;
                    hunks.push(h);
                    assert(hunk_views(hunks@) =~= hunk_views(before).push(hv));
                    Ok(Scan { files, file: Some(FileChange { old_path, new_path, kind, similarity, hunks }), hunk: None, hunk_at })
                },
                None => Ok(Scan { files, file: None, hunk: None, hunk_at }),
            }
        },
    }
}

fn close_file_exec(s: Scan) -> (r: Vec<FileChange>)
    ensures
        file_views(r@) == close_file(s@),
{
    let Scan { files, file, hunk, hunk_at } = s;
    let mut files = files;
    match file {
        Some(f) => {
            let ghost before = files@;
            let ghost fv = f@;
            files.push(f);
            assert(file_views(files@) =~= file_views(before).push(fv));
        },
        None => {},
    }
    files
}

fn parse_range(r: &Vec<char>) -> (res: Option<(u64, u64)>)
    ensures
        res == range_spec(r@),
{
    proof {
        reveal_strlit(",");
    }
    let len = r.len();
    match find_in(r, ",") {
        Some(k) => {
            proof {
                lemma_find_bound(r@, ","@);
            }
            assert(r@.subrange(0, k as int) =~= r@.take(k as int));
            assert(r@.subrange(k + 1, len as int) =~= r@.skip(k + 1));
            match (parse_number(r, 0, k), parse_number(r, k + 1, len)) {
                (Some(a), Some(b)) => Some((a, b)),
                _ => None,
            }
        },
        None => {
            assert(r@.subrange(0, len as int) =~= r@);
            match parse_number(r, 0, len) {
                Some(a) => Some((a, 1)),
                None => None,
            }
        },
    }
}

pub open spec fn opt_hunk_view(h: Option<Hunk>) -> Option<HunkModel> {
    match h {
        Some(x) => Some(x@),
        None => None,
    }
}

/// Reads a hunk header `@@ -<old> +<new> @@`.
pub fn parse_hunk_header(line: &Vec<char>) -> (res: Option<Hunk>)
    ensures
        opt_hunk_view(res) == hunk_header_spec(line@),
{
    proof {
        reveal_strlit(" +");
    }
    match strip_prefix(line, "@@ -") {
        None => None,
        Some(r) => match find_in(&r, " +") {
            None => None,
            Some(k) => {
                proof {
                    lemma_find_bound(r@, " +"@);
                }
                let len = r.len();
                let old = slice(&r, 0, k);
                let rest = slice(&r, k + 2, len);
                assert(old@ =~= r@.take(k as int));
                assert(rest@ =~= r@.skip(k + 2));
                match find_in(&rest, " @@") {
                    None => None,
                    Some(m) => {
                        proof {
                            lemma_find_bound(rest@, " @@"@);
                        }
                        let new = slice(&rest, 0, m);
                        assert(new@ =~= rest@.take(m as int));
                        match (parse_range(&old), parse_range(&new)) {
                            (Some((os, oc)), Some((ns, nc))) => {
                                let h = Hunk { old_start: os, old_count: oc, new_start: ns, new_count: nc, lines: Vec::new() };
                                assert(line_views(h.lines@) =~= Seq::<LineModel>::empty());
                                Some(h)
                            },
                            _ => None,
                        }
                    },
                }
            },
        },
    }
}

fn whole(v: &Vec<char>) -> (r: String)
    ensures
        r@ == v@,
{
    assert(v@.subrange(0, v@.len() as int) =~= v@);
    string_of(v, 0, v.len())
}

fn parse_git_paths(r: &Vec<char>) -> (res: Option<(Option<String>, Option<String>)>)
    ensures
        match res {
            Some((a, b)) => git_paths_spec(r@) == Some((opt_view(a), opt_view(b))),
            None => git_paths_spec(r@) is None,
        },
{
    proof {
        reveal_strlit(" b/");
    }
    match strip_prefix(r, "a/") {
        None => {
            if r.len() > 0 && r[0] == '"' {
                Some((None, None))
            } else {
                None
            }
        },
        Some(x) => match find_in(&x, " b/") {
            None => None,
            Some(k) => {
                proof {
                    lemma_find_bound(x@, " b/"@);
                }
                let len = x.len();
                assert(x@.subrange(0, k as int) =~= x@.take(k as int));
                assert(x@.subrange(k + 3, len as int) =~= x@.skip(k + 3));
                Some((Some(string_of(&x, 0, k)), Some(string_of(&x, k + 3, len))))
            },
        },
    }
}

fn side_path(r: &Vec<char>, pfx: &str) -> (res: Option<Option<String>>)
    ensures
        match res {
            Some(p) => side_path_spec(r@, pfx@) == Some(opt_view(p)),
            None => side_path_spec(r@, pfx@) is None,
        },
{
    if crate::text::equals(r, "/dev/null") {
        Some(None)
    } else {
        match unquote(r) {
            None => None,
            Some(q) => {
                let qc = crate::text::chars_of(q.as_str());
                match strip_prefix(&qc, pfx) {
                    Some(p) => Some(Some(whole(&p))),
                    None => Some(Some(q)),
                }
            },
        }
    }
}

fn parse_percent(r: &Vec<char>) -> (res: Option<u64>)
    ensures
        res == percent_spec(r@),
{
    let len = r.len();
    if len > 0 && r[len - 1] == '%' {
        assert(r@.subrange(0, len - 1) =~= r@.drop_last());
        parse_number(r, 0, len - 1)
    } else {
        None
    }
}

pub open spec fn opt_file_view(f: Option<FileChange>) -> Option<FileModel> {
    match f {
        Some(x) => Some(x@),
        None => None,
    }
}

#[verifier::rlimit(30)]
fn header_line(f: FileChange, line: &Vec<char>) -> (res: Option<FileChange>)
    ensures
        opt_file_view(res) == header_line_spec(f@, line@),
{
    let FileChange { old_path, new_path, kind, similarity, hunks } = f;
    if let Some(_) = strip_prefix(line, "new file mode") {
        Some(FileChange { old_path: None, new_path, kind: FileKind::Added, similarity: None, hunks })
    } else if let Some(_) = strip_prefix(line, "deleted file mode") {
        Some(FileChange { old_path, new_path: None, kind: FileKind::Deleted, similarity: None, hunks })
    } else if let Some(r) = strip_prefix(line, "similarity index ") {
        match parse_percent(&r) {
            Some(p) => {
                let k = if kind == FileKind::Copied {
                    FileKind::Copied
                } else {
                    FileKind::Renamed
                };
                Some(FileChange { old_path, new_path, kind: k, similarity: Some(p), hunks })
            },
            None => None,
        }
    } else if let Some(r) = strip_prefix(line, "copy from ") {
        match (unquote(&r), similarity) {
            (Some(q), Some(p)) => Some(
                FileChange { old_path: Some(q), new_path, kind: FileKind::Copied, similarity: Some(p), hunks },
            ),
            _ => None,
        }
    } else if let Some(r) = strip_prefix(line, "copy to ") {
        match unquote(&r) {
            Some(q) => Some(FileChange { old_path, new_path: Some(q), kind, similarity, hunks }),
            None => None,
        }
    } else if let Some(r) = strip_prefix(line, "rename from ") {
        match (unquote(&r), similarity) {
            (Some(q), Some(p)) => Some(
                FileChange { old_path: Some(q), new_path, kind: FileKind::Renamed, similarity: Some(p), hunks },
            ),
            _ => None,
        }
    } else if let Some(r) = strip_prefix(line, "rename to ") {
        match unquote(&r) {
            Some(q) => Some(FileChange { old_path, new_path: Some(q), kind, similarity, hunks }),
            None => None,
        }
    } else if let Some(_) = strip_prefix(line, "Binary files ") {
        let k = if kind == FileKind::Renamed || kind == FileKind::Copied {
            kind
        } else {
            FileKind::Binary
        };
        Some(FileChange { old_path, new_path, kind: k, similarity, hunks })
    } else if let Some(r) = strip_prefix(line, "--- ") {
        match side_path(&r, "a/") {
            Some(p) => Some(FileChange { old_path: p, new_path, kind, similarity, hunks }),
            None => None,
        }
    } else if let Some(r) = strip_prefix(line, "+++ ") {
        match side_path(&r, "b/") {
            Some(p) => Some(FileChange { old_path, new_path: p, kind, similarity, hunks }),
            None => None,
        }
    } else {
        Some(FileChange { old_path, new_path, kind, similarity, hunks })
    }
}

fn body_line(h: Hunk, line: &Vec<char>) -> (res: Option<Hunk>)
    ensures
        opt_hunk_view(res) == body_line_spec(h@, line@),
{
    let Hunk { old_start, old_count, new_start, new_count, lines } = h;
    let mut lines = lines;
    let ghost before = lines@;
    let len = line.len();
    if len == 0 {
        return None;
    }
    let c = line[0];
    assert(line@.skip(0) =~= line@);
    if c == ' ' || c == '+' || c == '-' {
        let kind = if c == ' ' {
            LineKind::Context
        } else if c == '+' {
            LineKind::Added
        } else {
            LineKind::Removed
        };
        let text = string_of(line, 1, len);
        assert(line@.subrange(1, len as int) =~= line@.skip(1));
        let l = Line { kind, text, no_newline_at_eof: false };
        let ghost lv = l@;
        lines.push(l);
        assert(line_views(lines@) =~= line_views(before).push(lv));
        Some(Hunk { old_start, old_count, new_start, new_count, lines })
    } else if starts_with_at(line, 0, "\\ No newline at end of file") && lines.len() > 0 {
        let last = lines.pop().unwrap();
        let l = Line { kind: last.kind, text: last.text, no_newline_at_eof: true };
        let ghost lv = l@;
        lines.push(l);
        assert(line_views(lines@) =~= line_views(before).update(before.len() - 1, lv));
        Some(Hunk { old_start, old_count, new_start, new_count, lines })
    } else {
        None
    }
}


/// Reads line `at` of a diff in state `s`, as [`step_spec`] describes.
#[verifier::rlimit(30)]
fn step(s: Scan, line: &Vec<char>, at: usize) -> (r: Result<Scan, usize>)
    ensures
        match r {
            Ok(t) => step_spec(s@, line@, at as nat) == Ok::<ScanModel, nat>(t@),
            Err(e) => step_spec(s@, line@, at as nat) == Err::<ScanModel, nat>(e as nat),
        },
{
    if let Some(r) = strip_prefix(line, "diff --git ") {
        match close_hunk_exec(s) {
            Err(e) => Err(e),
            Ok(s1) => match parse_git_paths(&r) {
                None => Err(at),
                Some((a, b)) => {
                    let hunk_at = s1.hunk_at;
                    let files = close_file_exec(s1);
                    let f = FileChange {
                        old_path: a,
                        new_path: b,
                        kind: FileKind::Modified,
                        similarity: None,
                        hunks: Vec::new(),
                    };
                    assert(hunk_views(f.hunks@) =~= Seq::<HunkModel>::empty());
                    Ok(Scan { files, file: Some(f), hunk: None, hunk_at })
                },
            },
        }
    } else if s.file.is_none() {
        Ok(s)
    } else if starts_with_at(line, 0, "@@") {
        assert(line@.skip(0) =~= line@);
        match close_hunk_exec(s) {
            Err(e) => Err(e),
            Ok(s1) => match parse_hunk_header(line) {
                None => Err(at),
                Some(h) => Ok(Scan { files: s1.files, file: s1.file, hunk: Some(h), hunk_at: at }),
            },
        }
    } else {
        assert(line@.skip(0) =~= line@);
        let Scan { files, file, hunk, hunk_at } = s;
        match hunk {
            Some(h) => match body_line(h, line) {
                None => Err(at),
                Some(h1) => Ok(Scan { files, file, hunk: Some(h1), hunk_at }),
            },
            None => match file {
                Some(f) => match header_line(f, line) {
                    None => Err(at),
                    Some(f1) => Ok(Scan { files, file: Some(f1), hunk: None, hunk_at }),
                },
                None => Err(at),
            },
        }
    }
}

proof fn lemma_scan_error_stays(ls: Seq<Seq<char>>, k: int)
    requires
        0 <= k <= ls.len(),
        scan_spec(ls.take(k)) is Err,
    ensures
        scan_spec(ls) == scan_spec(ls.take(k)),
    decreases ls.len() - k,
{
    if k == ls.len() {
        assert(ls.take(k) =~= ls);
    } else {
        assert(ls.take(k + 1).drop_last() =~= ls.take(k));
        lemma_scan_error_stays(ls, k + 1);
    }
}

/// Parses unified-diff text, as `git diff` and `git show` print it.
#[verifier::rlimit(30)]
pub fn parse_diff(text: &str) -> (r: Result<Diff, ParseError>)
    ensures
        match r {
            Ok(d) => diff_spec(text@) == Ok::<Seq<FileModel>, nat>(d@) && all_reconcile(d@) && forall|i: int|
                0 <= i < d@.len() ==> similarity_fits(#[trigger] d@[i]),
            Err(e) => diff_spec(text@) == Err::<Seq<FileModel>, nat>(e.line as nat)
                && e.text@ == line_at(lines_of(text@), e.line as int),
        },
{
    let chars = chars_of(text);
    let ls = split_lines(&chars);
    let ghost lv = views(ls@);
    let mut s = Scan { files: Vec::new(), file: None, hunk: None, hunk_at: 0 };
    assert(file_views(s.files@) =~= Seq::<FileModel>::empty());
    let mut i: usize = 0;
    assert(lv.take(0) =~= Seq::<Seq<char>>::empty());
    while i < ls.len()
        invariant
            i <= ls@.len(),
            lv == views(ls@),
            lv == lines_of(text@),
            scan_spec(lv.take(i as int)) == Ok::<ScanModel, nat>(s@),
        decreases ls@.len() - i,
    {
        assert(lv.take(i + 1).drop_last() =~= lv.take(i as int));
        assert(lv.take(i + 1).last() == ls@[i as int]@);
        match step(s, &ls[i], i) {
            Ok(t) => {
                s = t;
            },
            Err(e) => {
                proof {
                    lemma_scan_error_stays(lv, i + 1);
                }
                return Err(ParseError { line: e, text: line_text(&ls, e) });
            },
        }
        i += 1;
    }
    assert(lv.take(i as int) =~= lv);
    match close_hunk_exec(s) {
        Err(e) => Err(ParseError { line: e, text: line_text(&ls, e) }),
        Ok(s1) => {
            proof {
                lemma_parsed_hunks_reconcile(text@);
                lemma_similarity_only_for_renames(text@);
            }
            Ok(Diff { files: close_file_exec(s1) })
        },
    }
}


/// The complete files and the complete hunks of the file being read all reconcile.
pub open spec fn scan_reconciles(s: ScanModel) -> bool {
    &&& all_reconcile(s.files)
    &&& s.file matches Some(f) ==> forall|j: int| 0 <= j < f.hunks.len() ==> reconciles(#[trigger] f.hunks[j])
}

proof fn lemma_close_hunk_reconciles(s: ScanModel)
    requires
        scan_reconciles(s),
    ensures
        close_hunk(s) matches Ok(t) ==> scan_reconciles(t),
{
    if let Some(h) = s.hunk {
        if reconciles(h) {
            if let Some(f) = s.file {
                let hs = f.hunks.push(h);
                assert forall|j: int| 0 <= j < hs.len() implies reconciles(#[trigger] hs[j]) by {
                    if j < f.hunks.len() {
                        assert(hs[j] == f.hunks[j]);
                    }
                }
            }
        }
    }
}

proof fn lemma_close_file_reconciles(s: ScanModel)
    requires
        scan_reconciles(s),
    ensures
        all_reconcile(close_file(s)),
{
    if let Some(f) = s.file {
        let fs = s.files.push(f);
        assert forall|i: int, j: int| 0 <= i < fs.len() && 0 <= j < fs[i].hunks.len() implies reconciles(
            #[trigger] fs[i].hunks[j],
        ) by {
            if i < s.files.len() {
                assert(fs[i] == s.files[i]);
            }
        }
    }
}

proof fn lemma_step_reconciles(s: ScanModel, line: Seq<char>, at: nat)
    requires
        scan_reconciles(s),
    ensures
        step_spec(s, line, at) matches Ok(t) ==> scan_reconciles(t),
{
    lemma_close_hunk_reconciles(s);
    if is_prefix("diff --git "@, line) {
        if let Ok(s1) = close_hunk(s) {
            lemma_close_file_reconciles(s1);
        }
    }
}

proof fn lemma_scan_reconciles(ls: Seq<Seq<char>>)
    ensures
        scan_spec(ls) matches Ok(s) ==> scan_reconciles(s),
    decreases ls.len(),
{
    if ls.len() > 0 {
        lemma_scan_reconciles(ls.drop_last());
        if let Ok(s) = scan_spec(ls.drop_last()) {
            lemma_step_reconciles(s, ls.last(), (ls.len() - 1) as nat);
        }
    }
}

/// Every hunk of a successfully parsed diff reconciles with its header: its
/// context and removed lines number `old_count`, its context and added lines
/// `new_count`.
pub proof fn lemma_parsed_hunks_reconcile(text: Seq<char>)
    ensures
        diff_spec(text) matches Ok(fs) ==> all_reconcile(fs),
{
    let ls = lines_of(text);
    lemma_scan_reconciles(ls);
    if let Ok(s) = scan_spec(ls) {
        lemma_close_hunk_reconciles(s);
        if let Ok(s1) = close_hunk(s) {
            lemma_close_file_reconciles(s1);
        }
    }
}

/// Parsing is a function of the text alone: equal texts give equal results,
/// with files, hunks and lines in the same order.
pub proof fn lemma_parse_deterministic(a: Seq<char>, b: Seq<char>)
    requires
        a == b,
    ensures
        diff_spec(a) == diff_spec(b),
{
}

/// A file carries a similarity exactly when it is a rename or a copy.
pub open spec fn similarity_fits(f: FileModel) -> bool {
    f.similarity is Some <==> is_rename_kind(f.kind)
}

pub open spec fn scan_similarity_fits(s: ScanModel) -> bool {
    &&& forall|i: int| 0 <= i < s.files.len() ==> similarity_fits(#[trigger] s.files[i])
    &&& s.file matches Some(f) ==> similarity_fits(f)
}

proof fn lemma_step_similarity(s: ScanModel, line: Seq<char>, at: nat)
    requires
        scan_similarity_fits(s),
    ensures
        step_spec(s, line, at) matches Ok(t) ==> scan_similarity_fits(t),
{
    if let Ok(s1) = close_hunk(s) {
        if is_prefix("diff --git "@, line) {
            let fs = close_file(s1);
            assert forall|i: int| 0 <= i < fs.len() implies similarity_fits(#[trigger] fs[i]) by {
                if i < s1.files.len() {
                    assert(fs[i] == s1.files[i]);
                }
            }
        }
    }
}

proof fn lemma_scan_similarity(ls: Seq<Seq<char>>)
    ensures
        scan_spec(ls) matches Ok(s) ==> scan_similarity_fits(s),
    decreases ls.len(),
{
    if ls.len() > 0 {
        lemma_scan_similarity(ls.drop_last());
        if let Ok(s) = scan_spec(ls.drop_last()) {
            lemma_step_similarity(s, ls.last(), (ls.len() - 1) as nat);
        }
    }
}

/// In a successfully parsed diff a file has a similarity exactly when its
/// kind is Renamed or Copied.
pub proof fn lemma_similarity_only_for_renames(text: Seq<char>)
    ensures
        diff_spec(text) matches Ok(fs) ==> forall|i: int| 0 <= i < fs.len() ==> similarity_fits(#[trigger] fs[i]),
{
    let ls = lines_of(text);
    lemma_scan_similarity(ls);
    if let Ok(s) = scan_spec(ls) {
        if let Ok(s1) = close_hunk(s) {
            let fs = close_file(s1);
            assert forall|i: int| 0 <= i < fs.len() implies similarity_fits(#[trigger] fs[i]) by {
                if i < s1.files.len() {
                    assert(fs[i] == s1.files[i]);
                }
            }
        }
    }
}

} // verus!
