//! The porcelain status parser: a branch header followed by one line per
//! changed path.
use vstd::prelude::*;
use vstd::utf8::{decode_utf8, encode_scalar, valid_utf8};
use crate::error::ParseError;
use crate::text::{
    chars_of, digits_value, equals, find, find_in, is_number, is_prefix, lemma_find_after, lemma_find_bound,
    lemma_strip_concat, lines_of, parse_number,
    slice, split_lines, string_of, strip, strip_prefix, string_from_utf8, views,
};

verus! {

/// How a path changed on one side (index or working tree).
#[derive(Clone, Copy, Debug, PartialEq, Eq, Structural)]
pub enum ChangeKind {
    Added,
    Modified,
    Deleted,
    Renamed,
    Copied,
}

/// The checked-out branch as the header describes it.
#[derive(Clone, Debug, PartialEq, Eq)]
pub enum Branch {
    Named(String),
    Detached,
    Unborn(String),
}

pub enum BranchModel {
    Named(Seq<char>),
    Detached,
    Unborn(Seq<char>),
}

impl View for Branch {
    type V = BranchModel;

    open spec fn view(&self) -> BranchModel {
        match self {
            Branch::Named(s) => BranchModel::Named(s@),
            Branch::Detached => BranchModel::Detached,
            Branch::Unborn(s) => BranchModel::Unborn(s@),
        }
    }
}

/// One changed, untracked or conflicted path.
#[derive(Clone, Debug, PartialEq, Eq)]
pub struct Entry {
    pub path: String,
    pub rename_from: Option<String>,
    pub staged_kind: Option<ChangeKind>,
    pub unstaged_kind: Option<ChangeKind>,
    pub is_untracked: bool,
    pub is_conflicted: bool,
}

pub struct EntryModel {
    pub path: Seq<char>,
    pub rename_from: Option<Seq<char>>,
    pub staged_kind: Option<ChangeKind>,
    pub unstaged_kind: Option<ChangeKind>,
    pub is_untracked: bool,
    pub is_conflicted: bool,
}

pub open spec fn opt_view(s: Option<String>) -> Option<Seq<char>> {
    match s {
        Some(x) => Some(x@),
        None => None,
    }
}

impl View for Entry {
    type V = EntryModel;

    open spec fn view(&self) -> EntryModel {
        EntryModel {
            path: self.path@,
            rename_from: opt_view(self.rename_from),
            staged_kind: self.staged_kind,
            unstaged_kind: self.unstaged_kind,
            is_untracked: self.is_untracked,
            is_conflicted: self.is_conflicted,
        }
    }
}

/// The branch header and the entries of a porcelain status.
#[derive(Clone, Debug, PartialEq, Eq)]
pub struct Status {
    pub branch: Branch,
    pub upstream: Option<String>,
    pub ahead: u64,
    pub behind: u64,
    pub entries: Vec<Entry>,
}

pub struct StatusModel {
    pub branch: BranchModel,
    pub upstream: Option<Seq<char>>,
    pub ahead: u64,
    pub behind: u64,
    pub entries: Seq<EntryModel>,
}

impl View for Status {
    type V = StatusModel;

    open spec fn view(&self) -> StatusModel {
        StatusModel {
            branch: self.branch@,
            upstream: opt_view(self.upstream),
            ahead: self.ahead,
            behind: self.behind,
            entries: self.entries@.map_values(|e: Entry| e@),
        }
    }
}

/// What a branch header says.
pub struct HeaderModel {
    pub branch: BranchModel,
    pub upstream: Option<Seq<char>>,
    pub ahead: u64,
    pub behind: u64,
}

/// The ahead/behind counts of `t`, which is ` [ahead N]`, ` [behind M]` or
/// ` [ahead N, behind M]`.
pub open spec fn track_spec(t: Seq<char>) -> Option<(u64, u64)> {
    match strip(" ["@, t) {
        Some(r) => if r.len() > 0 && r.last() == ']' {
            let inner = r.drop_last();
            match strip("ahead "@, inner) {
                Some(x) => match find(x, ", behind "@) {
                    Some(m) => {
                        let a = x.take(m as int);
                        let b = x.skip((m + ", behind "@.len()) as int);
                        if is_number(a) && is_number(b) {
                            Some((digits_value(a) as u64, digits_value(b) as u64))
                        } else {
                            None
                        }
                    },
                    None => if is_number(x) {
                        Some((digits_value(x) as u64, 0u64))
                    } else {
                        None
                    },
                },
                None => match strip("behind "@, inner) {
                    Some(y) => if is_number(y) {
                        Some((0u64, digits_value(y) as u64))
                    } else {
                        None
                    },
                    None => None,
                },
            }
        } else {
            None
        },
        None => None,
    }
}

/// The header of the form `<branch>`, `<branch>...<upstream>` or
/// `<branch>...<upstream> <counts>`.
pub open spec fn tracking_header_spec(rest: Seq<char>) -> Option<HeaderModel> {
    match find(rest, "..."@) {
        None => if rest.len() > 0 && find(rest, " "@) is None {
            Some(HeaderModel { branch: BranchModel::Named(rest), upstream: None, ahead: 0, behind: 0 })
        } else {
            None
        },
        Some(k) => {
            let b = rest.take(k as int);
            let after = rest.skip((k + "..."@.len()) as int);
            if b.len() == 0 {
                None
            } else {
                match find(after, " "@) {
                    None => if after.len() > 0 {
                        Some(
                            HeaderModel {
                                branch: BranchModel::Named(b),
                                upstream: Some(after),
                                ahead: 0,
                                behind: 0,
                            },
                        )
                    } else {
                        None
                    },
                    Some(j) => if j == 0 {
                        None
                    } else {
                        match track_spec(after.skip(j as int)) {
                            Some((a, bh)) => Some(
                                HeaderModel {
                                    branch: BranchModel::Named(b),
                                    upstream: Some(after.take(j as int)),
                                    ahead: a,
                                    behind: bh,
                                },
                            ),
                            None => None,
                        }
                    },
                }
            }
        },
    }
}

/// The meaning of a branch header line `## ...`.
pub open spec fn header_spec(line: Seq<char>) -> Option<HeaderModel> {
    match strip("## "@, line) {
        None => None,
        Some(rest) => if rest == "HEAD (no branch)"@ {
            Some(HeaderModel { branch: BranchModel::Detached, upstream: None, ahead: 0, behind: 0 })
        } else {
            match strip("No commits yet on "@, rest) {
                Some(b) => if b.len() > 0 {
                    Some(
                        HeaderModel { branch: BranchModel::Unborn(b), upstream: None, ahead: 0, behind: 0 },
                    )
                } else {
                    None
                },
                None => tracking_header_spec(rest),
            }
        },
    }
}


/// The counts of a ` [ahead N, behind M]` suffix.
fn parse_track(t: &Vec<char>) -> (r: Option<(u64, u64)>)
    ensures
        r == track_spec(t@),
{
    match strip_prefix(t, " [") {
        None => None,
        Some(r) => {
            if r.len() == 0 || r[r.len() - 1] != ']' {
                return None;
            }
            let inner = slice(&r, 0, r.len() - 1);
            assert(inner@ =~= r@.drop_last());
            match strip_prefix(&inner, "ahead ") {
                Some(x) => match find_in(&x, ", behind ") {
                    Some(m) => {
                        proof {
                            lemma_find_bound(x@, ", behind "@);
                        }
                        let n = ", behind ".unicode_len();
                        assert(x@.subrange(0, m as int) =~= x@.take(m as int));
                        assert(x@.subrange((m + n) as int, x@.len() as int) =~= x@.skip((m + n) as int));
                        match (parse_number(&x, 0, m), parse_number(&x, m + n, x.len())) {
                            (Some(a), Some(b)) => Some((a, b)),
                            _ => None,
                        }
                    },
                    None => {
                        assert(x@.subrange(0, x@.len() as int) =~= x@);
                        match parse_number(&x, 0, x.len()) {
                            Some(a) => Some((a, 0)),
                            None => None,
                        }
                    },
                },
                None => match strip_prefix(&inner, "behind ") {
                    Some(y) => {
                        assert(y@.subrange(0, y@.len() as int) =~= y@);
                        match parse_number(&y, 0, y.len()) {
                            Some(b) => Some((0, b)),
                            None => None,
                        }
                    },
                    None => None,
                },
            }
        },
    }
}

pub open spec fn header_view(h: Option<(Branch, Option<String>, u64, u64)>) -> Option<HeaderModel> {
    match h {
        Some((b, u, a, bh)) => Some(HeaderModel { branch: b@, upstream: opt_view(u), ahead: a, behind: bh }),
        None => None,
    }
}

/// Reads a tracking header: `<branch>`, with `...<upstream>` and counts optional.
#[verifier::rlimit(30)]
fn parse_tracking_header(rest: &Vec<char>) -> (r: Option<(Branch, Option<String>, u64, u64)>)
    ensures
        header_view(r) == tracking_header_spec(rest@),
{
    match find_in(rest, "...") {
        None => {
            if rest.len() > 0 && find_in(rest, " ").is_none() {
                assert(rest@.subrange(0, rest@.len() as int) =~= rest@);
                Some((Branch::Named(string_of(rest, 0, rest.len())), None, 0, 0))
            } else {
                None
            }
        },
        Some(k) => {
            proof {
                lemma_find_bound(rest@, "..."@);
            }
            let n = "...".unicode_len();
            let len = rest.len();
            let b = slice(rest, 0, k);
            let after = slice(rest, k + n, len);
            assert(b@ =~= rest@.take(k as int));
            assert(after@ =~= rest@.skip((k + n) as int));
            if b.len() == 0 {
                return None;
            }
            assert(b@.subrange(0, b@.len() as int) =~= b@);
            match find_in(&after, " ") {
                None => {
                    if after.len() > 0 {
                        assert(after@.subrange(0, after@.len() as int) =~= after@);
                        Some(
                            (
                                Branch::Named(string_of(&b, 0, b.len())),
                                Some(string_of(&after, 0, after.len())),
                                0,
                                0,
                            ),
                        )
                    } else {
                        None
                    }
                },
                Some(j) => {
                    if j == 0 {
                        return None;
                    }
                    proof {
                        lemma_find_bound(after@, " "@);
                    }
                    let t = slice(&after, j, after.len());
                    assert(t@ =~= after@.skip(j as int));
                    assert(after@.subrange(0, j as int) =~= after@.take(j as int));
                    match parse_track(&t) {
                        Some((a, bh)) => Some(
                            (Branch::Named(string_of(&b, 0, b.len())), Some(string_of(&after, 0, j)), a, bh),
                        ),
                        None => None,
                    }
                },
            }
        },
    }
}

/// Reads a branch header line: the branch, its upstream and the ahead/behind counts.
pub fn parse_header(line: &Vec<char>) -> (r: Option<(Branch, Option<String>, u64, u64)>)
    ensures
        header_view(r) == header_spec(line@),
{
    match strip_prefix(line, "## ") {
        None => None,
        Some(rest) => {
            if equals(&rest, "HEAD (no branch)") {
                Some((Branch::Detached, None, 0, 0))
            } else {
                match strip_prefix(&rest, "No commits yet on ") {
                    Some(b) => {
                        if b.len() > 0 {
                            assert(b@.subrange(0, b@.len() as int) =~= b@);
                            Some((Branch::Unborn(string_of(&b, 0, b.len())), None, 0, 0))
                        } else {
                            None
                        }
                    },
                    None => parse_tracking_header(&rest),
                }
            }
        },
    }
}


/// The byte that a C-style escape `\c` stands for.
pub open spec fn escape_byte(c: char) -> Option<u8> {
    if c == '\\' {
        Some(92u8)
    } else if c == '"' {
        Some(34u8)
    } else if c == 'a' {
        Some(7u8)
    } else if c == 'b' {
        Some(8u8)
    } else if c == 't' {
        Some(9u8)
    } else if c == 'n' {
        Some(10u8)
    } else if c == 'v' {
        Some(11u8)
    } else if c == 'f' {
        Some(12u8)
    } else if c == 'r' {
        Some(13u8)
    } else {
        None
    }
}

pub open spec fn is_octal(c: char) -> bool {
    '0' <= c && c <= '7'
}

pub open spec fn octal(c: char) -> nat {
    ((c as u32) - ('0' as u32)) as nat
}

pub open spec fn prepend(p: Seq<u8>, r: Option<Seq<u8>>) -> Option<Seq<u8>> {
    match r {
        Some(t) => Some(p + t),
        None => None,
    }
}

/// The bytes that the body of a quoted path stands for: `\c` escapes,
/// three-digit octal escapes `\ooo`, and any other character as its UTF-8
/// encoding.
pub open spec fn unescape_spec(s: Seq<char>) -> Option<Seq<u8>>
    decreases s.len(),
{
    if s.len() == 0 {
        Some(Seq::empty())
    } else if s[0] == '\\' {
        if s.len() >= 4 && is_octal(s[1]) && is_octal(s[2]) && is_octal(s[3]) {
            let v = octal(s[1]) * 64 + octal(s[2]) * 8 + octal(s[3]);
            if v < 256 {
                prepend(seq![v as u8], unescape_spec(s.skip(4)))
            } else {
                None
            }
        } else if s.len() >= 2 && escape_byte(s[1]) is Some {
            prepend(seq![escape_byte(s[1])->0], unescape_spec(s.skip(2)))
        } else {
            None
        }
    } else if (s[0] as u32) < 128 {
        prepend(seq![(s[0] as u32) as u8], unescape_spec(s.skip(1)))
    } else {
        prepend(encode_scalar(s[0] as u32), unescape_spec(s.skip(1)))
    }
}

/// A path as it is meant: a field in double quotes is unescaped and decoded as
/// UTF-8, any other field stands for itself.
pub open spec fn unquote_spec(f: Seq<char>) -> Option<Seq<char>> {
    if f.len() >= 2 && f[0] == '"' && f.last() == '"' {
        match unescape_spec(f.subrange(1, f.len() - 1)) {
            Some(b) => if valid_utf8(b) {
                Some(decode_utf8(b))
            } else {
                None
            },
            None => None,
        }
    } else {
        Some(f)
    }
}

proof fn lemma_prepend(p: Seq<u8>, q: Seq<u8>, r: Option<Seq<u8>>)
    ensures
        prepend(p, prepend(q, r)) == prepend(p + q, r),
{
    if let Some(t) = r {
        assert(p + (q + t) =~= (p + q) + t);
    }
}

/// The UTF-8 encoding of `c`.
fn encode_char(c: char) -> (r: Vec<u8>)
    ensures
        r@ == encode_scalar(c as u32),
{
    let v = c as u32;
    let mut r: Vec<u8> = Vec::new();
    if v <= 0x7F {
        r.push((v & 0x7F) as u8);
        assert(r@ =~= encode_scalar(v));
    } else if v <= 0x7FF {
        r.push(0xC0 | ((v >> 6) & 0x1F) as u8);
        r.push(0x80 | (v & 0x3F) as u8);
        assert(r@ =~= encode_scalar(v));
    } else if v <= 0xFFFF && !(0xD800 <= v && v <= 0xDFFF) {
        r.push(0xE0 | ((v >> 12) & 0x0F) as u8);
        r.push(0x80 | ((v >> 6) & 0x3F) as u8);
        r.push(0x80 | (v & 0x3F) as u8);
        assert(r@ =~= encode_scalar(v));
    } else {
        r.push(0xF0 | ((v >> 18) & 0x7) as u8);
        r.push(0x80 | ((v >> 12) & 0x3F) as u8);
        r.push(0x80 | ((v >> 6) & 0x3F) as u8);
        r.push(0x80 | (v & 0x3F) as u8);
        assert(r@ =~= encode_scalar(v));
    }
    r
}

fn octal_value(c: char) -> (r: u32)
    requires
        is_octal(c),
    ensures
        r == octal(c),
{
    c as u32 - '0' as u32
}

#[verifier::rlimit(30)]
fn unescape(s: &Vec<char>) -> (r: Option<Vec<u8>>)
    ensures
        match r {
            Some(b) => unescape_spec(s@) == Some(b@),
            None => unescape_spec(s@) is None,
        },
{
    let mut out: Vec<u8> = Vec::new();
    let mut i: usize = 0;
    let len = s.len();
    assert(s@.skip(0) =~= s@);
    assert(out@ + seq![] =~= seq![]);
    while i < len
        invariant
            i <= len == s@.len(),
            unescape_spec(s@) == prepend(out@, unescape_spec(s@.skip(i as int))),
        decreases len - i,
    {
        let ghost rest = s@.skip(i as int);
        assert(rest[0] == s@[i as int]);
        let c = s[i];
        if c == '\\' {
            if len - i >= 4 && '0' <= s[i + 1] && s[i + 1] <= '7' && '0' <= s[i + 2] && s[i + 2] <= '7'
                && '0' <= s[i + 3] && s[i + 3] <= '7' {
                assert(rest[1] == s@[i + 1] && rest[2] == s@[i + 2] && rest[3] == s@[i + 3]);
                let v = octal_value(s[i + 1]) * 64 + octal_value(s[i + 2]) * 8 + octal_value(s[i + 3]);
                if v >= 256 {
                    return None;
                }
                let b = v as u8;
                assert(rest.skip(4) =~= s@.skip(i + 4));
                proof {
                    lemma_prepend(out@, seq![b], unescape_spec(rest.skip(4)));
                }
                let ghost before = out@;
                out.push(b);
                assert(out@ =~= before + seq![b]);
                i += 4;
            } else if len - i >= 2 {
                assert(rest[1] == s@[i + 1]);
                let e = s[i + 1];
                let b: u8;
                if e == '\\' {
                    b = 92;
                } else if e == '"' {
                    b = 34;
                } else if e == 'a' {
                    b = 7;
                } else if e == 'b' {
                    b = 8;
                } else if e == 't' {
                    b = 9;
                } else if e == 'n' {
                    b = 10;
                } else if e == 'v' {
                    b = 11;
                } else if e == 'f' {
                    b = 12;
                } else if e == 'r' {
                    b = 13;
                } else {
                    return None;
                }
                assert(escape_byte(e) == Some(b));
                assert(rest.skip(2) =~= s@.skip(i + 2));
                proof {
                    lemma_prepend(out@, seq![b], unescape_spec(rest.skip(2)));
                }
                let ghost before = out@;
                out.push(b);
                assert(out@ =~= before + seq![b]);
                i += 2;
            } else {
                return None;
            }
        } else if (c as u32) < 128 {
            let b = (c as u32) as u8;
            assert(rest.skip(1) =~= s@.skip(i + 1));
            proof {
                lemma_prepend(out@, seq![b], unescape_spec(rest.skip(1)));
            }
            let ghost before = out@;
            out.push(b);
            assert(out@ =~= before + seq![b]);
            i += 1;
        } else {
            let mut enc = encode_char(c);
            let ghost e = enc@;
            assert(rest.skip(1) =~= s@.skip(i + 1));
            proof {
                lemma_prepend(out@, e, unescape_spec(rest.skip(1)));
            }
            out.append(&mut enc);
            i += 1;
        }
    }
    assert(s@.skip(len as int) =~= Seq::<char>::empty());
    assert(out@ + Seq::<u8>::empty() =~= out@);
    Some(out)
}


/// A path field without its quoting.
pub fn unquote(f: &Vec<char>) -> (r: Option<String>)
    ensures
        opt_view(r) == unquote_spec(f@),
{
    let len = f.len();
    if len >= 2 && f[0] == '"' && f[len - 1] == '"' {
        let body = slice(f, 1, len - 1);
        match unescape(&body) {
            Some(b) => string_from_utf8(b),
            None => None,
        }
    } else {
        assert(f@.subrange(0, len as int) =~= f@);
        Some(string_of(f, 0, len))
    }
}

/// The change that a status letter stands for: `None` for a letter outside the
/// table, `Some(None)` for a space (no change on that side).
pub open spec fn code_kind_spec(c: char) -> Option<Option<ChangeKind>> {
    if c == ' ' {
        Some(None)
    } else if c == 'A' {
        Some(Some(ChangeKind::Added))
    } else if c == 'M' {
        Some(Some(ChangeKind::Modified))
    } else if c == 'D' {
        Some(Some(ChangeKind::Deleted))
    } else if c == 'R' {
        Some(Some(ChangeKind::Renamed))
    } else if c == 'C' {
        Some(Some(ChangeKind::Copied))
    } else {
        None
    }
}

/// The change kind that a letter of a status code stands for.
pub fn code_kind(c: char) -> (r: Option<Option<ChangeKind>>)
    ensures
        r == code_kind_spec(c),
{
    if c == ' ' {
        Some(None)
    } else if c == 'A' {
        Some(Some(ChangeKind::Added))
    } else if c == 'M' {
        Some(Some(ChangeKind::Modified))
    } else if c == 'D' {
        Some(Some(ChangeKind::Deleted))
    } else if c == 'R' {
        Some(Some(ChangeKind::Renamed))
    } else if c == 'C' {
        Some(Some(ChangeKind::Copied))
    } else {
        None
    }
}

/// A letter that may stand in a status code: one of the code table, `?`
/// (untracked) or `U` (unmerged).
pub open spec fn is_status_letter(c: char) -> bool {
    code_kind_spec(c) is Some || c == '?' || c == 'U'
}

/// A `?` in either position marks the path untracked; the other letter must
/// still be a status letter.
pub open spec fn is_untracked_code(x: char, y: char) -> bool {
    (x == '?' || y == '?') && is_status_letter(x) && is_status_letter(y)
}

/// A `U` in either position, or `AA` or `DD` (added or deleted on both
/// sides), marks the path conflicted; the other letter must still be a status
/// letter.
pub open spec fn is_conflict_code(x: char, y: char) -> bool {
    ((x == 'U' || y == 'U') && is_status_letter(x) && is_status_letter(y)) || (x == 'A' && y == 'A') || (x == 'D'
        && y == 'D')
}

fn status_letter(c: char) -> (r: bool)
    ensures
        r == is_status_letter(c),
{
    code_kind(c).is_some() || c == '?' || c == 'U'
}

fn untracked_code(x: char, y: char) -> (r: bool)
    ensures
        r == is_untracked_code(x, y),
{
    (x == '?' || y == '?') && status_letter(x) && status_letter(y)
}

fn conflict_code(x: char, y: char) -> (r: bool)
    ensures
        r == is_conflict_code(x, y),
{
    ((x == 'U' || y == 'U') && status_letter(x) && status_letter(y)) || (x == 'A' && y == 'A') || (x == 'D' && y
        == 'D')
}

pub open spec fn is_rename_code(x: char, y: char) -> bool {
    x == 'R' || x == 'C' || y == 'R' || y == 'C'
}

/// The paths of an entry's field: `<old> -> <new>` for a rename or copy,
/// otherwise one path.
pub open spec fn paths_spec(field: Seq<char>, renamed: bool) -> Option<(Option<Seq<char>>, Seq<char>)> {
    if renamed {
        match find(field, " -> "@) {
            Some(k) => match (
                unquote_spec(field.take(k as int)),
                unquote_spec(field.skip((k + " -> "@.len()) as int)),
            ) {
                (Some(a), Some(b)) => Some((Some(a), b)),
                _ => None,
            },
            None => None,
        }
    } else {
        match unquote_spec(field) {
            Some(p) => Some((None, p)),
            None => None,
        }
    }
}

/// The entry that a status line `XY <path>` describes.
pub open spec fn entry_spec(line: Seq<char>) -> Option<EntryModel> {
    if line.len() < 4 || line[2] != ' ' {
        None
    } else {
        let x = line[0];
        let y = line[1];
        match paths_spec(line.skip(3), is_rename_code(x, y)) {
            None => None,
            Some((from, path)) => if is_untracked_code(x, y) {
                Some(
                    EntryModel {
                        path,
                        rename_from: from,
                        staged_kind: None,
                        unstaged_kind: None,
                        is_untracked: true,
                        is_conflicted: false,
                    },
                )
            } else if is_conflict_code(x, y) {
                Some(
                    EntryModel {
                        path,
                        rename_from: from,
                        staged_kind: None,
                        unstaged_kind: None,
                        is_untracked: false,
                        is_conflicted: true,
                    },
                )
            } else {
                match (code_kind_spec(x), code_kind_spec(y)) {
                    (Some(s), Some(u)) => if s is None && u is None {
                        None
                    } else {
                        Some(
                            EntryModel {
                                path,
                                rename_from: from,
                                staged_kind: s,
                                unstaged_kind: u,
                                is_untracked: false,
                                is_conflicted: false,
                            },
                        )
                    },
                    _ => None,
                }
            },
        }
    }
}

pub open spec fn opt_entry_view(e: Option<Entry>) -> Option<EntryModel> {
    match e {
        Some(x) => Some(x@),
        None => None,
    }
}

fn parse_paths(field: &Vec<char>, renamed: bool) -> (r: Option<(Option<String>, String)>)
    ensures
        match r {
            Some((a, b)) => paths_spec(field@, renamed) == Some((opt_view(a), b@)),
            None => paths_spec(field@, renamed) is None,
        },
{
    if renamed {
        match find_in(field, " -> ") {
            Some(k) => {
                proof {
                    lemma_find_bound(field@, " -> "@);
                }
                let n = " -> ".unicode_len();
                let len = field.len();
                let a = slice(field, 0, k);
                let b = slice(field, k + n, len);
                assert(a@ =~= field@.take(k as int));
                assert(b@ =~= field@.skip((k + n) as int));
                match (unquote(&a), unquote(&b)) {
                    (Some(x), Some(y)) => Some((Some(x), y)),
                    _ => None,
                }
            },
            None => None,
        }
    } else {
        match unquote(field) {
            Some(p) => Some((None, p)),
            None => None,
        }
    }
}

/// Reads one status line `XY <path>`.
#[verifier::rlimit(30)]
pub fn parse_entry(line: &Vec<char>) -> (r: Option<Entry>)
    ensures
        opt_entry_view(r) == entry_spec(line@),
{
    let len = line.len();
    if len < 4 || line[2] != ' ' {
        return None;
    }
    let x = line[0];
    let y = line[1];
    let field = slice(line, 3, len);
    assert(field@ =~= line@.skip(3));
    let renamed = x == 'R' || x == 'C' || y == 'R' || y == 'C';
    match parse_paths(&field, renamed) {
        None => None,
        Some((from, path)) => {
            if untracked_code(x, y) {
                Some(
                    Entry {
                        path,
                        rename_from: from,
                        staged_kind: None,
                        unstaged_kind: None,
                        is_untracked: true,
                        is_conflicted: false,
                    },
                )
            } else if conflict_code(x, y) {
                Some(
                    Entry {
                        path,
                        rename_from: from,
                        staged_kind: None,
                        unstaged_kind: None,
                        is_untracked: false,
                        is_conflicted: true,
                    },
                )
            } else {
                match (code_kind(x), code_kind(y)) {
                    (Some(s), Some(u)) => {
                        if s.is_none() && u.is_none() {
                            None
                        } else {
                            Some(
                                Entry {
                                    path,
                                    rename_from: from,
                                    staged_kind: s,
                                    unstaged_kind: u,
                                    is_untracked: false,
                                    is_conflicted: false,
                                },
                            )
                        }
                    },
                    _ => None,
                }
            }
        },
    }
}

/// The entries of the lines `ls`, or the index of the first line that is no entry.
pub open spec fn entries_spec(ls: Seq<Seq<char>>) -> Result<Seq<EntryModel>, nat>
    decreases ls.len(),
{
    if ls.len() == 0 {
        Ok(Seq::empty())
    } else {
        match entries_spec(ls.drop_last()) {
            Err(i) => Err(i),
            Ok(es) => match entry_spec(ls.last()) {
                Some(e) => Ok(es.push(e)),
                None => Err((ls.len() - 1) as nat),
            },
        }
    }
}

proof fn lemma_entries_error_stays(ls: Seq<Seq<char>>, k: int)
    requires
        0 <= k <= ls.len(),
        entries_spec(ls.take(k)) is Err,
    ensures
        entries_spec(ls) == entries_spec(ls.take(k)),
    decreases ls.len() - k,
{
    if k == ls.len() {
        assert(ls.take(k) =~= ls);
    } else {
        assert(ls.take(k + 1).drop_last() =~= ls.take(k));
        lemma_entries_error_stays(ls, k + 1);
    }
}

/// The status that porcelain text describes, or the index of the first line
/// that breaks the grammar: the branch header first, then one entry per line.
pub open spec fn status_spec(text: Seq<char>) -> Result<StatusModel, nat> {
    let ls = lines_of(text);
    if ls.len() == 0 {
        Err(0)
    } else {
        match header_spec(ls[0]) {
            None => Err(0),
            Some(h) => match entries_spec(ls.skip(1)) {
                Err(i) => Err(i + 1),
                Ok(es) => Ok(
                    StatusModel {
                        branch: h.branch,
                        upstream: h.upstream,
                        ahead: h.ahead,
                        behind: h.behind,
                        entries: es,
                    },
                ),
            },
        }
    }
}

/// The line of `ls` at `i`, or nothing past the end.
pub open spec fn line_at(ls: Seq<Seq<char>>, i: int) -> Seq<char> {
    if 0 <= i < ls.len() {
        ls[i]
    } else {
        Seq::empty()
    }
}

pub fn line_text(ls: &Vec<Vec<char>>, i: usize) -> (r: String)
    ensures
        r@ == line_at(views(ls@), i as int),
{
    if i < ls.len() {
        let l = &ls[i];
        assert(l@.subrange(0, l@.len() as int) =~= l@);
        string_of(l, 0, l.len())
    } else {
        String::new()
    }
}

/// Parses the output of `git status --porcelain --branch`.
#[verifier::rlimit(30)]
pub fn parse_status(text: &str) -> (r: Result<Status, ParseError>)
    ensures
        match r {
            Ok(s) => status_spec(text@) == Ok::<StatusModel, nat>(s@),
            Err(e) => status_spec(text@) == Err::<StatusModel, nat>(e.line as nat)
                && e.text@ == line_at(lines_of(text@), e.line as int),
        },
{
    let chars = chars_of(text);
    let ls = split_lines(&chars);
    if ls.len() == 0 {
        return Err(ParseError { line: 0, text: String::new() });
    }
    assert(views(ls@)[0] == ls@[0]@);
    let header = parse_header(&ls[0]);
    match header {
        None => Err(ParseError { line: 0, text: line_text(&ls, 0) }),
        Some((branch, upstream, ahead, behind)) => {
            let ghost rest = views(ls@).skip(1);
            let mut entries: Vec<Entry> = Vec::new();
            let mut i: usize = 1;
            assert(rest.take(0) =~= Seq::<Seq<char>>::empty());
            assert(entries@.map_values(|e: Entry| e@) =~= Seq::<EntryModel>::empty());
            while i < ls.len()
                invariant
                    1 <= i <= ls@.len(),
                    rest == views(ls@).skip(1),
                    views(ls@) == lines_of(text@),
                    header_spec(views(ls@)[0]) == header_view(Some((branch, upstream, ahead, behind))),
                    entries_spec(rest.take(i - 1)) == Ok::<Seq<EntryModel>, nat>(
                        entries@.map_values(|e: Entry| e@),
                    ),
                decreases ls@.len() - i,
            {
                assert(rest.take(i as int).drop_last() =~= rest.take(i - 1));
                assert(rest.take(i as int).last() == ls@[i as int]@);
                match parse_entry(&ls[i]) {
                    Some(e) => {
                        let ghost before = entries@;
                        entries.push(e);
                        assert(entries@.map_values(|e: Entry| e@) =~= before.map_values(|e: Entry| e@).push(e@));
                    },
                    None => {
                        proof {
                            lemma_entries_error_stays(rest, i as int);
                        }
                        return Err(ParseError { line: i, text: line_text(&ls, i) });
                    },
                }
                i += 1;
            }
            assert(rest.take(ls@.len() - 1) =~= rest);
            Ok(Status { branch, upstream, ahead, behind, entries })
        },
    }
}


/// A letter that is no status letter gives no entry, never a default one.
pub proof fn lemma_unknown_letter_rejected(line: Seq<char>)
    requires
        line.len() >= 2,
        !is_status_letter(line[0]) || !is_status_letter(line[1]),
    ensures
        entry_spec(line) is None,
{
}

/// Every entry has exactly one classification: untracked, conflicted, or
/// changed on at least one side. A `?` in the code makes it untracked, and a
/// `U` without a `?` makes it conflicted.
pub proof fn lemma_entry_classification(line: Seq<char>)
    ensures
        entry_spec(line) matches Some(e) ==> {
            ||| (e.is_untracked && !e.is_conflicted && e.staged_kind is None && e.unstaged_kind is None)
            ||| (e.is_conflicted && !e.is_untracked && e.staged_kind is None && e.unstaged_kind is None)
            ||| (!e.is_untracked && !e.is_conflicted && (e.staged_kind is Some || e.unstaged_kind is Some))
        },
        entry_spec(line) is Some && (line[0] == '?' || line[1] == '?') ==> entry_spec(line)->0.is_untracked,
        entry_spec(line) is Some && (line[0] == 'U' || line[1] == 'U') && line[0] != '?' && line[1] != '?'
            ==> entry_spec(line)->0.is_conflicted,
{
}

/// A status line `XY <path>` with both letters from the code table (not both
/// spaces) and a plain path gives exactly the entry that the table describes.
pub proof fn lemma_plain_line_follows_code_table(x: char, y: char, f: Seq<char>)
    requires
        code_kind_spec(x) is Some,
        code_kind_spec(y) is Some,
        !(x == ' ' && y == ' '),
        !is_rename_code(x, y),
        !(x == 'A' && y == 'A'),
        !(x == 'D' && y == 'D'),
        f.len() > 0,
        f[0] != '"',
    ensures
        entry_spec(seq![x, y, ' '] + f) == Some(
            EntryModel {
                path: f,
                rename_from: None,
                staged_kind: code_kind_spec(x)->0,
                unstaged_kind: code_kind_spec(y)->0,
                is_untracked: false,
                is_conflicted: false,
            },
        ),
{
    let line = seq![x, y, ' '] + f;
    assert(line.skip(3) =~= f);
}

/// A status line whose code is neither untracked nor conflicted classifies
/// its path by the code table alone: the staged kind is what the first letter
/// stands for and the unstaged kind what the second stands for; and where both
/// letters are in the table (not both spaces) and the path field reads, the
/// entry is there.
pub proof fn lemma_entry_follows_code_table(line: Seq<char>)
    requires
        line.len() >= 4,
        line[2] == ' ',
        !is_untracked_code(line[0], line[1]),
        !is_conflict_code(line[0], line[1]),
    ensures
        entry_spec(line) matches Some(e) ==> Some(e.staged_kind) == code_kind_spec(line[0]) && Some(
            e.unstaged_kind,
        ) == code_kind_spec(line[1]) && !e.is_untracked && !e.is_conflicted,
        code_kind_spec(line[0]) is Some && code_kind_spec(line[1]) is Some && !(line[0] == ' ' && line[1] == ' ')
            && paths_spec(line.skip(3), is_rename_code(line[0], line[1])) is Some ==> entry_spec(line) is Some,
{
}


/// The counts suffix of a tracking header for the given digit strings:
/// ` [ahead N]`, ` [behind M]`, ` [ahead N, behind M]`, or nothing.
pub open spec fn counts_text(ahead: Option<Seq<char>>, behind: Option<Seq<char>>) -> Seq<char> {
    match (ahead, behind) {
        (None, None) => Seq::empty(),
        (Some(a), None) => " [ahead "@ + a + "]"@,
        (None, Some(b)) => " [behind "@ + b + "]"@,
        (Some(a), Some(b)) => " [ahead "@ + a + ", behind "@ + b + "]"@,
    }
}

/// The count that a digit string stands for, zero where it is left out.
pub open spec fn count_of(d: Option<Seq<char>>) -> u64 {
    match d {
        Some(x) => digits_value(x) as u64,
        None => 0,
    }
}

pub open spec fn no_space(s: Seq<char>) -> bool {
    forall|i: int| 0 <= i < s.len() ==> #[trigger] s[i] != ' '
}

/// A name that git accepts for a branch, as far as the header depends on it:
/// not empty, no spaces, no two dots in a row and no dot at the end.
pub open spec fn is_branch_name(b: Seq<char>) -> bool {
    &&& b.len() > 0
    &&& no_space(b)
    &&& b.last() != '.'
    &&& forall|i: int| 0 <= i < b.len() - 1 ==> !(#[trigger] b[i] == '.' && b[i + 1] == '.')
}

proof fn lemma_no_char(s: Seq<char>, p: Seq<char>)
    requires
        p.len() > 0,
        forall|i: int| 0 <= i < s.len() ==> #[trigger] s[i] != p[0],
    ensures
        find(s, p) is None,
{
    assert forall|i: int| 0 <= i < s.len() implies !is_prefix(p, #[trigger] s.skip(i)) by {
        if is_prefix(p, s.skip(i)) {
            assert(s.skip(i).take(p.len() as int)[0] == s[i]);
        }
    }
    lemma_find_after(s, p, s.len() as int);
    assert(!is_prefix(p, s.skip(s.len() as int)));
}

#[verifier::rlimit(30)]
proof fn lemma_track_ahead(x: Seq<char>)
    requires
        is_number(x),
    ensures
        track_spec(" [ahead "@ + x + "]"@) == Some((digits_value(x) as u64, 0u64)),
{
    reveal_strlit(" [");
    reveal_strlit(" [ahead ");
    reveal_strlit("ahead ");
    reveal_strlit(", behind ");
    reveal_strlit("]");
    let inner = "ahead "@ + x;
    assert(" [ahead "@ + x + "]"@ =~= " ["@ + (inner + "]"@));
    lemma_strip_concat(" ["@, inner + "]"@);
    assert((inner + "]"@).drop_last() =~= inner);
    lemma_strip_concat("ahead "@, x);
    lemma_no_char(x, ", behind "@);
}

#[verifier::rlimit(30)]
proof fn lemma_track_behind(y: Seq<char>)
    requires
        is_number(y),
    ensures
        track_spec(" [behind "@ + y + "]"@) == Some((0u64, digits_value(y) as u64)),
{
    reveal_strlit(" [");
    reveal_strlit(" [behind ");
    reveal_strlit("ahead ");
    reveal_strlit("behind ");
    reveal_strlit("]");
    let inner = "behind "@ + y;
    assert(" [behind "@ + y + "]"@ =~= " ["@ + (inner + "]"@));
    lemma_strip_concat(" ["@, inner + "]"@);
    assert((inner + "]"@).drop_last() =~= inner);
    if is_prefix("ahead "@, inner) {
        assert(inner.take(6)[0] == inner[0]);
    }
    lemma_strip_concat("behind "@, y);
}

#[verifier::rlimit(30)]
proof fn lemma_find_behind(x: Seq<char>, y: Seq<char>)
    requires
        is_number(x),
    ensures
        find(x + ", behind "@ + y, ", behind "@) == Some(x.len()),
        (x + ", behind "@ + y).take(x.len() as int) == x,
        (x + ", behind "@ + y).skip((x.len() + ", behind "@.len()) as int) == y,
{
    reveal_strlit(", behind ");
    let r = x + ", behind "@ + y;
    assert forall|i: int| 0 <= i < x.len() implies !is_prefix(", behind "@, #[trigger] r.skip(i)) by {
        assert(r[i] == x[i]);
        if is_prefix(", behind "@, r.skip(i)) {
            assert(r.skip(i).take(9)[0] == r[i]);
        }
    }
    lemma_find_after(r, ", behind "@, x.len() as int);
    assert(r.skip(x.len() as int) =~= ", behind "@ + y);
    assert((", behind "@ + y).take(9) =~= ", behind "@);
    assert(r.take(x.len() as int) =~= x);
    assert(r.skip(x.len() + 9 as int) =~= y);
}

#[verifier::rlimit(40)]
proof fn lemma_track_both(x: Seq<char>, y: Seq<char>)
    requires
        is_number(x),
        is_number(y),
    ensures
        track_spec(" [ahead "@ + x + ", behind "@ + y + "]"@) == Some(
            (digits_value(x) as u64, digits_value(y) as u64),
        ),
{
    let r = x + ", behind "@ + y;
    let inner = "ahead "@ + r;
    let t = " [ahead "@ + x + ", behind "@ + y + "]"@;
    assert(t =~= " ["@ + (inner + "]"@)) by {
        reveal_strlit(" [");
        reveal_strlit(" [ahead ");
        reveal_strlit("ahead ");
    }
    lemma_strip_concat(" ["@, inner + "]"@);
    assert((inner + "]"@).len() > 0 && (inner + "]"@).last() == ']') by {
        reveal_strlit("]");
    }
    assert((inner + "]"@).drop_last() =~= inner) by {
        reveal_strlit("]");
    }
    lemma_strip_concat("ahead "@, r);
    lemma_find_behind(x, y);
    assert(strip(" ["@, t) == Some(inner + "]"@));
    assert(strip("ahead "@, inner) == Some(r));
}

proof fn lemma_track(a: Option<Seq<char>>, b: Option<Seq<char>>)
    requires
        a is Some || b is Some,
        a matches Some(x) ==> is_number(x),
        b matches Some(y) ==> is_number(y),
    ensures
        track_spec(counts_text(a, b)) == Some((count_of(a), count_of(b))),
{
    match (a, b) {
        (Some(x), None) => lemma_track_ahead(x),
        (None, Some(y)) => lemma_track_behind(y),
        (Some(x), Some(y)) => lemma_track_both(x, y),
        _ => {},
    }
}


proof fn lemma_not_special(rest: Seq<char>)
    requires
        forall|i: int| 0 <= i < rest.len() && i < 5 ==> #[trigger] rest[i] != ' ',
    ensures
        rest != "HEAD (no branch)"@,
        strip("No commits yet on "@, rest) is None,
{
    reveal_strlit("HEAD (no branch)");
    reveal_strlit("No commits yet on ");
    if rest == "HEAD (no branch)"@ {
        assert(rest[4] == ' ');
    }
    if is_prefix("No commits yet on "@, rest) {
        assert(rest.take(18)[2] == rest[2]);
    }
}

proof fn lemma_no_dots(b: Seq<char>)
    requires
        is_branch_name(b),
    ensures
        forall|i: int| 0 <= i < b.len() ==> !is_prefix("..."@, #[trigger] b.skip(i)),
{
    reveal_strlit("...");
    assert forall|i: int| 0 <= i < b.len() implies !is_prefix("..."@, #[trigger] b.skip(i)) by {
        if is_prefix("..."@, b.skip(i)) {
            assert(b.skip(i).take(3)[0] == b[i]);
            assert(b.skip(i).take(3)[1] == b[i + 1]);
        }
    }
}

/// The detached form `## HEAD (no branch)` reads as a detached head with no
/// upstream and zero counts.
pub proof fn lemma_header_detached()
    ensures
        header_spec("## HEAD (no branch)"@) == Some(
            HeaderModel { branch: BranchModel::Detached, upstream: None, ahead: 0, behind: 0 },
        ),
{
    reveal_strlit("## HEAD (no branch)");
    reveal_strlit("## ");
    reveal_strlit("HEAD (no branch)");
    assert("## HEAD (no branch)"@ =~= "## "@ + "HEAD (no branch)"@);
    lemma_strip_concat("## "@, "HEAD (no branch)"@);
}

/// The unborn form `## No commits yet on <branch>` gives back the branch.
#[verifier::rlimit(30)]
pub proof fn lemma_header_unborn(b: Seq<char>)
    requires
        b.len() > 0,
    ensures
        header_spec("## No commits yet on "@ + b) == Some(
            HeaderModel { branch: BranchModel::Unborn(b), upstream: None, ahead: 0, behind: 0 },
        ),
{
    reveal_strlit("## No commits yet on ");
    reveal_strlit("## ");
    reveal_strlit("No commits yet on ");
    reveal_strlit("HEAD (no branch)");
    let rest = "No commits yet on "@ + b;
    assert("## No commits yet on "@ + b =~= "## "@ + rest);
    lemma_strip_concat("## "@, rest);
    assert(rest[0] != "HEAD (no branch)"@[0]);
    lemma_strip_concat("No commits yet on "@, b);
}

/// The form `## <branch>` gives back the branch, with no upstream and zero counts.
#[verifier::rlimit(30)]
pub proof fn lemma_header_local(b: Seq<char>)
    requires
        is_branch_name(b),
    ensures
        header_spec("## "@ + b) == Some(
            HeaderModel { branch: BranchModel::Named(b), upstream: None, ahead: 0, behind: 0 },
        ),
{
    reveal_strlit("...");
    reveal_strlit(" ");
    lemma_strip_concat("## "@, b);
    lemma_not_special(b);
    lemma_no_dots(b);
    lemma_find_after(b, "..."@, b.len() as int);
    assert(!is_prefix("..."@, b.skip(b.len() as int)));
    lemma_no_char(b, " "@);
}

/// Where the upstream is followed by `c` (nothing, or text that starts with a
/// space), the first space after the `...` ends the upstream.
#[verifier::rlimit(30)]
proof fn lemma_upstream_end(u: Seq<char>, c: Seq<char>)
    requires
        u.len() > 0,
        no_space(u),
        c.len() > 0 ==> c[0] == ' ',
    ensures
        c.len() == 0 ==> find(u + c, " "@) is None,
        c.len() > 0 ==> find(u + c, " "@) == Some(u.len()),
        (u + c).take(u.len() as int) == u,
        (u + c).skip(u.len() as int) == c,
{
    reveal_strlit(" ");
    let t = u + c;
    assert(t.take(u.len() as int) =~= u);
    assert(t.skip(u.len() as int) =~= c);
    if c.len() == 0 {
        assert(t =~= u);
        lemma_no_char(u, " "@);
    } else {
        assert forall|i: int| 0 <= i < u.len() implies !is_prefix(" "@, #[trigger] t.skip(i)) by {
            if is_prefix(" "@, t.skip(i)) {
                assert(t.skip(i).take(1)[0] == u[i]);
            }
        }
        lemma_find_after(t, " "@, u.len() as int);
        assert(t.skip(u.len() as int).take(1) =~= " "@);
    }
}

/// The `...` after a branch name is the first one in the header.
#[verifier::rlimit(30)]
proof fn lemma_dots_after_branch(b: Seq<char>, w: Seq<char>)
    requires
        is_branch_name(b),
    ensures
        find(b + "..."@ + w, "..."@) == Some(b.len()),
        (b + "..."@ + w).take(b.len() as int) == b,
        (b + "..."@ + w).skip(b.len() + 3 as int) == w,
        "..."@.len() == 3,
{
    reveal_strlit("...");
    let rest = b + "..."@ + w;
    lemma_no_dots(b);
    assert forall|i: int| 0 <= i < b.len() implies !is_prefix("..."@, #[trigger] rest.skip(i)) by {
        if is_prefix("..."@, rest.skip(i)) {
            assert(rest.skip(i).take(3)[0] == rest[i]);
            assert(rest.skip(i).take(3)[1] == rest[i + 1]);
            assert(rest[i] == b[i]);
            if i + 1 < b.len() {
                assert(rest[i + 1] == b[i + 1]);
            }
        }
    }
    lemma_find_after(rest, "..."@, b.len() as int);
    assert(rest.skip(b.len() as int).take(3) =~= "..."@);
    assert(rest.take(b.len() as int) =~= b);
    assert(rest.skip(b.len() + 3 as int) =~= w);
}

/// The tracking form `## <branch>...<upstream>` with an optional
/// ` [ahead N]`, ` [behind M]` or ` [ahead N, behind M]` gives back the
/// branch, the upstream and the counts, zero where left out.
#[verifier::rlimit(40)]
pub proof fn lemma_header_tracking(b: Seq<char>, u: Seq<char>, a: Option<Seq<char>>, bh: Option<Seq<char>>)
    requires
        is_branch_name(b),
        u.len() > 0,
        no_space(u),
        a matches Some(x) ==> is_number(x),
        bh matches Some(y) ==> is_number(y),
    ensures
        header_spec("## "@ + b + "..."@ + u + counts_text(a, bh)) == Some(
            HeaderModel {
                branch: BranchModel::Named(b),
                upstream: Some(u),
                ahead: count_of(a),
                behind: count_of(bh),
            },
        ),
{
    let c = counts_text(a, bh);
    let w = u + c;
    let rest = b + "..."@ + w;
    assert("## "@ + b + "..."@ + u + c =~= "## "@ + rest);
    lemma_strip_concat("## "@, rest);
    assert forall|i: int| 0 <= i < rest.len() && i < 5 implies #[trigger] rest[i] != ' ' by {
        reveal_strlit("...");
        if i >= b.len() + 3 {
            assert(rest[i] == u[i - b.len() - 3]);
        }
    }
    lemma_not_special(rest);
    lemma_dots_after_branch(b, w);
    if a is Some || bh is Some {
        assert(c[0] == ' ') by {
            reveal_strlit(" [ahead ");
            reveal_strlit(" [behind ");
        }
        lemma_track(a, bh);
    }
    lemma_upstream_end(u, c);
    assert(strip("## "@, "## "@ + rest) == Some(rest));
    assert(tracking_header_spec(rest) == header_spec("## "@ + rest));
}

proof fn lemma_entries_match_lines(ls: Seq<Seq<char>>)
    ensures
        entries_spec(ls) matches Ok(es) ==> es.len() == ls.len() && forall|i: int|
            0 <= i < ls.len() ==> entry_spec(#[trigger] ls[i]) == Some(es[i]),
    decreases ls.len(),
{
    if ls.len() > 0 {
        lemma_entries_match_lines(ls.drop_last());
        if let Ok(es) = entries_spec(ls) {
            let prev = entries_spec(ls.drop_last())->Ok_0;
            assert forall|i: int| 0 <= i < ls.len() implies entry_spec(#[trigger] ls[i]) == Some(es[i]) by {
                if i < ls.len() - 1 {
                    assert(ls[i] == ls.drop_last()[i]);
                    assert(es[i] == prev[i]);
                }
            }
        }
    }
}

/// Each entry of a parsed status is what its own line reads as: the first
/// line is the header and line `i + 1` gives entry `i`, so the laws on single
/// lines (the code table, the classification) hold of every entry.
pub proof fn lemma_status_entries_follow_lines(text: Seq<char>)
    ensures
        status_spec(text) matches Ok(st) ==> lines_of(text).len() == st.entries.len() + 1 && forall|i: int|
            0 <= i < st.entries.len() ==> entry_spec(#[trigger] lines_of(text)[i + 1]) == Some(st.entries[i]),
{
    let ls = lines_of(text);
    if ls.len() > 0 {
        lemma_entries_match_lines(ls.skip(1));
        if let Ok(st) = status_spec(text) {
            assert forall|i: int| 0 <= i < st.entries.len() implies entry_spec(#[trigger] ls[i + 1]) == Some(
                st.entries[i],
            ) by {
                assert(ls.skip(1)[i] == ls[i + 1]);
            }
        }
    }
}

} // verus!
