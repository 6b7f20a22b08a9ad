//! Reading the state of an interactive rebase from its bookkeeping files, and
//! the ref listings used to name commits.
use vstd::prelude::*;
use crate::error::{GitError, ParseError};
use crate::status::{line_at, line_text, opt_view};
use crate::text::{
    chars_of, find, find_in, is_prefix, lemma_find_bound, lines_of, slice, split_lines, starts_with_at,
    string_of, strip, strip_prefix, views,
};

verus! {

/// An interactive rebase in progress: what it rebases onto (a branch name, or
/// an abbreviated hash) and the branch being rebased.
#[derive(Clone, Debug, PartialEq, Eq)]
pub struct RebaseStatus {
    pub onto: String,
    pub head_name: String,
}

/// The characters of the Unicode property White_Space, by which
/// `char::is_whitespace` and `str::trim` go.
pub open spec fn is_white_space(c: char) -> bool {
    ('\u{9}' <= c && c <= '\u{d}') || c == ' ' || c == '\u{85}' || c == '\u{a0}' || c == '\u{1680}' || ('\u{2000}'
        <= c && c <= '\u{200a}') || c == '\u{2028}' || c == '\u{2029}' || c == '\u{202f}' || c == '\u{205f}' || c
        == '\u{3000}'
}

/// `s` without its leading white space.
pub open spec fn trim_start_spec(s: Seq<char>) -> Seq<char>
    decreases s.len(),
{
    if s.len() > 0 && is_white_space(s[0]) {
        trim_start_spec(s.drop_first())
    } else {
        s
    }
}

/// `s` without its trailing white space.
pub open spec fn trim_end_spec(s: Seq<char>) -> Seq<char>
    decreases s.len(),
{
    if s.len() > 0 && is_white_space(s.last()) {
        trim_end_spec(s.drop_last())
    } else {
        s
    }
}

/// `s` without its leading and trailing white space.
pub open spec fn trim_spec(s: Seq<char>) -> Seq<char> {
    trim_end_spec(trim_start_spec(s))
}

/// Relies on `str::trim`: it drops the leading and trailing characters that
/// have the White_Space property.
#[verifier::external_body]
fn trim(s: &str) -> (r: String)
    ensures
        r@ == trim_spec(s@),
{
    s.trim().to_string()
}

/// The second space-separated column of a line, if it has one.
pub open spec fn second_column(line: Seq<char>) -> Option<Seq<char>> {
    match find(line, " "@) {
        None => None,
        Some(k) => {
            let rest = line.skip((k + 1) as int);
            match find(rest, " "@) {
                Some(m) => Some(rest.take(m as int)),
                None => Some(rest),
            }
        },
    }
}

/// The index of the first of `ls` that starts with `hash`.
pub open spec fn first_with_prefix(ls: Seq<Seq<char>>, hash: Seq<char>) -> Option<nat>
    decreases ls.len(),
{
    if ls.len() == 0 {
        None
    } else {
        match first_with_prefix(ls.drop_last(), hash) {
            Some(i) => Some(i),
            None => if is_prefix(hash, ls.last()) {
                Some((ls.len() - 1) as nat)
            } else {
                None
            },
        }
    }
}

/// The name of the ref whose hash starts with `hash`, in a listing of lines
/// `<hash> <name>`: the first such line decides.
pub open spec fn branch_name_spec(refs: Seq<char>, hash: Seq<char>) -> Option<Seq<char>> {
    let ls = lines_of(refs);
    match first_with_prefix(ls, hash) {
        Some(i) => second_column(ls[i as int]),
        None => None,
    }
}

fn second_column_exec(line: &Vec<char>) -> (r: Option<String>)
    ensures
        opt_view(r) == second_column(line@),
{
    proof {
        reveal_strlit(" ");
    }
    match find_in(line, " ") {
        None => None,
        Some(k) => {
            proof {
                lemma_find_bound(line@, " "@);
            }
            let len = line.len();
            let rest = slice(line, k + 1, len);
            assert(rest@ =~= line@.skip(k + 1));
            match find_in(&rest, " ") {
                Some(m) => {
                    proof {
                        lemma_find_bound(rest@, " "@);
                    }
                    assert(rest@.subrange(0, m as int) =~= rest@.take(m as int));
                    Some(string_of(&rest, 0, m))
                },
                None => {
                    assert(rest@.subrange(0, rest@.len() as int) =~= rest@);
                    Some(string_of(&rest, 0, rest.len()))
                },
            }
        },
    }
}

/// Looks `hash` up in the output of `git for-each-ref --format '%(objectname) %(refname:short)'`.
pub fn branch_name(refs: &str, hash: &str) -> (r: Option<String>)
    ensures
        opt_view(r) == branch_name_spec(refs@, hash@),
{
    let chars = chars_of(refs);
    let ls = split_lines(&chars);
    let ghost lv = views(ls@);
    let h = chars_of(hash);
    let mut i: usize = 0;
    assert(lv.take(0) =~= Seq::<Seq<char>>::empty());
    while i < ls.len()
        invariant
            i <= ls@.len(),
            lv == views(ls@),
            lv == lines_of(refs@),
            h@ == hash@,
            first_with_prefix(lv.take(i as int), hash@) is None,
        decreases ls@.len() - i,
    {
        assert(lv.take(i + 1).drop_last() =~= lv.take(i as int));
        assert(lv.take(i + 1).last() == ls@[i as int]@);
        if starts_with_at(&ls[i], 0, hash) {
            assert(ls@[i as int]@.skip(0) =~= ls@[i as int]@);
            proof {
                lemma_first_stays(lv, hash@, i + 1);
            }
            return second_column_exec(&ls[i]);
        }
        assert(ls@[i as int]@.skip(0) =~= ls@[i as int]@);
        i += 1;
    }
    assert(lv.take(i as int) =~= lv);
    None
}

proof fn lemma_first_stays(ls: Seq<Seq<char>>, hash: Seq<char>, k: int)
    requires
        0 <= k <= ls.len(),
        first_with_prefix(ls.take(k), hash) is Some,
    ensures
        first_with_prefix(ls, hash) == first_with_prefix(ls.take(k), hash),
    decreases ls.len() - k,
{
    if k == ls.len() {
        assert(ls.take(k) =~= ls);
    } else {
        assert(ls.take(k + 1).drop_last() =~= ls.take(k));
        lemma_first_stays(ls, hash, k + 1);
    }
}


/// What a rebase onto `onto` (a hash) is shown as: the ref that the listing
/// gives for it, else the hash cut to its first seven characters.
pub open spec fn onto_name_spec(refs: Seq<char>, onto: Seq<char>) -> Option<Seq<char>> {
    if onto.len() < 7 {
        None
    } else {
        match branch_name_spec(refs, onto) {
            Some(n) => Some(n),
            None => Some(onto.take(7)),
        }
    }
}

/// The onto name and the branch name of a rebase, from the (trimmed) contents
/// of its two bookkeeping files; the branch is named `refs/heads/<branch>` there.
pub open spec fn resolve_spec(onto: Seq<char>, head_name: Seq<char>, refs: Seq<char>) -> Option<(Seq<char>, Seq<char>)> {
    match (onto_name_spec(refs, onto), strip("refs/heads/"@, head_name)) {
        (Some(o), Some(h)) => Some((o, h)),
        _ => None,
    }
}

/// Describes a rebase from the trimmed contents of its onto and head-name
/// files and a listing of refs.
pub fn resolve_rebase(onto: &str, head_name: &str, refs: &str) -> (r: Result<RebaseStatus, GitError>)
    ensures
        match r {
            Ok(st) => resolve_spec(onto@, head_name@, refs@) == Some((st.onto@, st.head_name@)),
            Err(e) => resolve_spec(onto@, head_name@, refs@) is None && e is Parse,
        },
{
    let o = chars_of(onto);
    if o.len() < 7 {
        assert(o@.subrange(0, o@.len() as int) =~= o@);
        return Err(GitError::Parse(ParseError { line: 0, text: string_of(&o, 0, o.len()) }));
    }
    let name = match branch_name(refs, onto) {
        Some(n) => n,
        None => {
            assert(o@.subrange(0, 7) =~= o@.take(7));
            string_of(&o, 0, 7)
        },
    };
    let h = chars_of(head_name);
    match strip_prefix(&h, "refs/heads/") {
        Some(b) => {
            assert(b@.subrange(0, b@.len() as int) =~= b@);
            Ok(RebaseStatus { onto: name, head_name: string_of(&b, 0, b.len()) })
        },
        None => Err(GitError::Parse(ParseError { line: 0, text: string_of(&h, 0, h.len()) })),
    }
}

/// Whether a rebase is in progress and what it does, from the contents of its
/// bookkeeping files (`None` where a file is absent) and a listing of refs:
/// no onto file means no rebase; an onto file without a head-name file is an
/// error.
pub fn rebase_status(onto_file: Option<String>, head_name_file: Option<String>, refs: &str) -> (r: Result<
    Option<RebaseStatus>,
    GitError,
>)
    ensures
        onto_file is None ==> r == Ok::<Option<RebaseStatus>, GitError>(None),
        onto_file is Some && head_name_file is None ==> r matches Err(GitError::MissingRef(_)),
        onto_file is Some && head_name_file is Some ==> match r {
            Ok(Some(st)) => resolve_spec(trim_spec(onto_file->0@), trim_spec(head_name_file->0@), refs@) == Some(
                (st.onto@, st.head_name@),
            ),
            Ok(None) => false,
            Err(e) => resolve_spec(trim_spec(onto_file->0@), trim_spec(head_name_file->0@), refs@) is None && e is Parse,
        },
{
    match onto_file {
        None => Ok(None),
        Some(o) => match head_name_file {
            None => Err(GitError::MissingRef(String::from_str("head-name"))),
            Some(h) => {
                let onto = trim(o.as_str());
                let head = trim(h.as_str());
                match resolve_rebase(onto.as_str(), head.as_str(), refs) {
                    Ok(st) => Ok(Some(st)),
                    Err(e) => Err(e),
                }
            },
        },
    }
}

/// One line of a branch listing `<branch> <upstream> <subject>`: split at the
/// first two spaces, the subject keeping any further ones.
pub open spec fn ref_row_spec(line: Seq<char>) -> Option<(Seq<char>, Seq<char>, Seq<char>)> {
    match find(line, " "@) {
        None => None,
        Some(k) => {
            let rest = line.skip((k + 1) as int);
            match find(rest, " "@) {
                None => None,
                Some(m) => Some((line.take(k as int), rest.take(m as int), rest.skip((m + 1) as int))),
            }
        },
    }
}

/// The rows of a branch listing, or the index of the first malformed line.
pub open spec fn ref_rows_spec(ls: Seq<Seq<char>>) -> Result<Seq<(Seq<char>, Seq<char>, Seq<char>)>, nat>
    decreases ls.len(),
{
    if ls.len() == 0 {
        Ok(Seq::empty())
    } else {
        match ref_rows_spec(ls.drop_last()) {
            Err(i) => Err(i),
            Ok(rows) => match ref_row_spec(ls.last()) {
                Some(row) => Ok(rows.push(row)),
                None => Err((ls.len() - 1) as nat),
            },
        }
    }
}

pub open spec fn row_views(rows: Seq<(String, String, String)>) -> Seq<(Seq<char>, Seq<char>, Seq<char>)> {
    rows.map_values(|r: (String, String, String)| (r.0@, r.1@, r.2@))
}

fn ref_row(line: &Vec<char>) -> (r: Option<(String, String, String)>)
    ensures
        match r {
            Some((a, b, c)) => ref_row_spec(line@) == Some((a@, b@, c@)),
            None => ref_row_spec(line@) is None,
        },
{
    proof {
        reveal_strlit(" ");
    }
    match find_in(line, " ") {
        None => None,
        Some(k) => {
            proof {
                lemma_find_bound(line@, " "@);
            }
            let len = line.len();
            let rest = slice(line, k + 1, len);
            assert(rest@ =~= line@.skip(k + 1));
            match find_in(&rest, " ") {
                None => None,
                Some(m) => {
                    proof {
                        lemma_find_bound(rest@, " "@);
                    }
                    let rlen = rest.len();
                    assert(line@.subrange(0, k as int) =~= line@.take(k as int));
                    assert(rest@.subrange(0, m as int) =~= rest@.take(m as int));
                    assert(rest@.subrange(m + 1, rlen as int) =~= rest@.skip(m + 1));
                    Some((string_of(line, 0, k), string_of(&rest, 0, m), string_of(&rest, m + 1, rlen)))
                },
            }
        },
    }
}

proof fn lemma_rows_error_stays(ls: Seq<Seq<char>>, k: int)
    requires
        0 <= k <= ls.len(),
        ref_rows_spec(ls.take(k)) is Err,
    ensures
        ref_rows_spec(ls) == ref_rows_spec(ls.take(k)),
    decreases ls.len() - k,
{
    if k == ls.len() {
        assert(ls.take(k) =~= ls);
    } else {
        assert(ls.take(k + 1).drop_last() =~= ls.take(k));
        lemma_rows_error_stays(ls, k + 1);
    }
}

/// Parses the output of
/// `git for-each-ref --format '%(refname:short) %(upstream:short) %(subject)' refs/heads`
/// into rows of branch, upstream (possibly empty) and subject.
pub fn parse_refs(text: &str) -> (r: Result<Vec<(String, String, String)>, ParseError>)
    ensures
        match r {
            Ok(rows) => ref_rows_spec(lines_of(text@)) == Ok::<Seq<(Seq<char>, Seq<char>, Seq<char>)>, nat>(row_views(rows@)),
            Err(e) => ref_rows_spec(lines_of(text@)) == Err::<Seq<(Seq<char>, Seq<char>, Seq<char>)>, nat>(e.line as nat)
                && e.text@ == line_at(lines_of(text@), e.line as int),
        },
{
    let chars = chars_of(text);
    let ls = split_lines(&chars);
    let ghost lv = views(ls@);
    let mut rows: Vec<(String, String, String)> = Vec::new();
    let mut i: usize = 0;
    assert(lv.take(0) =~= Seq::<Seq<char>>::empty());
    assert(row_views(rows@) =~= Seq::<(Seq<char>, Seq<char>, Seq<char>)>::empty());
    while i < ls.len()
        invariant
            i <= ls@.len(),
            lv == views(ls@),
            lv == lines_of(text@),
            ref_rows_spec(lv.take(i as int)) == Ok::<Seq<(Seq<char>, Seq<char>, Seq<char>)>, nat>(row_views(rows@)),
        decreases ls@.len() - i,
    {
        assert(lv.take(i + 1).drop_last() =~= lv.take(i as int));
        assert(lv.take(i + 1).last() == ls@[i as int]@);
        match ref_row(&ls[i]) {
            Some(row) => {
                let ghost before = rows@;
                let ghost rv = (row.0@, row.1@, row.2@);
                rows.push(row);
                assert(row_views(rows@) =~= row_views(before).push(rv));
            },
            None => {
                proof {
                    lemma_rows_error_stays(lv, i + 1);
                }
                return Err(ParseError { line: i, text: line_text(&ls, i) });
            },
        }
        i += 1;
    }
    assert(lv.take(i as int) =~= lv);
    Ok(rows)
}

/// A rebase onto a hash of at least seven characters is shown as onto the ref
/// that the listing names for it where there is one, and onto the first seven
/// characters of the hash where there is none; a shorter (or empty) hash is
/// malformed bookkeeping.
pub proof fn lemma_onto_display(onto: Seq<char>, head_name: Seq<char>, refs: Seq<char>, branch: Seq<char>)
    requires
        strip("refs/heads/"@, head_name) == Some(branch),
    ensures
        onto.len() >= 7 && branch_name_spec(refs, onto) is Some ==> resolve_spec(onto, head_name, refs) == Some(
            (branch_name_spec(refs, onto)->0, branch),
        ),
        onto.len() >= 7 && branch_name_spec(refs, onto) is None ==> resolve_spec(onto, head_name, refs) == Some(
            (onto.take(7), branch),
        ),
        onto.len() < 7 ==> resolve_spec(onto, head_name, refs) is None,
{
}

} // verus!
