//! Character-level helpers shared by the parsers: splitting text into lines,
//! matching fixed prefixes, reading decimal numbers and building strings.
use vstd::prelude::*;
use vstd::utf8::{decode_utf8, valid_utf8};

verus! {

/// Relies on `String::push`: the character is appended at the end.
pub assume_specification[ String::push ](s: &mut String, ch: char)
    ensures
        final(s)@ == old(s)@.push(ch),
;

/// The views of a sequence of character vectors.
pub open spec fn views(v: Seq<Vec<char>>) -> Seq<Seq<char>> {
    v.map_values(|l: Vec<char>| l@)
}

/// `p` is a prefix of `s`.
pub open spec fn is_prefix(p: Seq<char>, s: Seq<char>) -> bool {
    p.len() <= s.len() && s.take(p.len() as int) == p
}

/// A line without the carriage return that ends it, if it has one.
pub open spec fn drop_cr(l: Seq<char>) -> Seq<char> {
    if l.len() > 0 && l.last() == '\r' {
        l.drop_last()
    } else {
        l
    }
}

/// Scanning `s` left to right: the lines closed by a newline so far, and the
/// characters of the line still open.
pub open spec fn scan_lines(s: Seq<char>) -> (Seq<Seq<char>>, Seq<char>)
    decreases s.len(),
{
    if s.len() == 0 {
        (Seq::empty(), Seq::empty())
    } else {
        let (done, cur) = scan_lines(s.drop_last());
        if s.last() == '\n' {
            (done.push(drop_cr(cur)), Seq::empty())
        } else {
            (done, cur.push(s.last()))
        }
    }
}

/// The lines of `s`: split at each newline, a final newline ending the last line
/// rather than starting an empty one; a carriage return before a newline
/// belongs to the line ending.
pub open spec fn lines_of(s: Seq<char>) -> Seq<Seq<char>> {
    let (done, cur) = scan_lines(s);
    if cur.len() == 0 {
        done
    } else {
        done.push(cur)
    }
}

pub open spec fn is_digit(c: char) -> bool {
    '0' <= c && c <= '9'
}

pub open spec fn all_digits(s: Seq<char>) -> bool {
    forall|i: int| 0 <= i < s.len() ==> is_digit(#[trigger] s[i])
}

/// The value of a string of decimal digits.
pub open spec fn digits_value(s: Seq<char>) -> nat
    decreases s.len(),
{
    if s.len() == 0 {
        0
    } else {
        digits_value(s.drop_last()) * 10 + ((s.last() as u32) - ('0' as u32)) as nat
    }
}

/// `s` is a non-empty run of digits whose value fits in a `u64`.
pub open spec fn is_number(s: Seq<char>) -> bool {
    s.len() > 0 && all_digits(s) && digits_value(s) <= u64::MAX
}

proof fn lemma_digits_value_monotone(s: Seq<char>, i: int)
    requires
        0 <= i <= s.len(),
        all_digits(s),
    ensures
        digits_value(s.take(i)) <= digits_value(s),
    decreases s.len() - i,
{
    if i < s.len() {
        lemma_digits_value_monotone(s, i + 1);
        assert(s.take(i + 1).drop_last() =~= s.take(i));
        assert(is_digit(s[i]));
    } else {
        assert(s.take(i) =~= s);
    }
}

/// The characters of `s`.
pub fn chars_of(s: &str) -> (r: Vec<char>)
    ensures
        r@ == s@,
{
    let mut r: Vec<char> = Vec::new();
    for c in it: s.chars()
        invariant
            r@ == it.seq().take(it.index() as int),
            it.seq() == s@,
    {
        r.push(c);
        assert(r@ =~= it.seq().take(it.index() + 1));
    }
    assert(r@ =~= s@);
    r
}

/// The characters `v[lo..hi]` as a string.
pub fn string_of(v: &Vec<char>, lo: usize, hi: usize) -> (r: String)
    requires
        lo <= hi <= v@.len(),
    ensures
        r@ == v@.subrange(lo as int, hi as int),
{
    let mut r = String::new();
    let mut i: usize = lo;
    while i < hi
        invariant
            lo <= i <= hi <= v@.len(),
            r@ == v@.subrange(lo as int, i as int),
        decreases hi - i,
    {
        r.push(v[i]);
        assert(r@ =~= v@.subrange(lo as int, i + 1));
        i += 1;
    }
    r
}

/// The decimal number written by `v[lo..hi]`, if it is one that fits in a `u64`.
pub fn parse_number(v: &Vec<char>, lo: usize, hi: usize) -> (r: Option<u64>)
    requires
        lo <= hi <= v@.len(),
    ensures
        r matches Some(n) ==> is_number(v@.subrange(lo as int, hi as int))
            && n == digits_value(v@.subrange(lo as int, hi as int)),
        r is None ==> !is_number(v@.subrange(lo as int, hi as int)),
{
    let ghost s = v@.subrange(lo as int, hi as int);
    if lo == hi {
        return None;
    }
    let mut i: usize = lo;
    while i < hi
        invariant
            lo <= i <= hi <= v@.len(),
            s == v@.subrange(lo as int, hi as int),
            forall|j: int| 0 <= j < i - lo ==> is_digit(#[trigger] s[j]),
        decreases hi - i,
    {
        if !('0' <= v[i] && v[i] <= '9') {
            assert(!is_digit(s[i - lo]));
            return None;
        }
        i += 1;
    }
    assert(all_digits(s));
    let mut n: u64 = 0;
    let mut k: usize = lo;
    while k < hi
        invariant
            lo <= k <= hi <= v@.len(),
            s == v@.subrange(lo as int, hi as int),
            all_digits(s),
            n == digits_value(s.take(k - lo)),
        decreases hi - k,
    {
        assert(s.take(k - lo + 1).drop_last() =~= s.take(k - lo));
        assert(s[k - lo] == v@[k as int]);
        assert(is_digit(s[k - lo]));
        let d = (v[k] as u32 - '0' as u32) as u64;
        match n.checked_mul(10) {
            Some(m) => match m.checked_add(d) {
                Some(t) => {
                    n = t;
                },
                None => {
                    proof {
                        lemma_digits_value_monotone(s, k - lo + 1);
                    }
                    return None;
                },
            },
            None => {
                proof {
                    lemma_digits_value_monotone(s, k - lo + 1);
                }
                return None;
            },
        }
        k += 1;
    }
    assert(s.take(hi - lo) =~= s);
    Some(n)
}

/// The lines of `text`, as [`lines_of`] describes them.
pub fn split_lines(text: &Vec<char>) -> (r: Vec<Vec<char>>)
    ensures
        views(r@) == lines_of(text@),
{
    let mut done: Vec<Vec<char>> = Vec::new();
    let mut cur: Vec<char> = Vec::new();
    let mut i: usize = 0;
    while i < text.len()
        invariant
            i <= text@.len(),
            (views(done@), cur@) == scan_lines(text@.take(i as int)),
        decreases text@.len() - i,
    {
        let c = text[i];
        assert(text@.take(i + 1).drop_last() =~= text@.take(i as int));
        let ghost before = done@;
        if c == '\n' {
            if cur.len() > 0 && cur[cur.len() - 1] == '\r' {
                let ghost full = cur@;
                cur.pop();
                assert(cur@ =~= full.drop_last());
            }
            let line = cur;
            cur = Vec::new();
            let ghost lv = line@;
            done.push(line);
            assert(views(done@) =~= views(before).push(lv));
        } else {
            cur.push(c);
        }
        i += 1;
    }
    assert(text@.take(text@.len() as int) =~= text@);
    let ghost before = done@;
    let ghost last = cur@;
    if cur.len() > 0 {
        done.push(cur);
        assert(views(done@) =~= views(before).push(last));
    }
    done
}


/// What is left of `s` after the prefix `p`, if `s` starts with it.
pub open spec fn strip(p: Seq<char>, s: Seq<char>) -> Option<Seq<char>> {
    if is_prefix(p, s) {
        Some(s.skip(p.len() as int))
    } else {
        None
    }
}

/// The first position in `s` at which `p` occurs.
pub open spec fn find(s: Seq<char>, p: Seq<char>) -> Option<nat>
    decreases s.len(),
{
    if is_prefix(p, s) {
        Some(0)
    } else if s.len() == 0 {
        None
    } else {
        match find(s.drop_first(), p) {
            Some(k) => Some(k + 1),
            None => None,
        }
    }
}

/// Where `find` answers, `p` does occur there.
pub proof fn lemma_find_bound(s: Seq<char>, p: Seq<char>)
    ensures
        find(s, p) matches Some(k) ==> k + p.len() <= s.len() && is_prefix(p, s.skip(k as int)),
    decreases s.len(),
{
    if is_prefix(p, s) {
        assert(s.skip(0) =~= s);
    } else if s.len() > 0 {
        lemma_find_bound(s.drop_first(), p);
        if let Some(k) = find(s.drop_first(), p) {
            assert(s.drop_first().skip(k as int) =~= s.skip(k + 1 as int));
        }
    }
}

/// Where `p` occurs at none of the first `k` positions of `s`, searching `s`
/// is searching what follows them.
pub proof fn lemma_find_after(s: Seq<char>, p: Seq<char>, k: int)
    requires
        0 <= k <= s.len(),
        forall|i: int| 0 <= i < k ==> !is_prefix(p, #[trigger] s.skip(i)),
    ensures
        find(s, p) == (match find(s.skip(k), p) {
            Some(m) => Some((m + k) as nat),
            None => None,
        }),
    decreases k,
{
    if k == 0 {
        assert(s.skip(0) =~= s);
    } else {
        lemma_find_after(s, p, k - 1);
        assert(!is_prefix(p, s.skip(k - 1)));
        assert(s.skip(k - 1).drop_first() =~= s.skip(k));
    }
}

/// A prefix comes off again.
pub proof fn lemma_strip_concat(p: Seq<char>, y: Seq<char>)
    ensures
        strip(p, p + y) == Some(y),
{
    assert((p + y).take(p.len() as int) =~= p);
    assert((p + y).skip(p.len() as int) =~= y);
}

/// Whether `v` starts with `p` at position `at`.
pub fn starts_with_at(v: &Vec<char>, at: usize, p: &str) -> (r: bool)
    requires
        at <= v@.len(),
    ensures
        r == is_prefix(p@, v@.skip(at as int)),
{
    let n = p.unicode_len();
    if n > v.len() - at {
        return false;
    }
    let len = v.len();
    let mut i: usize = 0;
    while i < n
        invariant
            n == p@.len(),
            len == v@.len(),
            at + n <= len,
            i <= n,
            forall|j: int| 0 <= j < i ==> v@[at + j] == p@[j],
        decreases n - i,
    {
        if v[at + i] != p.get_char(i) {
            assert(v@.skip(at as int).take(n as int)[i as int] != p@[i as int]);
            return false;
        }
        i += 1;
    }
    assert(v@.skip(at as int).take(n as int) =~= p@);
    true
}

/// The characters `v[lo..hi]`.
pub fn slice(v: &Vec<char>, lo: usize, hi: usize) -> (r: Vec<char>)
    requires
        lo <= hi <= v@.len(),
    ensures
        r@ == v@.subrange(lo as int, hi as int),
{
    let mut r: Vec<char> = Vec::new();
    let mut i: usize = lo;
    while i < hi
        invariant
            lo <= i <= hi <= v@.len(),
            r@ == v@.subrange(lo as int, i as int),
        decreases hi - i,
    {
        r.push(v[i]);
        assert(r@ =~= v@.subrange(lo as int, i + 1));
        i += 1;
    }
    r
}

/// `v` without the prefix `p`, if it starts with it.
pub fn strip_prefix(v: &Vec<char>, p: &str) -> (r: Option<Vec<char>>)
    ensures
        match r {
            Some(x) => strip(p@, v@) == Some(x@),
            None => strip(p@, v@) is None,
        },
{
    if starts_with_at(v, 0, p) {
        assert(v@.skip(0) =~= v@);
        let n = p.unicode_len();
        Some(slice(v, n, v.len()))
    } else {
        assert(v@.skip(0) =~= v@);
        None
    }
}

/// Whether `v` holds exactly the characters of `p`.
pub fn equals(v: &Vec<char>, p: &str) -> (r: bool)
    ensures
        r == (v@ == p@),
{
    let b = starts_with_at(v, 0, p);
    assert(v@.skip(0) =~= v@);
    if b && p.unicode_len() == v.len() {
        assert(v@ =~= v@.take(p@.len() as int));
        true
    } else {
        false
    }
}

/// The first position in `v` at which `p` occurs.
pub fn find_in(v: &Vec<char>, p: &str) -> (r: Option<usize>)
    ensures
        match r {
            Some(k) => find(v@, p@) == Some(k as nat),
            None => find(v@, p@) is None,
        },
{
    let mut i: usize = 0;
    assert(v@.skip(0) =~= v@);
    loop
        invariant
            i <= v@.len(),
            find(v@, p@) == (match find(v@.skip(i as int), p@) {
                Some(k) => Some((k + i) as nat),
                None => None,
            }),
        decreases v@.len() - i,
    {
        if starts_with_at(v, i, p) {
            return Some(i);
        }
        if i == v.len() {
            return None;
        }
        assert(v@.skip(i as int).drop_first() =~= v@.skip(i + 1));
        i += 1;
    }
}

/// Relies on `String::from_utf8`: it succeeds exactly on valid UTF-8, and then
/// holds the characters that the bytes encode.
#[verifier::external_body]
pub fn string_from_utf8(b: Vec<u8>) -> (r: Option<String>)
    ensures
        r is Some <==> valid_utf8(b@),
        r matches Some(s) ==> s@ == decode_utf8(b@),
{
    String::from_utf8(b).ok()
}

} // verus!
