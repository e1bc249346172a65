//! Character-level helpers shared by the parsers: conversion between `str`
//! and character vectors, and the character classes the parsers use.
use vstd::prelude::*;
use vstd::utf8::encode_utf8;

verus! {

/// ASCII decimal digit.
pub open spec fn is_digit(c: char) -> bool {
    '0' <= c && c <= '9'
}

/// ASCII letter.
pub open spec fn is_alpha(c: char) -> bool {
    ('a' <= c && c <= 'z') || ('A' <= c && c <= 'Z')
}

/// ASCII letter or digit.
pub open spec fn is_alnum(c: char) -> bool {
    is_alpha(c) || is_digit(c)
}

/// ASCII hexadecimal digit.
pub open spec fn is_hex(c: char) -> bool {
    is_digit(c) || ('a' <= c && c <= 'f') || ('A' <= c && c <= 'F')
}

/// ASCII whitespace as `char::is_ascii_whitespace` defines it
/// (space, tab, line feed, form feed, carriage return).
pub open spec fn is_ascii_ws(c: char) -> bool {
    c == ' ' || c == '\t' || c == '\n' || c == '\x0C' || c == '\r'
}

/// Unicode `White_Space`, as `char::is_whitespace` defines it.
pub open spec fn is_ws(c: char) -> bool {
    ('\t' <= c && c <= '\r') || c == ' ' || c == '\u{85}' || c == '\u{A0}' || c == '\u{1680}'
        || ('\u{2000}' <= c && c <= '\u{200A}') || c == '\u{2028}' || c == '\u{2029}'
        || c == '\u{202F}' || c == '\u{205F}' || c == '\u{3000}'
}

pub fn char_is_digit(c: char) -> (b: bool)
    ensures
        b == is_digit(c),
{
    '0' <= c && c <= '9'
}

pub fn char_is_alpha(c: char) -> (b: bool)
    ensures
        b == is_alpha(c),
{
    ('a' <= c && c <= 'z') || ('A' <= c && c <= 'Z')
}

pub fn char_is_hex(c: char) -> (b: bool)
    ensures
        b == is_hex(c),
{
    ('0' <= c && c <= '9') || ('a' <= c && c <= 'f') || ('A' <= c && c <= 'F')
}

pub fn char_is_ascii_ws(c: char) -> (b: bool)
    ensures
        b == is_ascii_ws(c),
{
    c == ' ' || c == '\t' || c == '\n' || c == '\x0C' || c == '\r'
}

pub fn char_is_ws(c: char) -> (b: bool)
    ensures
        b == is_ws(c),
{
    ('\t' <= c && c <= '\r') || c == ' ' || c == '\u{85}' || c == '\u{A0}' || c == '\u{1680}'
        || ('\u{2000}' <= c && c <= '\u{200A}') || c == '\u{2028}' || c == '\u{2029}'
        || c == '\u{202F}' || c == '\u{205F}' || c == '\u{3000}'
}

/// The characters of `s`, in order.
pub fn chars_of(s: &str) -> (v: Vec<char>)
    ensures
        v@ == s@,
{
    let mut v: Vec<char> = Vec::new();
    for c in it: s.chars()
        invariant
            v@ == it.seq().take(it.index() as int),
            it.seq() == s@,
    {
        v.push(c);
    }
    v
}

/// Appends one character to a `String` (`String::push`).
#[verifier::external_body]
pub(crate) fn push_char(s: &mut String, c: char)
    ensures
        final(s)@ == old(s)@.push(c),
{
    s.push(c);
}

/// The `String` made of the characters `v[lo..hi]`.
pub fn string_of_range(v: &[char], lo: usize, hi: usize) -> (s: String)
    requires
        lo <= hi <= v@.len(),
    ensures
        s@ == v@.subrange(lo as int, hi as int),
{
    let mut s = String::new();
    let mut i = lo;
    while i < hi
        invariant
            lo <= i <= hi <= v@.len(),
            s@ == v@.subrange(lo as int, i as int),
        decreases hi - i,
    {
        push_char(&mut s, v[i]);
        assert(v@.subrange(lo as int, i + 1) == v@.subrange(lo as int, i as int).push(v@[i as int]));
        i += 1;
    }
    s
}

/// The `String` made of all the characters of `v`.
pub fn string_of(v: &[char]) -> (s: String)
    ensures
        s@ == v@,
{
    let s = string_of_range(v, 0, v.len());
    assert(v@.subrange(0, v@.len() as int) == v@);
    s
}


/// `s` with leading Unicode whitespace removed (`str::trim_start`).
pub open spec fn trim_start(s: Seq<char>) -> Seq<char>
    decreases s.len(),
{
    if s.len() > 0 && is_ws(s[0]) {
        trim_start(s.drop_first())
    } else {
        s
    }
}

/// `s` with trailing Unicode whitespace removed (`str::trim_end`).
pub open spec fn trim_end(s: Seq<char>) -> Seq<char>
    decreases s.len(),
{
    if s.len() > 0 && is_ws(s.last()) {
        trim_end(s.drop_last())
    } else {
        s
    }
}

/// `s` with leading and trailing Unicode whitespace removed (`str::trim`).
pub open spec fn trim(s: Seq<char>) -> Seq<char> {
    trim_end(trim_start(s))
}

/// Index of the first `c` in `s`, or `-1`.
pub open spec fn first_index(s: Seq<char>, c: char) -> int
    decreases s.len(),
{
    if s.len() == 0 {
        -1
    } else if s[0] == c {
        0
    } else if first_index(s.drop_first(), c) < 0 {
        -1
    } else {
        first_index(s.drop_first(), c) + 1
    }
}

pub proof fn lemma_first_index(s: Seq<char>, c: char)
    ensures
        -1 <= first_index(s, c) < s.len(),
        first_index(s, c) >= 0 ==> s[first_index(s, c)] == c,
        forall|k: int| 0 <= k < s.len() && (first_index(s, c) < 0 || k < first_index(s, c)) ==> s[k]
            != c,
    decreases s.len(),
{
    if s.len() > 0 && s[0] != c {
        lemma_first_index(s.drop_first(), c);
        assert forall|k: int|
            0 <= k < s.len() && (first_index(s, c) < 0 || k < first_index(s, c)) implies s[k]
            != c by {
            if k > 0 {
                assert(s[k] == s.drop_first()[k - 1]);
            }
        }
    }
}

pub proof fn lemma_last_index(s: Seq<char>, c: char)
    ensures
        -1 <= last_index(s, c) < s.len(),
        last_index(s, c) >= 0 ==> s[last_index(s, c)] == c,
        forall|k: int| last_index(s, c) < k < s.len() ==> s[k] != c,
    decreases s.len(),
{
    if s.len() > 0 && s.last() != c {
        lemma_last_index(s.drop_last(), c);
        assert forall|k: int| last_index(s, c) < k < s.len() implies s[k] != c by {
            if k < s.len() - 1 {
                assert(s[k] == s.drop_last()[k]);
            }
        }
    }
}

/// Index of the last `c` in `s`, or `-1`.
pub open spec fn last_index(s: Seq<char>, c: char) -> int
    decreases s.len(),
{
    if s.len() == 0 {
        -1
    } else if s.last() == c {
        s.len() - 1
    } else {
        last_index(s.drop_last(), c)
    }
}

/// Maximal runs of non-whitespace characters (`str::split_whitespace`).
pub open spec fn words(s: Seq<char>) -> Seq<Seq<char>>
    decreases s.len(),
{
    let t = trim_start(s);
    if t.len() == 0 {
        Seq::empty()
    } else {
        proof {
            lemma_trim_start_len(s);
            lemma_run_end(t);
        }
        let k = run_end(t);
        seq![t.subrange(0, k)] + words(t.subrange(k, t.len() as int))
    }
}

/// Length of the leading run of non-whitespace characters.
pub open spec fn run_end(s: Seq<char>) -> int
    decreases s.len(),
{
    if s.len() > 0 && !is_ws(s[0]) {
        1 + run_end(s.drop_first())
    } else {
        0
    }
}

pub proof fn lemma_trim_start_len(s: Seq<char>)
    ensures
        trim_start(s).len() <= s.len(),
        trim_start(s) == s.subrange(s.len() - trim_start(s).len(), s.len() as int),
        trim_start(s).len() > 0 ==> !is_ws(trim_start(s)[0]),
    decreases s.len(),
{
    if s.len() > 0 && is_ws(s[0]) {
        lemma_trim_start_len(s.drop_first());
    } else {
        assert(s == s.subrange(0, s.len() as int));
    }
}

pub proof fn lemma_trim_end_len(s: Seq<char>)
    ensures
        trim_end(s).len() <= s.len(),
        trim_end(s) == s.subrange(0, trim_end(s).len() as int),
        trim_end(s).len() > 0 ==> !is_ws(trim_end(s).last()),
    decreases s.len(),
{
    if s.len() > 0 && is_ws(s.last()) {
        lemma_trim_end_len(s.drop_last());
    } else {
        assert(s == s.subrange(0, s.len() as int));
    }
}

/// Trailing whitespace after a word that ends in a visible character is
/// trimmed from what follows the word alone.
pub proof fn lemma_trim_end_after(p: Seq<char>, r: Seq<char>)
    requires
        p.len() > 0,
        !is_ws(p.last()),
    ensures
        trim_end(p + r) == p + trim_end(r),
    decreases r.len(),
{
    if r.len() == 0 {
        assert(p + r == p);
    } else if is_ws(r.last()) {
        assert((p + r).drop_last() == p + r.drop_last());
        lemma_trim_end_after(p, r.drop_last());
    } else {
        assert((p + r).last() == r.last());
    }
}

/// A line that begins and ends its first word with visible characters
/// trims to that word followed by the rest of the line, trailing
/// whitespace removed.
pub proof fn lemma_trim_after_word(p: Seq<char>, r: Seq<char>)
    requires
        p.len() > 0,
        !is_ws(p[0]),
        !is_ws(p.last()),
    ensures
        trim(p + r) == p + trim_end(r),
{
    assert((p + r)[0] == p[0]);
    lemma_trim_end_after(p, r);
}

/// A property checked at each position of a word of at most twelve
/// characters holds of all its characters.
pub proof fn lemma_chars_all(k: Seq<char>, p: spec_fn(char) -> bool)
    requires
        k.len() <= 12,
        k.len() > 0 ==> p(k[0]),
        k.len() > 1 ==> p(k[1]),
        k.len() > 2 ==> p(k[2]),
        k.len() > 3 ==> p(k[3]),
        k.len() > 4 ==> p(k[4]),
        k.len() > 5 ==> p(k[5]),
        k.len() > 6 ==> p(k[6]),
        k.len() > 7 ==> p(k[7]),
        k.len() > 8 ==> p(k[8]),
        k.len() > 9 ==> p(k[9]),
        k.len() > 10 ==> p(k[10]),
        k.len() > 11 ==> p(k[11]),
    ensures
        forall|j: int| 0 <= j < k.len() ==> p(#[trigger] k[j]),
{
    assert forall|j: int| 0 <= j < k.len() implies p(#[trigger] k[j]) by {
        if j == 0 {
        } else if j == 1 {
        } else if j == 2 {
        } else if j == 3 {
        } else if j == 4 {
        } else if j == 5 {
        } else if j == 6 {
        } else if j == 7 {
        } else if j == 8 {
        } else if j == 9 {
        } else if j == 10 {
        } else {
        }
    }
}

pub proof fn lemma_run_end(s: Seq<char>)
    ensures
        0 <= run_end(s) <= s.len(),
        forall|k: int| 0 <= k < run_end(s) ==> !is_ws(s[k]),
        run_end(s) < s.len() ==> is_ws(s[run_end(s)]),
    decreases s.len(),
{
    if s.len() > 0 && !is_ws(s[0]) {
        lemma_run_end(s.drop_first());
        assert forall|k: int| 0 <= k < run_end(s) implies !is_ws(s[k]) by {
            if k > 0 {
                assert(s[k] == s.drop_first()[k - 1]);
            }
        }
    }
}

/// Index form of `trim_start` on `v[lo..hi]`.
pub fn skip_ws_fwd(v: &[char], lo: usize, hi: usize) -> (r: usize)
    requires
        lo <= hi <= v@.len(),
    ensures
        lo <= r <= hi,
        trim_start(v@.subrange(lo as int, hi as int)) == v@.subrange(r as int, hi as int),
{
    let mut i = lo;
    while i < hi && char_is_ws(v[i])
        invariant
            lo <= i <= hi <= v@.len(),
            trim_start(v@.subrange(lo as int, hi as int)) == trim_start(
                v@.subrange(i as int, hi as int),
            ),
        decreases hi - i,
    {
        assert(v@.subrange(i as int, hi as int).drop_first() == v@.subrange(i + 1, hi as int));
        i += 1;
    }
    i
}

/// Index form of `trim_end` on `v[lo..hi]`.
pub fn skip_ws_back(v: &[char], lo: usize, hi: usize) -> (r: usize)
    requires
        lo <= hi <= v@.len(),
    ensures
        lo <= r <= hi,
        trim_end(v@.subrange(lo as int, hi as int)) == v@.subrange(lo as int, r as int),
{
    let mut j = hi;
    while j > lo && char_is_ws(v[j - 1])
        invariant
            lo <= j <= hi <= v@.len(),
            trim_end(v@.subrange(lo as int, hi as int)) == trim_end(
                v@.subrange(lo as int, j as int),
            ),
        decreases j - lo,
    {
        assert(v@.subrange(lo as int, j as int).drop_last() == v@.subrange(lo as int, j - 1));
        j -= 1;
    }
    j
}

/// Index form of `trim` on `v[lo..hi]`.
pub fn trim_range(v: &[char], lo: usize, hi: usize) -> (r: (usize, usize))
    requires
        lo <= hi <= v@.len(),
    ensures
        lo <= r.0 <= r.1 <= hi,
        trim(v@.subrange(lo as int, hi as int)) == v@.subrange(r.0 as int, r.1 as int),
{
    let a = skip_ws_fwd(v, lo, hi);
    let b = skip_ws_back(v, a, hi);
    (a, b)
}

/// First index in `v[lo..hi]` holding `c`, as an offset from `lo`.
pub fn find_char(v: &[char], lo: usize, hi: usize, c: char) -> (r: Option<usize>)
    requires
        lo <= hi <= v@.len(),
    ensures
        match r {
            Some(k) => first_index(v@.subrange(lo as int, hi as int), c) == k as int,
            None => first_index(v@.subrange(lo as int, hi as int), c) == -1,
        },
{
    let mut i = hi;
    let mut found: Option<usize> = None;
    while i > lo
        invariant
            lo <= i <= hi <= v@.len(),
            match found {
                Some(k) => first_index(v@.subrange(i as int, hi as int), c) == k as int - (i - lo)
                    && k >= i - lo,
                None => first_index(v@.subrange(i as int, hi as int), c) == -1,
            },
        decreases i,
    {
        i -= 1;
        let ghost s = v@.subrange(i as int, hi as int);
        assert(s.drop_first() == v@.subrange(i + 1, hi as int));
        if v[i] == c {
            found = Some(i - lo);
        }
    }
    found
}

/// Last index in `v[lo..hi]` holding `c`, as an offset from `lo`.
pub fn rfind_char(v: &[char], lo: usize, hi: usize, c: char) -> (r: Option<usize>)
    requires
        lo <= hi <= v@.len(),
    ensures
        match r {
            Some(k) => last_index(v@.subrange(lo as int, hi as int), c) == k as int,
            None => last_index(v@.subrange(lo as int, hi as int), c) == -1,
        },
{
    let mut j = hi;
    while j > lo
        invariant
            lo <= j <= hi <= v@.len(),
            last_index(v@.subrange(lo as int, hi as int), c) == last_index(
                v@.subrange(lo as int, j as int),
                c,
            ),
        decreases j,
    {
        let ghost s = v@.subrange(lo as int, j as int);
        assert(s.drop_last() == v@.subrange(lo as int, j - 1));
        if v[j - 1] == c {
            return Some(j - 1 - lo);
        }
        j -= 1;
    }
    None
}

/// Whether `v[lo..hi]` spells out exactly `lit`.
pub fn range_is(v: &[char], lo: usize, hi: usize, lit: &str) -> (b: bool)
    requires
        lo <= hi <= v@.len(),
    ensures
        b == (v@.subrange(lo as int, hi as int) == lit@),
{
    let w = chars_of(lit);
    if hi - lo != w.len() {
        return false;
    }
    let mut k: usize = 0;
    while k < w.len()
        invariant
            hi - lo == w@.len(),
            lo <= hi <= v@.len(),
            w@ == lit@,
            k <= w@.len(),
            forall|m: int| 0 <= m < k ==> v@[lo + m] == w@[m],
        decreases w@.len() - k,
    {
        if v[lo + k] != w[k] {
            assert(v@.subrange(lo as int, hi as int)[k as int] != lit@[k as int]);
            return false;
        }
        k += 1;
    }
    assert(v@.subrange(lo as int, hi as int) =~= lit@);
    true
}

/// Whether `v[lo..hi]` begins with `lit`.
pub fn range_starts_with(v: &[char], lo: usize, hi: usize, lit: &str) -> (b: bool)
    requires
        lo <= hi <= v@.len(),
    ensures
        b == (lit@.len() <= hi - lo && v@.subrange(lo as int, lo + lit@.len()) == lit@),
{
    let n = chars_of(lit).len();
    if n > hi - lo {
        return false;
    }
    range_is(v, lo, lo + n, lit)
}

/// Whether `v[lo..hi]` ends with `lit`.
pub fn range_ends_with(v: &[char], lo: usize, hi: usize, lit: &str) -> (b: bool)
    requires
        lo <= hi <= v@.len(),
    ensures
        b == (lit@.len() <= hi - lo && v@.subrange(hi - lit@.len(), hi as int) == lit@),
{
    let n = chars_of(lit).len();
    if n > hi - lo {
        return false;
    }
    range_is(v, hi - n, hi, lit)
}

/// The words of `v[lo..hi]` (`str::split_whitespace`), as index pairs.
pub fn word_ranges(v: &[char], lo: usize, hi: usize) -> (r: Vec<(usize, usize)>)
    requires
        lo <= hi <= v@.len(),
    ensures
        r@.len() == words(v@.subrange(lo as int, hi as int)).len(),
        forall|k: int|
            0 <= k < r@.len() ==> lo <= (#[trigger] r@[k]).0 <= r@[k].1 <= hi && v@.subrange(
                r@[k].0 as int,
                r@[k].1 as int,
            ) == words(v@.subrange(lo as int, hi as int))[k],
{
    let mut out: Vec<(usize, usize)> = Vec::new();
    let mut i = lo;
    let ghost total = words(v@.subrange(lo as int, hi as int));
    loop
        invariant
            lo <= i <= hi <= v@.len(),
            total == words(v@.subrange(lo as int, hi as int)),
            total == out@.map_values(|p: (usize, usize)| v@.subrange(p.0 as int, p.1 as int))
                + words(v@.subrange(i as int, hi as int)),
            forall|k: int| 0 <= k < out@.len() ==> lo <= (#[trigger] out@[k]).0 <= out@[k].1 <= hi,
        ensures
            total == out@.map_values(|p: (usize, usize)| v@.subrange(p.0 as int, p.1 as int)),
            forall|k: int| 0 <= k < out@.len() ==> lo <= (#[trigger] out@[k]).0 <= out@[k].1 <= hi,
        decreases hi - i,
    {
        let ghost rest = v@.subrange(i as int, hi as int);
        let a = skip_ws_fwd(v, i, hi);
        if a == hi {
            assert(words(rest) =~= Seq::<Seq<char>>::empty());
            assert(total =~= out@.map_values(
                |p: (usize, usize)| v@.subrange(p.0 as int, p.1 as int),
            ));
            break;
        }
        let mut b = a;
        proof {
            lemma_run_end(v@.subrange(a as int, hi as int));
        }
        while b < hi && !char_is_ws(v[b])
            invariant
                a <= b <= hi <= v@.len(),
                run_end(v@.subrange(a as int, hi as int)) == (b - a) + run_end(
                    v@.subrange(b as int, hi as int),
                ),
            decreases hi - b,
        {
            assert(v@.subrange(b as int, hi as int).drop_first() == v@.subrange(b + 1, hi as int));
            b += 1;
        }
        proof {
            let t = v@.subrange(a as int, hi as int);
            assert(t.subrange(0, b - a) == v@.subrange(a as int, b as int));
            assert(t.subrange(b - a, t.len() as int) == v@.subrange(b as int, hi as int));
            assert(words(rest) == seq![v@.subrange(a as int, b as int)] + words(
                v@.subrange(b as int, hi as int),
            ));
        }
        let ghost old_out = out@;
        out.push((a, b));
        proof {
            assert(out@.map_values(|p: (usize, usize)| v@.subrange(p.0 as int, p.1 as int))
                =~= old_out.map_values(|p: (usize, usize)| v@.subrange(p.0 as int, p.1 as int))
                + seq![v@.subrange(a as int, b as int)]);
        }
        i = b;
    }
    out
}


/// Whether two strings hold the same characters.
pub fn str_eq(a: &str, b: &str) -> (r: bool)
    ensures
        r == (a@ == b@),
{
    let x = chars_of(a);
    let y = chars_of(b);
    if x.len() != y.len() {
        return false;
    }
    let mut k: usize = 0;
    while k < x.len()
        invariant
            x@ == a@,
            y@ == b@,
            x@.len() == y@.len(),
            k <= x@.len(),
            forall|m: int| 0 <= m < k ==> x@[m] == y@[m],
        decreases x@.len() - k,
    {
        if x[k] != y[k] {
            return false;
        }
        k += 1;
    }
    assert(x@ =~= y@);
    true
}

/// `s` with every non-overlapping occurrence of `pat` (scanning from the
/// left) replaced by `rep` (`str::replace` with a non-empty pattern).
pub open spec fn replace_all(s: Seq<char>, pat: Seq<char>, rep: Seq<char>) -> Seq<char>
    decreases s.len(),
{
    if pat.len() == 0 || s.len() < pat.len() {
        s
    } else if s.subrange(0, pat.len() as int) == pat {
        rep + replace_all(s.subrange(pat.len() as int, s.len() as int), pat, rep)
    } else {
        seq![s[0]] + replace_all(s.drop_first(), pat, rep)
    }
}

/// Replace every occurrence of the non-empty `pat` in `s` by `rep`.
pub fn replace_str(s: &str, pat: &str, rep: &str) -> (r: String)
    requires
        pat@.len() > 0,
    ensures
        r@ == replace_all(s@, pat@, rep@),
{
    let v = chars_of(s);
    let p = chars_of(pat);
    let q = chars_of(rep);
    let n = v.len();
    let m = p.len();
    let mut out = String::new();
    let mut i: usize = 0;
    assert(v@.subrange(0, n as int) == v@);
    assert(out@ + v@ =~= v@);
    while i < n
        invariant
            v@ == s@,
            p@ == pat@,
            q@ == rep@,
            n == v@.len(),
            m == p@.len(),
            m > 0,
            i <= n,
            replace_all(s@, pat@, rep@) == out@ + replace_all(
                v@.subrange(i as int, n as int),
                pat@,
                rep@,
            ),
        decreases n - i,
    {
        let ghost rest = v@.subrange(i as int, n as int);
        if m <= n - i && range_is(&v, i, i + m, pat) {
            assert(rest.subrange(0, m as int) == v@.subrange(i as int, i + m));
            assert(rest.subrange(m as int, rest.len() as int) == v@.subrange(i + m, n as int));
            let mut k: usize = 0;
            let ghost before = out@;
            while k < q.len()
                invariant
                    q@ == rep@,
                    k <= q@.len(),
                    out@ == before + q@.subrange(0, k as int),
                decreases q@.len() - k,
            {
                push_char(&mut out, q[k]);
                assert(q@.subrange(0, k + 1) == q@.subrange(0, k as int).push(q@[k as int]));
                k += 1;
            }
            assert(q@.subrange(0, q@.len() as int) == q@);
            assert(out@ == before + rep@);
            i = i + m;
        } else {
            if m <= n - i {
                assert(rest.subrange(0, m as int) == v@.subrange(i as int, i + m));
            }
            assert(rest.drop_first() == v@.subrange(i + 1, n as int));
            let ghost before = out@;
            push_char(&mut out, v[i]);
            assert(out@ == before + seq![rest[0]]);
            i = i + 1;
        }
    }
    assert(v@.subrange(n as int, n as int) =~= Seq::<char>::empty());
    assert(out@ + Seq::<char>::empty() =~= out@);
    out
}


/// Number of bytes of the UTF-8 encoding of `s` (what `str::len` reports).
pub open spec fn utf8_len(s: Seq<char>) -> nat {
    encode_utf8(s).len()
}

/// UTF-8 encoding distributes over concatenation.
pub proof fn lemma_encode_utf8_concat(a: Seq<char>, b: Seq<char>)
    ensures
        encode_utf8(a + b) == encode_utf8(a) + encode_utf8(b),
        utf8_len(a + b) == utf8_len(a) + utf8_len(b),
    decreases a.len(),
{
    if a.len() == 0 {
        assert(a + b =~= b);
        assert(encode_utf8(a) + encode_utf8(b) =~= encode_utf8(b));
    } else {
        assert((a + b).drop_first() =~= a.drop_first() + b);
        lemma_encode_utf8_concat(a.drop_first(), b);
        assert((a + b)[0] == a[0]);
        let e = vstd::utf8::encode_scalar(a[0] as u32);
        assert(e + (encode_utf8(a.drop_first()) + encode_utf8(b)) =~= (e + encode_utf8(
            a.drop_first(),
        )) + encode_utf8(b));
    }
}


/// `a` followed by `b`, as a new `String`.
pub fn concat_str(a: &str, b: &str) -> (r: String)
    ensures
        r@ == a@ + b@,
{
    let mut r = String::from_str(a);
    r.append(b);
    r
}


/// Unicode lower case of a string (`str::to_lowercase`).
pub uninterp spec fn unicode_lowercase(s: Seq<char>) -> Seq<char>;

/// `str::to_lowercase`: the Unicode lower case of `s`.
#[verifier::external_body]
pub(crate) fn str_to_lowercase(s: &str) -> (r: String)
    ensures
        r@ == unicode_lowercase(s@),
{
    s.to_lowercase()
}

/// `core::str::from_utf8`: the text of valid UTF-8 bytes, `None` otherwise.
#[verifier::external_body]
pub(crate) fn str_from_utf8(b: &[u8]) -> (r: Option<&str>)
    ensures
        match r {
            Some(s) => vstd::utf8::valid_utf8(b@) && s@ == vstd::utf8::decode_utf8(b@),
            None => !vstd::utf8::valid_utf8(b@),
        },
{
    core::str::from_utf8(b).ok()
}

} // verus!
