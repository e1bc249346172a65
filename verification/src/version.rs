//! UAPI.10 version-string ordering.
//!
//! The ordering is stated over the UTF-8 bytes of both strings by
//! [`version_order`]; the executable comparison walks the bytes exactly as the
//! specification describes it.
use vstd::prelude::*;
use vstd::string::StringSliceAdditionalSpecFns;

verus! {

/// Three-way result of comparing two values.
#[derive(Debug, Clone, Copy, PartialEq, Eq, Structural)]
pub enum Order3 {
    Less,
    Equal,
    Greater,
}

/// The reverse of an ordering result.
pub open spec fn flip(o: Order3) -> Order3 {
    match o {
        Order3::Less => Order3::Greater,
        Order3::Equal => Order3::Equal,
        Order3::Greater => Order3::Less,
    }
}

pub open spec fn b_digit(c: u8) -> bool {
    48 <= c <= 57
}

pub open spec fn b_alpha(c: u8) -> bool {
    (65 <= c <= 90) || (97 <= c <= 122)
}

/// Bytes that take part in a version comparison: letters, digits, `~`, `^`,
/// `-` and `.`.
pub open spec fn version_byte(c: u8) -> bool {
    b_alpha(c) || b_digit(c) || c == 126 || c == 94 || c == 45 || c == 46
}

/// Lexicographic order of two byte sequences (shorter prefix first).
pub open spec fn lex(x: Seq<u8>, y: Seq<u8>) -> Order3
    decreases x.len(),
{
    if x.len() == 0 && y.len() == 0 {
        Order3::Equal
    } else if x.len() == 0 {
        Order3::Less
    } else if y.len() == 0 {
        Order3::Greater
    } else if x[0] < y[0] {
        Order3::Less
    } else if x[0] > y[0] {
        Order3::Greater
    } else {
        lex(x.drop_first(), y.drop_first())
    }
}

/// First index at or after `i` holding a version byte (or the end).
pub open spec fn skip_other(s: Seq<u8>, i: int) -> int
    decreases s.len() - i,
{
    if 0 <= i < s.len() && !version_byte(s[i]) {
        skip_other(s, i + 1)
    } else {
        i
    }
}

/// First index at or after `i` not holding `'0'`.
pub open spec fn skip_zeros(s: Seq<u8>, i: int) -> int
    decreases s.len() - i,
{
    if 0 <= i < s.len() && s[i] == 48 {
        skip_zeros(s, i + 1)
    } else {
        i
    }
}

/// End of the run of digits starting at `i`.
pub open spec fn digits_end(s: Seq<u8>, i: int) -> int
    decreases s.len() - i,
{
    if 0 <= i < s.len() && b_digit(s[i]) {
        digits_end(s, i + 1)
    } else {
        i
    }
}

/// End of the run of letters starting at `i`.
pub open spec fn alpha_end(s: Seq<u8>, i: int) -> int
    decreases s.len() - i,
{
    if 0 <= i < s.len() && b_alpha(s[i]) {
        alpha_end(s, i + 1)
    } else {
        i
    }
}

pub proof fn lemma_skip_other(s: Seq<u8>, i: int)
    requires
        0 <= i <= s.len(),
    ensures
        i <= skip_other(s, i) <= s.len(),
        skip_other(s, i) < s.len() ==> version_byte(s[skip_other(s, i)]),
    decreases s.len() - i,
{
    if i < s.len() && !version_byte(s[i]) {
        lemma_skip_other(s, i + 1);
    }
}

pub proof fn lemma_skip_zeros(s: Seq<u8>, i: int)
    requires
        0 <= i <= s.len(),
    ensures
        i <= skip_zeros(s, i) <= s.len(),
        skip_zeros(s, i) < s.len() ==> s[skip_zeros(s, i)] != 48,
        forall|k: int| i <= k < skip_zeros(s, i) ==> s[k] == 48,
    decreases s.len() - i,
{
    if i < s.len() && s[i] == 48 {
        lemma_skip_zeros(s, i + 1);
    }
}

pub proof fn lemma_digits_end(s: Seq<u8>, i: int)
    requires
        0 <= i <= s.len(),
    ensures
        i <= digits_end(s, i) <= s.len(),
        digits_end(s, i) < s.len() ==> !b_digit(s[digits_end(s, i)]),
        forall|k: int| i <= k < digits_end(s, i) ==> b_digit(s[k]),
    decreases s.len() - i,
{
    if i < s.len() && b_digit(s[i]) {
        lemma_digits_end(s, i + 1);
    }
}

pub proof fn lemma_alpha_end(s: Seq<u8>, i: int)
    requires
        0 <= i <= s.len(),
    ensures
        i <= alpha_end(s, i) <= s.len(),
        alpha_end(s, i) < s.len() ==> !b_alpha(s[alpha_end(s, i)]),
        forall|k: int| i <= k < alpha_end(s, i) ==> b_alpha(s[k]),
    decreases s.len() - i,
{
    if i < s.len() && b_alpha(s[i]) {
        lemma_alpha_end(s, i + 1);
    }
}

/// The comparison of `a[ai..]` against `b[bi..]`, one step of the UAPI.10
/// walk per recursion: skip bytes that are not version bytes, then `~` sorts
/// before everything (even the end), the end sorts before anything else, `-`,
/// `^` and `.` each sort before any other byte, a run of digits compares as a
/// number (leading zeros ignored, longer is larger), and a run of letters
/// compares lexicographically.
pub open spec fn order_from(a: Seq<u8>, b: Seq<u8>, ai: int, bi: int) -> Order3
    decreases a.len() - ai + b.len() - bi,
    when 0 <= ai <= a.len() && 0 <= bi <= b.len()
{
    proof {
        lemma_skip_other(a, ai);
        lemma_skip_other(b, bi);
    }
    let ai = skip_other(a, ai);
    let bi = skip_other(b, bi);
    let at = ai < a.len() && a[ai] == 126;
    let bt = bi < b.len() && b[bi] == 126;
    if at || bt {
        if !at {
            Order3::Greater
        } else if !bt {
            Order3::Less
        } else {
            order_from(a, b, ai + 1, bi + 1)
        }
    } else if ai >= a.len() && bi >= b.len() {
        Order3::Equal
    } else if ai >= a.len() {
        Order3::Less
    } else if bi >= b.len() {
        Order3::Greater
    } else if a[ai] == 45 || b[bi] == 45 {
        if a[ai] != 45 {
            Order3::Greater
        } else if b[bi] != 45 {
            Order3::Less
        } else {
            order_from(a, b, ai + 1, bi + 1)
        }
    } else if a[ai] == 94 || b[bi] == 94 {
        if a[ai] != 94 {
            Order3::Greater
        } else if b[bi] != 94 {
            Order3::Less
        } else {
            order_from(a, b, ai + 1, bi + 1)
        }
    } else if a[ai] == 46 || b[bi] == 46 {
        if a[ai] != 46 {
            Order3::Greater
        } else if b[bi] != 46 {
            Order3::Less
        } else {
            order_from(a, b, ai + 1, bi + 1)
        }
    } else if b_digit(a[ai]) || b_digit(b[bi]) {
        proof {
            lemma_skip_zeros(a, ai);
            lemma_skip_zeros(b, bi);
            lemma_digits_end(a, skip_zeros(a, ai));
            lemma_digits_end(b, skip_zeros(b, bi));
        }
        let az = skip_zeros(a, ai);
        let bz = skip_zeros(b, bi);
        let ae = digits_end(a, az);
        let be = digits_end(b, bz);
        if ae - az < be - bz {
            Order3::Less
        } else if ae - az > be - bz {
            Order3::Greater
        } else {
            let o = lex(a.subrange(az, ae), b.subrange(bz, be));
            if o != Order3::Equal {
                o
            } else {
                order_from(a, b, ae, be)
            }
        }
    } else if b_alpha(a[ai]) || b_alpha(b[bi]) {
        proof {
            lemma_alpha_end(a, ai);
            lemma_alpha_end(b, bi);
        }
        let ae = alpha_end(a, ai);
        let be = alpha_end(b, bi);
        let o = lex(a.subrange(ai, ae), b.subrange(bi, be));
        if o != Order3::Equal {
            o
        } else {
            order_from(a, b, ae, be)
        }
    } else {
        order_from(a, b, ai + 1, bi + 1)
    }
}

/// The UAPI.10 order of two version strings, given as bytes.
pub open spec fn version_order(a: Seq<u8>, b: Seq<u8>) -> Order3 {
    order_from(a, b, 0, 0)
}


/// Lexicographic comparison of `a[alo..ahi]` and `b[blo..bhi]`.
pub(crate) fn lex_range(a: &[u8], alo: usize, ahi: usize, b: &[u8], blo: usize, bhi: usize) -> (o: Order3)
    requires
        alo <= ahi <= a@.len(),
        blo <= bhi <= b@.len(),
    ensures
        o == lex(a@.subrange(alo as int, ahi as int), b@.subrange(blo as int, bhi as int)),
{
    let mut i = alo;
    let mut j = blo;
    while i < ahi || j < bhi
        invariant
            alo <= i <= ahi <= a@.len(),
            blo <= j <= bhi <= b@.len(),
            i - alo == j - blo,
            lex(a@.subrange(alo as int, ahi as int), b@.subrange(blo as int, bhi as int)) == lex(
                a@.subrange(i as int, ahi as int),
                b@.subrange(j as int, bhi as int),
            ),
        decreases ahi - i,
    {
        let ghost x = a@.subrange(i as int, ahi as int);
        let ghost y = b@.subrange(j as int, bhi as int);
        if i >= ahi {
            return Order3::Less;
        }
        if j >= bhi {
            return Order3::Greater;
        }
        if a[i] < b[j] {
            return Order3::Less;
        }
        if a[i] > b[j] {
            return Order3::Greater;
        }
        assert(x.drop_first() == a@.subrange(i + 1, ahi as int));
        assert(y.drop_first() == b@.subrange(j + 1, bhi as int));
        i += 1;
        j += 1;
    }
    Order3::Equal
}

fn is_version_byte(c: u8) -> (r: bool)
    ensures
        r == version_byte(c),
{
    (65 <= c && c <= 90) || (97 <= c && c <= 122) || (48 <= c && c <= 57) || c == 126 || c == 94
        || c == 45 || c == 46
}

/// The UAPI.10 comparison of two version strings given as bytes.
pub fn version_order_bytes(a: &[u8], b: &[u8]) -> (o: Order3)
    ensures
        o == version_order(a@, b@),
{
    let mut ai: usize = 0;
    let mut bi: usize = 0;
    loop
        invariant
            0 <= ai <= a@.len(),
            0 <= bi <= b@.len(),
            version_order(a@, b@) == order_from(a@, b@, ai as int, bi as int),
        decreases a@.len() - ai + b@.len() - bi,
    {
        let ghost ai0 = ai as int;
        let ghost bi0 = bi as int;
        proof {
            lemma_skip_other(a@, ai0);
            lemma_skip_other(b@, bi0);
        }
        while ai < a.len() && !is_version_byte(a[ai])
            invariant
                ai0 <= ai <= a@.len(),
                skip_other(a@, ai as int) == skip_other(a@, ai0),
            decreases a@.len() - ai,
        {
            ai += 1;
        }
        while bi < b.len() && !is_version_byte(b[bi])
            invariant
                bi0 <= bi <= b@.len(),
                skip_other(b@, bi as int) == skip_other(b@, bi0),
            decreases b@.len() - bi,
        {
            bi += 1;
        }
        assert(ai as int == skip_other(a@, ai0));
        assert(bi as int == skip_other(b@, bi0));
        let at = ai < a.len() && a[ai] == 126;
        let bt = bi < b.len() && b[bi] == 126;
        if at || bt {
            if !at {
                return Order3::Greater;
            }
            if !bt {
                return Order3::Less;
            }
            ai += 1;
            bi += 1;
            continue;
        }
        let a_end = ai >= a.len();
        let b_end = bi >= b.len();
        if a_end && b_end {
            return Order3::Equal;
        }
        if a_end {
            return Order3::Less;
        }
        if b_end {
            return Order3::Greater;
        }
        let ca = a[ai];
        let cb = b[bi];
        if ca == 45 || cb == 45 {
            if ca != 45 {
                return Order3::Greater;
            }
            if cb != 45 {
                return Order3::Less;
            }
            ai += 1;
            bi += 1;
            continue;
        }
        if ca == 94 || cb == 94 {
            if ca != 94 {
                return Order3::Greater;
            }
            if cb != 94 {
                return Order3::Less;
            }
            ai += 1;
            bi += 1;
            continue;
        }
        if ca == 46 || cb == 46 {
            if ca != 46 {
                return Order3::Greater;
            }
            if cb != 46 {
                return Order3::Less;
            }
            ai += 1;
            bi += 1;
            continue;
        }
        if (48 <= ca && ca <= 57) || (48 <= cb && cb <= 57) {
            let ghost as0 = ai as int;
            let ghost bs0 = bi as int;
            proof {
                lemma_skip_zeros(a@, as0);
                lemma_skip_zeros(b@, bs0);
            }
            while ai < a.len() && a[ai] == 48
                invariant
                    as0 <= ai <= a@.len(),
                    skip_zeros(a@, ai as int) == skip_zeros(a@, as0),
                decreases a@.len() - ai,
            {
                ai += 1;
            }
            while bi < b.len() && b[bi] == 48
                invariant
                    bs0 <= bi <= b@.len(),
                    skip_zeros(b@, bi as int) == skip_zeros(b@, bs0),
                decreases b@.len() - bi,
            {
                bi += 1;
            }
            let a_start = ai;
            let b_start = bi;
            proof {
                lemma_digits_end(a@, a_start as int);
                lemma_digits_end(b@, b_start as int);
            }
            while ai < a.len() && 48 <= a[ai] && a[ai] <= 57
                invariant
                    a_start <= ai <= a@.len(),
                    digits_end(a@, ai as int) == digits_end(a@, a_start as int),
                decreases a@.len() - ai,
            {
                ai += 1;
            }
            while bi < b.len() && 48 <= b[bi] && b[bi] <= 57
                invariant
                    b_start <= bi <= b@.len(),
                    digits_end(b@, bi as int) == digits_end(b@, b_start as int),
                decreases b@.len() - bi,
            {
                bi += 1;
            }
            let a_len = ai - a_start;
            let b_len = bi - b_start;
            if a_len < b_len {
                return Order3::Less;
            }
            if a_len > b_len {
                return Order3::Greater;
            }
            let o = lex_range(a, a_start, ai, b, b_start, bi);
            if o != Order3::Equal {
                return o;
            }
            continue;
        }
        if (65 <= ca && ca <= 90) || (97 <= ca && ca <= 122) || (65 <= cb && cb <= 90) || (97 <= cb
            && cb <= 122) {
            let a_start = ai;
            let b_start = bi;
            proof {
                lemma_alpha_end(a@, a_start as int);
                lemma_alpha_end(b@, b_start as int);
            }
            while ai < a.len() && ((65 <= a[ai] && a[ai] <= 90) || (97 <= a[ai] && a[ai] <= 122))
                invariant
                    a_start <= ai <= a@.len(),
                    alpha_end(a@, ai as int) == alpha_end(a@, a_start as int),
                decreases a@.len() - ai,
            {
                ai += 1;
            }
            while bi < b.len() && ((65 <= b[bi] && b[bi] <= 90) || (97 <= b[bi] && b[bi] <= 122))
                invariant
                    b_start <= bi <= b@.len(),
                    alpha_end(b@, bi as int) == alpha_end(b@, b_start as int),
                decreases b@.len() - bi,
            {
                bi += 1;
            }
            let o = lex_range(a, a_start, ai, b, b_start, bi);
            if o != Order3::Equal {
                return o;
            }
            continue;
        }
        ai += 1;
        bi += 1;
    }
}


pub proof fn lemma_lex_flip(x: Seq<u8>, y: Seq<u8>)
    ensures
        lex(x, y) == flip(lex(y, x)),
    decreases x.len(),
{
    if x.len() > 0 && y.len() > 0 && x[0] == y[0] {
        lemma_lex_flip(x.drop_first(), y.drop_first());
    }
}

pub proof fn lemma_lex_same(x: Seq<u8>)
    ensures
        lex(x, x) == Order3::Equal,
    decreases x.len(),
{
    if x.len() > 0 {
        lemma_lex_same(x.drop_first());
    }
}

proof fn lemma_order_from_flip(a: Seq<u8>, b: Seq<u8>, ai: int, bi: int)
    requires
        0 <= ai <= a.len(),
        0 <= bi <= b.len(),
    ensures
        order_from(a, b, ai, bi) == flip(order_from(b, a, bi, ai)),
    decreases a.len() - ai + b.len() - bi,
{
    lemma_skip_other(a, ai);
    lemma_skip_other(b, bi);
    let ai = skip_other(a, ai);
    let bi = skip_other(b, bi);
    let at = ai < a.len() && a[ai] == 126;
    let bt = bi < b.len() && b[bi] == 126;
    if at || bt {
        if at && bt {
            lemma_order_from_flip(a, b, ai + 1, bi + 1);
        }
    } else if ai >= a.len() || bi >= b.len() {
    } else if a[ai] == 45 || b[bi] == 45 || a[ai] == 94 || b[bi] == 94 || a[ai] == 46 || b[bi]
        == 46 {
        if a[ai] == b[bi] {
            lemma_order_from_flip(a, b, ai + 1, bi + 1);
        }
    } else if b_digit(a[ai]) || b_digit(b[bi]) {
        lemma_skip_zeros(a, ai);
        lemma_skip_zeros(b, bi);
        let az = skip_zeros(a, ai);
        let bz = skip_zeros(b, bi);
        lemma_digits_end(a, az);
        lemma_digits_end(b, bz);
        let ae = digits_end(a, az);
        let be = digits_end(b, bz);
        lemma_lex_flip(a.subrange(az, ae), b.subrange(bz, be));
        if ae - az == be - bz && lex(a.subrange(az, ae), b.subrange(bz, be)) == Order3::Equal {
            lemma_order_from_flip(a, b, ae, be);
        }
    } else if b_alpha(a[ai]) || b_alpha(b[bi]) {
        lemma_alpha_end(a, ai);
        lemma_alpha_end(b, bi);
        let ae = alpha_end(a, ai);
        let be = alpha_end(b, bi);
        lemma_lex_flip(a.subrange(ai, ae), b.subrange(bi, be));
        if lex(a.subrange(ai, ae), b.subrange(bi, be)) == Order3::Equal {
            lemma_order_from_flip(a, b, ae, be);
        }
    } else {
        lemma_order_from_flip(a, b, ai + 1, bi + 1);
    }
}

proof fn lemma_order_from_same(a: Seq<u8>, ai: int)
    requires
        0 <= ai <= a.len(),
    ensures
        order_from(a, a, ai, ai) == Order3::Equal,
    decreases a.len() - ai,
{
    lemma_skip_other(a, ai);
    let i = skip_other(a, ai);
    if i < a.len() {
        if a[i] == 126 || a[i] == 45 || a[i] == 94 || a[i] == 46 {
            lemma_order_from_same(a, i + 1);
        } else if b_digit(a[i]) {
            lemma_skip_zeros(a, i);
            lemma_digits_end(a, skip_zeros(a, i));
            lemma_lex_same(a.subrange(skip_zeros(a, i), digits_end(a, skip_zeros(a, i))));
            lemma_order_from_same(a, digits_end(a, skip_zeros(a, i)));
        } else if b_alpha(a[i]) {
            lemma_alpha_end(a, i);
            lemma_lex_same(a.subrange(i, alpha_end(a, i)));
            lemma_order_from_same(a, alpha_end(a, i));
        } else {
            lemma_order_from_same(a, i + 1);
        }
    }
}

/// Swapping the two arguments reverses the UAPI.10 order.
pub proof fn version_order_antisymmetric(a: Seq<u8>, b: Seq<u8>)
    ensures
        version_order(a, b) == flip(version_order(b, a)),
{
    lemma_order_from_flip(a, b, 0, 0);
}

/// Every version string is equal to itself in the UAPI.10 order.
pub proof fn version_order_reflexive(a: Seq<u8>)
    ensures
        version_order(a, a) == Order3::Equal,
{
    lemma_order_from_same(a, 0);
}


/// Byte-wise lexicographic comparison of two strings (the order of `str`).
pub fn str_order(a: &str, b: &str) -> (o: Order3)
    ensures
        o == lex(a.spec_bytes(), b.spec_bytes()),
{
    let x = a.as_bytes();
    let y = b.as_bytes();
    let o = lex_range(x, 0, x.len(), y, 0, y.len());
    assert(x@.subrange(0, x@.len() as int) == x@);
    assert(y@.subrange(0, y@.len() as int) == y@);
    o
}


/// `lex` orders byte strings: at most `Equal` is transitive.
pub proof fn lemma_lex_trans(x: Seq<u8>, y: Seq<u8>, z: Seq<u8>)
    requires
        lex(x, y) != Order3::Greater,
        lex(y, z) != Order3::Greater,
    ensures
        lex(x, z) != Order3::Greater,
    decreases x.len(),
{
    if x.len() > 0 && y.len() > 0 && z.len() > 0 && x[0] == y[0] && y[0] == z[0] {
        lemma_lex_trans(x.drop_first(), y.drop_first(), z.drop_first());
    }
}

/// `lex` says `Equal` only of equal byte strings.
pub proof fn lemma_lex_equal(x: Seq<u8>, y: Seq<u8>)
    requires
        lex(x, y) == Order3::Equal,
    ensures
        x == y,
    decreases x.len(),
{
    if x.len() > 0 {
        lemma_lex_equal(x.drop_first(), y.drop_first());
        assert(x =~= seq![x[0]] + x.drop_first());
        assert(y =~= seq![y[0]] + y.drop_first());
    }
}

/// Whether the digit run at `i` reads as zero (only `0`s).
pub open spec fn zero_run(s: Seq<u8>, i: int) -> bool {
    skip_zeros(s, i) == digits_end(s, skip_zeros(s, i))
}

/// End of the digit run at `i`.
pub open spec fn num_end(s: Seq<u8>, i: int) -> int {
    digits_end(s, skip_zeros(s, i))
}

proof fn lemma_skip_other_idem(s: Seq<u8>, i: int)
    requires
        0 <= i <= s.len(),
    ensures
        skip_other(s, skip_other(s, i)) == skip_other(s, i),
{
    lemma_skip_other(s, i);
}

proof fn lemma_order_norm(a: Seq<u8>, b: Seq<u8>, ai: int, bi: int)
    requires
        0 <= ai <= a.len(),
        0 <= bi <= b.len(),
    ensures
        order_from(a, b, ai, bi) == order_from(a, b, skip_other(a, ai), skip_other(b, bi)),
{
    lemma_skip_other(a, ai);
    lemma_skip_other(b, bi);
    lemma_skip_other_idem(a, ai);
    lemma_skip_other_idem(b, bi);
}

proof fn lemma_lex_strict(x: Seq<u8>, y: Seq<u8>, z: Seq<u8>)
    ensures
        lex(x, y) != Order3::Greater && lex(y, z) != Order3::Greater ==> lex(x, z)
            != Order3::Greater,
        lex(x, y) == Order3::Less && lex(y, z) != Order3::Greater ==> lex(x, z) == Order3::Less,
        lex(x, y) != Order3::Greater && lex(y, z) == Order3::Less ==> lex(x, z) == Order3::Less,
{
    if lex(x, y) != Order3::Greater && lex(y, z) != Order3::Greater {
        lemma_lex_trans(x, y, z);
        if lex(x, z) == Order3::Equal {
            lemma_lex_equal(x, z);
            lemma_lex_flip(x, y);
        }
    }
}

/// Facts about a digit run: it ends after `i`, and a non-zero one has a
/// non-empty significant part.
proof fn lemma_run_facts(s: Seq<u8>, i: int)
    requires
        0 <= i < s.len(),
        b_digit(s[i]),
    ensures
        i <= skip_zeros(s, i) <= num_end(s, i) <= s.len(),
        i < num_end(s, i),
        zero_run(s, i) ==> s[i] == 48,
{
    lemma_skip_zeros(s, i);
    lemma_digits_end(s, skip_zeros(s, i));
    if s[i] != 48 {
        assert(skip_zeros(s, i) == i);
    }
}

proof fn lemma_alpha_facts(s: Seq<u8>, i: int)
    requires
        0 <= i < s.len(),
        b_alpha(s[i]),
    ensures
        i < alpha_end(s, i) <= s.len(),
        skip_zeros(s, i) == i,
        digits_end(s, i) == i,
{
    lemma_alpha_end(s, i);
}

/// Transitivity of the walk from normalized positions whose tokens are
/// all digit or letter runs.
proof fn lemma_trans_words(a: Seq<u8>, b: Seq<u8>, c: Seq<u8>, ai: int, bi: int, ci: int)
    requires
        0 <= ai < a.len(),
        0 <= bi < b.len(),
        0 <= ci < c.len(),
        skip_other(a, ai) == ai,
        skip_other(b, bi) == bi,
        skip_other(c, ci) == ci,
        b_digit(a[ai]) || b_alpha(a[ai]),
        b_digit(b[bi]) || b_alpha(b[bi]),
        b_digit(c[ci]) || b_alpha(c[ci]),
    ensures
        order_from(a, b, ai, bi) != Order3::Greater && order_from(b, c, bi, ci) != Order3::Greater
            ==> order_from(a, c, ai, ci) != Order3::Greater,
        order_from(a, b, ai, bi) == Order3::Less && order_from(b, c, bi, ci) != Order3::Greater
            ==> order_from(a, c, ai, ci) == Order3::Less,
        order_from(a, b, ai, bi) != Order3::Greater && order_from(b, c, bi, ci) == Order3::Less
            ==> order_from(a, c, ai, ci) == Order3::Less,
    decreases a.len() - ai + b.len() - bi + c.len() - ci, 0int,
{
    let ad = b_digit(a[ai]);
    let bd = b_digit(b[bi]);
    let cd = b_digit(c[ci]);
    if ad {
        lemma_run_facts(a, ai);
    } else {
        lemma_alpha_facts(a, ai);
    }
    if bd {
        lemma_run_facts(b, bi);
    } else {
        lemma_alpha_facts(b, bi);
    }
    if cd {
        lemma_run_facts(c, ci);
    } else {
        lemma_alpha_facts(c, ci);
    }
    let az = zero_run(a, ai);
    let bz = zero_run(b, bi);
    let cz = zero_run(c, ci);
    if ad && bd && cd {
        let ra = a.subrange(skip_zeros(a, ai), num_end(a, ai));
        let rb = b.subrange(skip_zeros(b, bi), num_end(b, bi));
        let rc = c.subrange(skip_zeros(c, ci), num_end(c, ci));
        lemma_lex_strict(ra, rb, rc);
        if ra.len() == rb.len() && rb.len() == rc.len() && lex(ra, rb) == Order3::Equal && lex(
            rb,
            rc,
        ) == Order3::Equal {
            lemma_order_trans(a, b, c, num_end(a, ai), num_end(b, bi), num_end(c, ci));
        }
    } else if !ad && !bd && !cd {
        let ra = a.subrange(ai, alpha_end(a, ai));
        let rb = b.subrange(bi, alpha_end(b, bi));
        let rc = c.subrange(ci, alpha_end(c, ci));
        lemma_lex_strict(ra, rb, rc);
        if lex(ra, rb) == Order3::Equal && lex(rb, rc) == Order3::Equal {
            lemma_order_trans(a, b, c, alpha_end(a, ai), alpha_end(b, bi), alpha_end(c, ci));
        }
    } else if ad && az && bd && bz && !cd {
        lemma_order_trans(a, b, c, num_end(a, ai), num_end(b, bi), ci);
    } else if ad && az && !bd && cd && cz {
        lemma_order_trans(a, b, c, num_end(a, ai), bi, num_end(c, ci));
    } else if ad && az && !bd && !cd {
        lemma_order_trans(a, b, c, num_end(a, ai), bi, ci);
    } else if !ad && bd && bz && cd && cz {
        lemma_order_trans(a, b, c, ai, num_end(b, bi), num_end(c, ci));
    } else if !ad && bd && bz && !cd {
        lemma_order_trans(a, b, c, ai, num_end(b, bi), ci);
    } else if !ad && !bd && cd && cz {
        lemma_order_trans(a, b, c, ai, bi, num_end(c, ci));
    }
}

/// Transitivity of the walk of `a`, `b` and `c` from the given positions.
proof fn lemma_order_trans(a: Seq<u8>, b: Seq<u8>, c: Seq<u8>, ai: int, bi: int, ci: int)
    requires
        0 <= ai <= a.len(),
        0 <= bi <= b.len(),
        0 <= ci <= c.len(),
    ensures
        order_from(a, b, ai, bi) != Order3::Greater && order_from(b, c, bi, ci) != Order3::Greater
            ==> order_from(a, c, ai, ci) != Order3::Greater,
        order_from(a, b, ai, bi) == Order3::Less && order_from(b, c, bi, ci) != Order3::Greater
            ==> order_from(a, c, ai, ci) == Order3::Less,
        order_from(a, b, ai, bi) != Order3::Greater && order_from(b, c, bi, ci) == Order3::Less
            ==> order_from(a, c, ai, ci) == Order3::Less,
    decreases a.len() - ai + b.len() - bi + c.len() - ci, 1int,
{
    lemma_order_norm(a, b, ai, bi);
    lemma_order_norm(b, c, bi, ci);
    lemma_order_norm(a, c, ai, ci);
    lemma_skip_other(a, ai);
    lemma_skip_other(b, bi);
    lemma_skip_other(c, ci);
    let x = skip_other(a, ai);
    let y = skip_other(b, bi);
    let z = skip_other(c, ci);
    lemma_skip_other_idem(a, ai);
    lemma_skip_other_idem(b, bi);
    lemma_skip_other_idem(c, ci);
    let xw = x < a.len() && (b_digit(a[x]) || b_alpha(a[x]));
    let yw = y < b.len() && (b_digit(b[y]) || b_alpha(b[y]));
    let zw = z < c.len() && (b_digit(c[z]) || b_alpha(c[z]));
    if xw && yw && zw {
        lemma_trans_words(a, b, c, x, y, z);
    } else if x < a.len() && y < b.len() && z < c.len() && a[x] == b[y] && b[y] == c[z] && (a[x]
        == 126 || a[x] == 45 || a[x] == 94 || a[x] == 46) {
        lemma_order_trans(a, b, c, x + 1, y + 1, z + 1);
    }
}

/// The UAPI.10 order is transitive: `a <= b <= c` gives `a <= c`, and
/// strictly so when either step is strict.
pub proof fn version_order_transitive(a: Seq<u8>, b: Seq<u8>, c: Seq<u8>)
    ensures
        version_order(a, b) != Order3::Greater && version_order(b, c) != Order3::Greater
            ==> version_order(a, c) != Order3::Greater,
        version_order(a, b) == Order3::Less && version_order(b, c) != Order3::Greater
            ==> version_order(a, c) == Order3::Less,
        version_order(a, b) != Order3::Greater && version_order(b, c) == Order3::Less
            ==> version_order(a, c) == Order3::Less,
{
    lemma_order_trans(a, b, c, 0, 0, 0);
}

} // verus!
