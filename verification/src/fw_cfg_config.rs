//! The host-supplied per-VM JSON blob exposed through fw_cfg at
//! `opt/lamboot/config`: a flat object whose string-valued keys `fleet_id`,
//! `vmid`, `role` and `hostname` are read; other keys are ignored.
//!
//! The scan is deliberately small and strict about string values: a key
//! whose value is not a string (an array, a number, `null`) reads as absent.
use vstd::prelude::*;

use crate::text::{chars_of, first_index, push_char, trim_start, char_is_ws, is_ws};

verus! {

/// Fields read from the fw_cfg JSON blob; each may be absent.
#[derive(Default, Debug)]
pub struct FwCfgConfig {
    pub fleet_id: Option<String>,
    pub vmid: Option<String>,
    pub role: Option<String>,
    pub host_node: Option<String>,
}

pub struct FwCfgConfigView {
    pub fleet_id: Option<Seq<char>>,
    pub vmid: Option<Seq<char>>,
    pub role: Option<Seq<char>>,
    pub host_node: Option<Seq<char>>,
}

pub open spec fn opt_str_view(o: Option<String>) -> Option<Seq<char>> {
    match o {
        Some(s) => Some(s@),
        None => None,
    }
}

impl View for FwCfgConfig {
    type V = FwCfgConfigView;

    open spec fn view(&self) -> FwCfgConfigView {
        FwCfgConfigView {
            fleet_id: opt_str_view(self.fleet_id),
            vmid: opt_str_view(self.vmid),
            role: opt_str_view(self.role),
            host_node: opt_str_view(self.host_node),
        }
    }
}

/// First index at or after `i` where `p` occurs in `s`, or `-1`.
pub open spec fn find_from(s: Seq<char>, p: Seq<char>, i: int) -> int
    decreases s.len() + 1 - i,
{
    if i < 0 || i + p.len() > s.len() {
        -1
    } else if s.subrange(i, i + p.len()) == p {
        i
    } else {
        find_from(s, p, i + 1)
    }
}

/// The character a JSON escape `\c` stands for; an unknown escape stands
/// for its own character.
pub open spec fn unescape(c: char) -> char {
    if c == 'n' {
        '\n'
    } else if c == 'r' {
        '\r'
    } else if c == 't' {
        '\t'
    } else if c == 'b' {
        '\x08'
    } else if c == 'f' {
        '\x0c'
    } else {
        c
    }
}

/// The body of a JSON string after its opening quote: the characters up to
/// the closing quote, with escapes resolved, appended to `acc`. `None` when
/// there is no closing quote or the value is empty.
pub open spec fn scan_string(rest: Seq<char>, escaped: bool, acc: Seq<char>) -> Option<Seq<char>>
    decreases rest.len(),
{
    if rest.len() == 0 {
        None
    } else if escaped {
        scan_string(rest.drop_first(), false, acc.push(unescape(rest[0])))
    } else if rest[0] == '\\' {
        scan_string(rest.drop_first(), true, acc)
    } else if rest[0] == '"' {
        if acc.len() == 0 {
            None
        } else {
            Some(acc)
        }
    } else {
        scan_string(rest.drop_first(), false, acc.push(rest[0]))
    }
}

/// The string value of `key` in a flat JSON object: found after the first
/// `"key"`, its colon and any whitespace. `None` when the key is missing,
/// the value is not a string, the string is empty or never closed.
pub open spec fn string_field(input: Seq<char>, key: Seq<char>) -> Option<Seq<char>> {
    let needle = seq!['"'] + key + seq!['"'];
    let pos = find_from(input, needle, 0);
    if pos < 0 {
        None
    } else {
        let after_key = input.subrange(pos + needle.len(), input.len() as int);
        let colon = first_index(after_key, ':');
        if colon < 0 {
            None
        } else {
            let trimmed = trim_start(after_key.subrange(colon + 1, after_key.len() as int));
            if trimmed.len() == 0 || trimmed[0] != '"' {
                None
            } else {
                scan_string(trimmed.drop_first(), false, Seq::empty())
            }
        }
    }
}

proof fn lemma_find_from(s: Seq<char>, p: Seq<char>, i: int)
    requires
        0 <= i,
    ensures
        find_from(s, p, i) == -1 || (i <= find_from(s, p, i) && find_from(s, p, i) + p.len()
            <= s.len()),
    decreases s.len() + 1 - i,
{
    if i + p.len() <= s.len() && s.subrange(i, i + p.len()) != p {
        lemma_find_from(s, p, i + 1);
    }
}

fn range_eq(v: &Vec<char>, lo: usize, w: &Vec<char>) -> (b: bool)
    requires
        lo + w.len() <= v.len(),
    ensures
        b == (v@.subrange(lo as int, lo + w@.len()) == w@),
{
    let mut k: usize = 0;
    while k < w.len()
        invariant
            lo + w.len() <= v.len(),
            k <= w@.len(),
            forall|m: int| 0 <= m < k ==> v@[lo + m] == w@[m],
        decreases w@.len() - k,
    {
        if v[lo + k] != w[k] {
            assert(v@.subrange(lo as int, lo + w@.len())[k as int] != w@[k as int]);
            return false;
        }
        k += 1;
    }
    assert(v@.subrange(lo as int, lo + w@.len()) =~= w@);
    true
}

fn unescape_char(c: char) -> (r: char)
    ensures
        r == unescape(c),
{
    if c == 'n' {
        '\n'
    } else if c == 'r' {
        '\r'
    } else if c == 't' {
        '\t'
    } else if c == 'b' {
        '\x08'
    } else if c == 'f' {
        '\x0c'
    } else {
        c
    }
}

/// Extract the string value associated with `key` from a flat JSON object;
/// `None` if the key is missing, the value is not a string, or it is empty.
/// The escapes `\" \\ \/ \n \r \t \b \f` are resolved; any other escaped
/// character stands for itself.
fn extract_string_field(input: &str, key: &str) -> (r: Option<String>)
    ensures
        opt_str_view(r) == string_field(input@, key@),
{
    let v = chars_of(input);
    let kv = chars_of(key);
    let mut needle: Vec<char> = Vec::new();
    needle.push('"');
    let mut k: usize = 0;
    while k < kv.len()
        invariant
            k <= kv@.len(),
            needle@ == seq!['"'] + kv@.subrange(0, k as int),
        decreases kv@.len() - k,
    {
        needle.push(kv[k]);
        assert(kv@.subrange(0, k + 1) == kv@.subrange(0, k as int).push(kv@[k as int]));
        k += 1;
    }
    assert(kv@.subrange(0, kv@.len() as int) == kv@);
    needle.push('"');
    assert(needle@ =~= seq!['"'] + key@ + seq!['"']);
    let n = v.len();
    let m = needle.len();
    // find the needle
    let mut i: usize = 0;
    let mut pos: Option<usize> = None;
    while m <= n && i <= n - m
        invariant_except_break
            v@ == input@,
            n == v@.len(),
            m == needle@.len(),
            find_from(v@, needle@, 0) == find_from(v@, needle@, i as int),
            pos is None,
            m >= 2,
            i <= n,
        ensures
            match pos {
                Some(p) => find_from(v@, needle@, 0) == p as int,
                None => find_from(v@, needle@, 0) == -1,
            },
        decreases n - i,
    {
        if range_eq(&v, i, &needle) {
            pos = Some(i);
            break;
        }
        i += 1;
    }
    let pos = match pos {
        None => return None,
        Some(p) => p,
    };
    proof {
        lemma_find_from(v@, needle@, 0);
    }
    let start = pos + m;
    let ghost after_key = v@.subrange(start as int, n as int);
    // find the colon
    let mut j = start;
    while j < n && v[j] != ':'
        invariant
            start <= j <= n,
            n == v@.len(),
            after_key == v@.subrange(start as int, n as int),
            first_index(after_key, ':') == if first_index(v@.subrange(j as int, n as int), ':') < 0 {
                -1
            } else {
                first_index(v@.subrange(j as int, n as int), ':') + (j - start)
            },
        decreases n - j,
    {
        assert(v@.subrange(j as int, n as int).drop_first() == v@.subrange(j + 1, n as int));
        j += 1;
    }
    if j == n {
        return None;
    }
    assert(after_key.subrange(j - start + 1, after_key.len() as int) == v@.subrange(
        j + 1,
        n as int,
    ));
    // skip whitespace
    let mut t = j + 1;
    while t < n && char_is_ws(v[t])
        invariant
            j + 1 <= t <= n,
            n == v@.len(),
            trim_start(v@.subrange(j + 1, n as int)) == trim_start(v@.subrange(t as int, n as int)),
        decreases n - t,
    {
        assert(v@.subrange(t as int, n as int).drop_first() == v@.subrange(t + 1, n as int));
        t += 1;
    }
    assert(t < n ==> !is_ws(v@[t as int]));
    assert(t < n ==> v@.subrange(t as int, n as int)[0] == v@[t as int]);
    if t == n || v[t] != '"' {
        return None;
    }
    assert(trim_start(v@.subrange(t as int, n as int)) == v@.subrange(t as int, n as int));
    let mut q = t + 1;
    let mut out = String::new();
    let mut escaped = false;
    assert(v@.subrange(t as int, n as int).drop_first() == v@.subrange(t + 1, n as int));
    while q < n
        invariant
            t + 1 <= q <= n,
            n == v@.len(),
            string_field(input@, key@) == scan_string(v@.subrange(q as int, n as int), escaped, out@),
        decreases n - q,
    {
        let c = v[q];
        assert(v@.subrange(q as int, n as int)[0] == c);
        assert(v@.subrange(q as int, n as int).drop_first() == v@.subrange(q + 1, n as int));
        if escaped {
            push_char(&mut out, unescape_char(c));
            escaped = false;
        } else if c == '\\' {
            escaped = true;
        } else if c == '"' {
            if out.as_str().is_empty() {
                return None;
            }
            return Some(out);
        } else {
            push_char(&mut out, c);
        }
        q += 1;
    }
    None
}

impl FwCfgConfig {
    /// Parse the hookscript's JSON object. Never fails: a key that cannot be
    /// read leaves its field `None`.
    pub fn parse(input: &str) -> (r: FwCfgConfig)
        ensures
            r@.fleet_id == string_field(input@, "fleet_id"@),
            r@.vmid == string_field(input@, "vmid"@),
            r@.role == string_field(input@, "role"@),
            r@.host_node == string_field(input@, "hostname"@),
    {
        FwCfgConfig {
            fleet_id: extract_string_field(input, "fleet_id"),
            vmid: extract_string_field(input, "vmid"),
            role: extract_string_field(input, "role"),
            host_node: extract_string_field(input, "hostname"),
        }
    }
}

} // verus!
