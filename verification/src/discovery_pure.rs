//! Helpers for discovery that read only names.
use vstd::prelude::*;

use crate::text::{
    char_is_alpha, char_is_hex, chars_of, find_char, first_index, is_alnum, is_alpha, is_digit,
    is_hex, lemma_first_index, replace_all, replace_str, str_eq, string_of_range,
};

verus! {

/// Number of ASCII hexadecimal digits in `s`.
pub open spec fn hex_count(s: Seq<char>) -> nat
    decreases s.len(),
{
    if s.len() == 0 {
        0
    } else {
        hex_count(s.drop_last()) + if is_hex(s.last()) {
            1nat
        } else {
            0nat
        }
    }
}

/// Whether `d` has the shape `<distro>-<uuid-ish>` of a systemd-boot
/// discoverable directory: a name before the first `-` that starts with an
/// ASCII letter and holds only letters, digits and `_`, then a suffix of at
/// least four characters made of hexadecimal digits and dashes, at least
/// four of them digits.
pub open spec fn distro_uuid_dir(d: Seq<char>) -> bool {
    let dash = first_index(d, '-');
    let name = d.subrange(0, dash);
    let suffix = d.subrange(dash + 1, d.len() as int);
    &&& dash > 0
    &&& suffix.len() >= 4
    &&& is_alpha(name[0])
    &&& forall|k: int| 0 <= k < name.len() ==> is_alnum(#[trigger] name[k]) || name[k] == '_'
    &&& forall|k: int| 0 <= k < suffix.len() ==> is_hex(#[trigger] suffix[k]) || suffix[k] == '-'
    &&& hex_count(suffix) >= 4
}

/// Recognise directory names of the shape `<distro>-<uuid-ish>`
/// (`Pop_OS-fc9ac3db-cac4-48bd-b437-cd47301f1c7f`, `Recovery-79EB-58C6`);
/// `Linux`, `foo-bar`, `-prefix-only` and `name-zzz` are not.
pub fn looks_like_distro_uuid_dir(dirname: &str) -> (r: bool)
    ensures
        r == distro_uuid_dir(dirname@),
{
    let v = chars_of(dirname);
    let n = v.len();
    assert(v@.subrange(0, n as int) == v@);
    proof {
        lemma_first_index(v@, '-');
    }
    let dash = match find_char(&v, 0, n, '-') {
        None => return false,
        Some(d) => d,
    };
    if dash == 0 || n - (dash + 1) < 4 {
        return false;
    }
    let ghost name = v@.subrange(0, dash as int);
    let ghost suffix = v@.subrange(dash + 1, n as int);
    if !char_is_alpha(v[0]) {
        return false;
    }
    let mut k: usize = 0;
    while k < dash
        invariant
            k <= dash < n,
            n == v@.len(),
            v@ == dirname@,
            first_index(dirname@, '-') == dash,
            name == v@.subrange(0, dash as int),
            forall|m: int| 0 <= m < k ==> is_alnum(#[trigger] name[m]) || name[m] == '_',
        decreases dash - k,
    {
        let c = v[k];
        if !(char_is_alpha(c) || ('0' <= c && c <= '9') || c == '_') {
            assert(!(is_alnum(name[k as int]) || name[k as int] == '_'));
            return false;
        }
        k += 1;
    }
    let mut j: usize = dash + 1;
    let mut count: usize = 0;
    while j < n
        invariant
            dash + 1 <= j <= n,
            n == v@.len(),
            v@ == dirname@,
            first_index(dirname@, '-') == dash,
            suffix == v@.subrange(dash + 1, n as int),
            count == hex_count(v@.subrange(dash + 1, j as int)),
            count <= j - dash - 1,
            forall|m: int| 0 <= m < j - dash - 1 ==> is_hex(#[trigger] suffix[m]) || suffix[m] == '-',
        decreases n - j,
    {
        let c = v[j];
        assert(v@.subrange(dash + 1, j + 1).drop_last() == v@.subrange(dash + 1, j as int));
        if char_is_hex(c) {
            count += 1;
        } else if c != '-' {
            assert(suffix[j - dash - 1] == c);
            assert(!(is_hex(suffix[j - dash - 1]) || suffix[j - dash - 1] == '-'));
            return false;
        }
        j += 1;
    }
    assert(v@.subrange(dash + 1, n as int) == suffix);
    count >= 4
}

/// The part of `d` before its first `-` (all of `d` without one).
pub open spec fn distro_prefix(d: Seq<char>) -> Seq<char> {
    let dash = first_index(d, '-');
    if dash < 0 {
        d
    } else {
        d.subrange(0, dash)
    }
}

/// What `pretty_name_from_distro_uuid_dir` returns: for a distro-UUID
/// directory the prefix before the first `-`, with System76's `Pop_OS`
/// written `Pop!_OS`; any other name unchanged.
pub open spec fn pretty_name(d: Seq<char>) -> Seq<char> {
    if !distro_uuid_dir(d) {
        d
    } else if distro_prefix(d) == "Pop_OS"@ {
        "Pop!_OS"@
    } else {
        distro_prefix(d)
    }
}

/// A display name for a distro-UUID directory (`Pop_OS-…` gives `Pop!_OS`,
/// `Recovery-79EB-58C6` gives `Recovery`); a name that is not one, such as
/// `name-only-no-dash`, comes back unchanged.
pub fn pretty_name_from_distro_uuid_dir(dirname: &str) -> (r: String)
    ensures
        r@ == pretty_name(dirname@),
{
    if !looks_like_distro_uuid_dir(dirname) {
        return String::from_str(dirname);
    }
    let v = chars_of(dirname);
    let n = v.len();
    assert(v@.subrange(0, n as int) == v@);
    proof {
        lemma_first_index(v@, '-');
    }
    let end = match find_char(&v, 0, n, '-') {
        None => n,
        Some(d) => d,
    };
    let prefix = string_of_range(&v, 0, end);
    if str_eq(prefix.as_str(), "Pop_OS") {
        return String::from_str("Pop!_OS");
    }
    prefix
}

/// Convert a forward-slash path into a UEFI backslash path.
pub fn forward_to_backslash(path: &str) -> (r: String)
    ensures
        r@ == replace_all(path@, seq!['/'], seq!['\\']),
{
    proof {
        reveal_strlit("/");
        reveal_strlit("\\");
        assert("/"@ =~= seq!['/']);
        assert("\\"@ =~= seq!['\\']);
    }
    replace_str(path, "/", "\\")
}

} // verus!
