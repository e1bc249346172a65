//! Discovery decisions: de-duplication of entries, names and versions read
//! from paths, and the module manifest of the diagnostic tools.
use vstd::prelude::*;

use crate::bls_parse::{lower, lower_all, opt_view, same_content, BlsEntry, BlsEntryView};
use crate::boot_types::{entry_views, BootEntry, BootEntryView, EntryKind, EntryKindView, IsoSource};
use crate::bls::{bls_boot_entry, to_boot_entry};
use crate::text::{
    str_to_lowercase, unicode_lowercase,
    chars_of, first_index, is_ws, last_index, lemma_first_index, lemma_last_index, push_char,
    rfind_char, find_char, string_of_range, str_eq, trim, trim_range,
};
use crate::bls_parse::split_lines;
use crate::fs::string_views;

verus! {

/// The text after the last `\` of a path (all of it without one).
pub open spec fn last_segment(p: Seq<char>) -> Seq<char> {
    let i = last_index(p, '\\');
    if i < 0 {
        p
    } else {
        p.subrange(i + 1, p.len() as int)
    }
}

fn last_segment_of(path: &str) -> (r: String)
    ensures
        r@ == last_segment(path@),
{
    let v = chars_of(path);
    let n = v.len();
    assert(v@.subrange(0, n as int) == v@);
    proof {
        lemma_last_index(v@, '\\');
    }
    match rfind_char(&v, 0, n, '\\') {
        Some(i) => string_of_range(&v, i + 1, n),
        None => string_of_range(&v, 0, n),
    }
}

/// The lower-cased file name of a backslash path: the de-duplication key.
pub fn extract_filename_lower(path: &str) -> (r: String)
    ensures
        r@ == unicode_lowercase(last_segment(path@)),
{
    let seg = last_segment_of(path);
    str_to_lowercase(seg.as_str())
}

/// `s` with every trailing `.efi` removed (`str::trim_end_matches`).
pub open spec fn trim_efi(s: Seq<char>) -> Seq<char>
    decreases s.len(),
{
    if s.len() >= 4 && s.subrange(s.len() - 4, s.len() as int) == seq!['.', 'e', 'f', 'i'] {
        trim_efi(s.subrange(0, s.len() - 4))
    } else {
        s
    }
}

/// The file name of a backslash path without its `.efi` suffixes.
pub fn extract_filename(path: &str) -> (r: Option<String>)
    ensures
        r matches Some(s) && s@ == trim_efi(last_segment(path@)),
{
    let seg = last_segment_of(path);
    let v = chars_of(seg.as_str());
    let mut end = v.len();
    assert(v@.subrange(0, end as int) == v@);
    while end >= 4 && v[end - 4] == '.' && v[end - 3] == 'e' && v[end - 2] == 'f' && v[end - 1]
        == 'i'
        invariant
            end <= v@.len(),
            trim_efi(seg@) == trim_efi(v@.subrange(0, end as int)),
            v@ == seg@,
        decreases end,
    {
        let ghost t = v@.subrange(0, end as int);
        assert(t.subrange(t.len() - 4, t.len() as int) =~= seq!['.', 'e', 'f', 'i']);
        assert(t.subrange(0, t.len() - 4) =~= v@.subrange(0, end - 4));
        end -= 4;
    }
    proof {
        let t = v@.subrange(0, end as int);
        if t.len() >= 4 && t.subrange(t.len() - 4, t.len() as int) == seq!['.', 'e', 'f', 'i'] {
            assert(t.subrange(t.len() - 4, t.len() as int)[0] == v@[end - 4]);
            assert(t.subrange(t.len() - 4, t.len() as int)[1] == v@[end - 3]);
            assert(t.subrange(t.len() - 4, t.len() as int)[2] == v@[end - 2]);
            assert(t.subrange(t.len() - 4, t.len() as int)[3] == v@[end - 1]);
        }
    }
    Some(string_of_range(&v, 0, end))
}

/// The version inside the last parentheses of an entry's name
/// (`Fedora Linux 43 (6.12.0-200)` gives `6.12.0-200`), else its id.
pub open spec fn uki_version(name: Seq<char>, id: Seq<char>) -> Seq<char> {
    let start = last_index(name, '(');
    let end = last_index(name, ')');
    if start >= 0 && end >= 0 && start < end {
        name.subrange(start + 1, end)
    } else {
        id
    }
}

/// The version string a UKI entry is sorted by.
pub fn extract_uki_version(entry: &BootEntry) -> (r: String)
    ensures
        r@ == uki_version(entry.name@, entry.id@),
{
    let v = chars_of(entry.name.as_str());
    let n = v.len();
    assert(v@.subrange(0, n as int) == v@);
    proof {
        lemma_last_index(v@, '(');
        lemma_last_index(v@, ')');
    }
    if let Some(start) = rfind_char(&v, 0, n, '(') {
        if let Some(end) = rfind_char(&v, 0, n, ')') {
            if start < end {
                return string_of_range(&v, start + 1, end);
            }
        }
    }
    String::from_str(entry.id.as_str())
}

/// Index of the first entry of `d` whose filename equals `f` ignoring ASCII
/// case, or `-1`.
pub open spec fn same_name_index(d: Seq<BlsEntryView>, f: Seq<char>, i: int) -> int
    decreases d.len() - i,
{
    if i < 0 || i >= d.len() {
        -1
    } else if lower_all(d[i].filename) == lower_all(f) {
        i
    } else {
        same_name_index(d, f, i + 1)
    }
}

/// Index of the first entry of `d` from `i` on with the filename of `e`
/// (ignoring ASCII case) and the content of `e`, or `-1`.
pub open spec fn copy_index(d: Seq<BlsEntryView>, e: BlsEntryView, i: int) -> int
    decreases d.len() - i,
{
    if i < 0 || i >= d.len() {
        -1
    } else if lower_all(d[i].filename) == lower_all(e.filename) && same_content(d[i], e) {
        i
    } else {
        copy_index(d, e, i + 1)
    }
}

proof fn lemma_copy_index(d: Seq<BlsEntryView>, e: BlsEntryView, i: int)
    requires
        0 <= i,
    ensures
        copy_index(d, e, i) == -1 || i <= copy_index(d, e, i) < d.len(),
    decreases d.len() - i,
{
    if i < d.len() && !(lower_all(d[i].filename) == lower_all(e.filename) && same_content(d[i], e)) {
        lemma_copy_index(d, e, i + 1);
    }
}

/// The kept entries and the duplicate-filename reports after
/// de-duplicating `es`: an entry is dropped when any earlier kept entry has
/// the same filename (ignoring ASCII case) and the same content (the first
/// copy wins); otherwise it is kept, and when an earlier kept entry has the
/// same filename the pair (index of the first such entry, index of the new
/// one) is reported.
pub open spec fn dedup_bls(es: Seq<BlsEntryView>) -> (Seq<BlsEntryView>, Seq<(int, int)>)
    decreases es.len(),
{
    if es.len() == 0 {
        (Seq::empty(), Seq::empty())
    } else {
        let (d, ev) = dedup_bls(es.drop_last());
        let e = es.last();
        let k = same_name_index(d, e.filename, 0);
        if copy_index(d, e, 0) >= 0 {
            (d, ev)
        } else if k >= 0 {
            (d.push(e), ev.push((k, d.len() as int)))
        } else {
            (d.push(e), ev)
        }
    }
}

proof fn lemma_same_name_index(d: Seq<BlsEntryView>, f: Seq<char>, i: int)
    requires
        0 <= i,
    ensures
        same_name_index(d, f, i) == -1 || i <= same_name_index(d, f, i) < d.len(),
    decreases d.len() - i,
{
    if i < d.len() && lower_all(d[i].filename) != lower_all(f) {
        lemma_same_name_index(d, f, i + 1);
    }
}

/// Whether two strings are equal ignoring ASCII case.
pub fn ascii_eq_ignore_case(a: &str, b: &str) -> (r: bool)
    ensures
        r == (lower_all(a@) == lower_all(b@)),
{
    let x = chars_of(a);
    let y = chars_of(b);
    if x.len() != y.len() {
        assert(lower_all(a@).len() != lower_all(b@).len());
        return false;
    }
    let mut k: usize = 0;
    while k < x.len()
        invariant
            x@ == a@,
            y@ == b@,
            x@.len() == y@.len(),
            k <= x@.len(),
            forall|m: int| 0 <= m < k ==> lower(x@[m]) == lower(#[trigger] y@[m]),
        decreases x@.len() - k,
    {
        let cx = x[k];
        let cy = y[k];
        let lx = if 'A' <= cx && cx <= 'Z' { ((cx as u8) + 32) as char } else { cx };
        let ly = if 'A' <= cy && cy <= 'Z' { ((cy as u8) + 32) as char } else { cy };
        assert(lx == lower(cx) && ly == lower(cy));
        if lx != ly {
            assert(lower_all(a@)[k as int] != lower_all(b@)[k as int]);
            return false;
        }
        k += 1;
    }
    assert(lower_all(a@) =~= lower_all(b@));
    true
}

pub open spec fn bls_views(v: Seq<BlsEntry>) -> Seq<BlsEntryView> {
    v.map_values(|e: BlsEntry| e@)
}

/// De-duplicate BLS entries found across volumes (the first copy of any
/// entry wins);
/// also returns, for each same-named pair with different content, the
/// indices in the result of the earlier and the later entry, so the caller
/// can report the conflict.
pub fn dedup_bls_entries(entries: Vec<BlsEntry>) -> (r: (Vec<BlsEntry>, Vec<(usize, usize)>))
    ensures
        bls_views(r.0@) == dedup_bls(bls_views(entries@)).0,
        r.1@.map_values(|p: (usize, usize)| (p.0 as int, p.1 as int)) == dedup_bls(
            bls_views(entries@),
        ).1,
{
    let ghost all = bls_views(entries@);
    let mut rest = entries;
    let mut kept: Vec<BlsEntry> = Vec::new();
    let mut events: Vec<(usize, usize)> = Vec::new();
    let ghost mut i: int = 0;
    while rest.len() > 0
        invariant
            0 <= i <= all.len(),
            bls_views(rest@) == all.skip(i),
            bls_views(kept@) == dedup_bls(all.take(i)).0,
            events@.map_values(|p: (usize, usize)| (p.0 as int, p.1 as int)) == dedup_bls(
                all.take(i),
            ).1,
        decreases rest@.len(),
    {
        let ghost r0 = rest@;
        let e = rest.remove(0);
        proof {
            assert(bls_views(r0)[0] == e@);
            assert(all.skip(i).len() == r0.len());
            assert(all.skip(i)[0] == all[i]);
            assert(rest@ =~= r0.drop_first());
            assert forall|j: int| 0 <= j < rest@.len() implies bls_views(rest@)[j] == all.skip(
                i + 1,
            )[j] by {
                assert(rest@[j] == r0[j + 1]);
                assert(bls_views(r0)[j + 1] == all.skip(i)[j + 1]);
            }
            assert(bls_views(rest@) =~= all.skip(i + 1));
            assert(all.take(i + 1).drop_last() =~= all.take(i));
            assert(all.take(i + 1).last() == e@);
        }
        let ghost d = bls_views(kept@);
        let mut k: usize = 0;
        let mut found: Option<usize> = None;
        proof {
            lemma_same_name_index(d, e@.filename, 0);
        }
        while k < kept.len()
            invariant_except_break
                k <= kept@.len(),
                d == bls_views(kept@),
                found is None,
                same_name_index(d, e@.filename, 0) == same_name_index(d, e@.filename, k as int),
            ensures
                match found {
                    Some(j) => same_name_index(d, e@.filename, 0) == j && j < kept@.len(),
                    None => same_name_index(d, e@.filename, 0) == -1,
                },
            decreases kept@.len() - k,
        {
            assert(d[k as int] == kept@[k as int]@);
            if ascii_eq_ignore_case(kept[k].filename.as_str(), e.filename.as_str()) {
                found = Some(k);
                break;
            }
            k += 1;
        }
        let mut c: usize = 0;
        let mut copy = false;
        proof {
            lemma_copy_index(d, e@, 0);
        }
        while c < kept.len()
            invariant_except_break
                c <= kept@.len(),
                d == bls_views(kept@),
                !copy,
                copy_index(d, e@, 0) == copy_index(d, e@, c as int),
            ensures
                copy == (copy_index(d, e@, 0) >= 0),
            decreases kept@.len() - c,
        {
            assert(d[c as int] == kept@[c as int]@);
            if ascii_eq_ignore_case(kept[c].filename.as_str(), e.filename.as_str()) && kept[c] == e {
                copy = true;
                break;
            }
            c += 1;
        }
        if !copy {
            match found {
                Some(j) => {
                    let n = kept.len();
                    kept.push(e);
                    events.push((j, n));
                    proof {
                        assert(bls_views(kept@) =~= d.push(kept@[n as int]@));
                    }
                },
                None => {
                    kept.push(e);
                    proof {
                        assert(bls_views(kept@) =~= d.push(kept@[kept@.len() - 1]@));
                    }
                },
            }
        }
        proof {
            i = i + 1;
        }
    }
    proof {
        assert(all.take(i) =~= all);
    }
    (kept, events)
}

/// The de-duplication key of a boot entry: the lower-cased file name of
/// the chainload target, UKI or kernel; ISO entries have none.
pub open spec fn dedup_key(k: EntryKind) -> Option<Seq<char>> {
    match k {
        EntryKind::Chainload { path } => Some(unicode_lowercase(last_segment(path@))),
        EntryKind::Uki { path, .. } => Some(unicode_lowercase(last_segment(path@))),
        EntryKind::LinuxLegacy { kernel_path, .. } => Some(
            unicode_lowercase(last_segment(kernel_path@)),
        ),
        EntryKind::Iso { .. } => None,
    }
}

fn entry_key(e: &BootEntry) -> (r: Option<String>)
    ensures
        match r {
            Some(s) => dedup_key(e.kind) == Some(s@),
            None => dedup_key(e.kind) is None,
        },
{
    match &e.kind {
        EntryKind::Chainload { path } => Some(extract_filename_lower(path.as_str())),
        EntryKind::Uki { path, .. } => Some(extract_filename_lower(path.as_str())),
        EntryKind::LinuxLegacy { kernel_path, .. } => Some(
            extract_filename_lower(kernel_path.as_str()),
        ),
        EntryKind::Iso { .. } => None,
    }
}

/// Whether an entry with key `k` survives after the keys `seen`.
pub open spec fn keep_entry(k: Option<Seq<char>>, seen: Seq<Seq<char>>) -> bool {
    match k {
        Some(s) => !seen.contains(s),
        None => true,
    }
}

/// The entries kept by `dedup_entries`, with the keys seen so far.
pub open spec fn dedup_boot(keys: Seq<Option<Seq<char>>>) -> (Seq<bool>, Seq<Seq<char>>)
    decreases keys.len(),
{
    if keys.len() == 0 {
        (Seq::empty(), Seq::empty())
    } else {
        let (kept, seen) = dedup_boot(keys.drop_last());
        let k = keys.last();
        if keep_entry(k, seen) {
            (kept.push(true), match k {
                Some(s) => seen.push(s),
                None => seen,
            })
        } else {
            (kept.push(false), seen)
        }
    }
}

pub open spec fn entry_keys(es: Seq<BootEntry>) -> Seq<Option<Seq<char>>> {
    es.map_values(|e: BootEntry| dedup_key(e.kind))
}

/// The entries of `es` whose flag in `keep` is set, in order.
pub open spec fn select(es: Seq<BootEntry>, keep: Seq<bool>) -> Seq<BootEntry>
    decreases es.len(),
{
    if es.len() == 0 || keep.len() != es.len() {
        Seq::empty()
    } else if keep.last() {
        select(es.drop_last(), keep.drop_last()).push(es.last())
    } else {
        select(es.drop_last(), keep.drop_last())
    }
}

fn contains_string(v: &Vec<String>, s: &String) -> (r: bool)
    ensures
        r == string_views(v@).contains(s@),
{
    let mut i: usize = 0;
    while i < v.len()
        invariant
            i <= v@.len(),
            forall|j: int| 0 <= j < i ==> v@[j]@ != s@,
        decreases v@.len() - i,
    {
        if str_eq(v[i].as_str(), s.as_str()) {
            assert(string_views(v@)[i as int] == s@);
            return true;
        }
        i += 1;
    }
    proof {
        if string_views(v@).contains(s@) {
            let j = choose|j: int| 0 <= j < v@.len() && #[trigger] string_views(v@)[j] == s@;
            assert(v@[j]@ == s@);
        }
    }
    false
}

/// Drop every entry whose kernel/loader file name (ignoring case) was
/// already seen on an earlier entry; BLS entries come first, so they win.
pub fn dedup_entries(entries: &mut Vec<BootEntry>)
    ensures
        final(entries)@ == select(old(entries)@, dedup_boot(entry_keys(old(entries)@)).0),
{
    let ghost all = entries@;
    let mut rest: Vec<BootEntry> = Vec::new();
    core::mem::swap(&mut rest, entries);
    let mut seen: Vec<String> = Vec::new();
    let ghost mut i: int = 0;
    while rest.len() > 0
        invariant
            0 <= i <= all.len(),
            rest@ == all.skip(i),
            entries@ == select(all.take(i), dedup_boot(entry_keys(all.take(i))).0),
            string_views(seen@) == dedup_boot(entry_keys(all.take(i))).1,
            dedup_boot(entry_keys(all.take(i))).0.len() == i,
        decreases rest@.len(),
    {
        let ghost r0 = rest@;
        let e = rest.remove(0);
        proof {
            assert(all.skip(i).len() == r0.len());
            assert(all.skip(i)[0] == all[i]);
            assert(rest@ =~= all.skip(i + 1));
            assert(all.take(i + 1).drop_last() =~= all.take(i));
            assert(entry_keys(all.take(i + 1)).drop_last() =~= entry_keys(all.take(i)));
            assert(entry_keys(all.take(i + 1)).last() == dedup_key(e.kind));
        }
        let ghost before = entries@;
        let ghost sv = string_views(seen@);
        let key = entry_key(&e);
        match key {
            Some(k) => {
                if contains_string(&seen, &k) {
                } else {
                    seen.push(k);
                    entries.push(e);
                    assert(string_views(seen@) =~= sv.push(k@));
                }
            },
            None => {
                entries.push(e);
            },
        }
        proof {
            let keep = dedup_boot(entry_keys(all.take(i + 1))).0;
            assert(keep.drop_last() == dedup_boot(entry_keys(all.take(i))).0);
            assert(all.take(i + 1).last() == e);
            i = i + 1;
        }
    }
    proof {
        assert(all.take(i) =~= all);
    }
}

/// One `name = "..."` entry of the module manifest.
pub open spec fn name_value(line: Seq<char>) -> Option<Seq<char>> {
    let eq = first_index(line, '=');
    if eq < 0 {
        None
    } else if trim(line.subrange(0, eq)) == seq!['n', 'a', 'm', 'e'] {
        Some(trim_quotes(trim(line.subrange(eq + 1, line.len() as int))))
    } else {
        None
    }
}

/// `s` without its leading and trailing `"` characters.
pub open spec fn trim_quotes(s: Seq<char>) -> Seq<char>
    decreases s.len(),
{
    if s.len() > 0 && s[0] == '"' {
        trim_quotes(s.drop_first())
    } else if s.len() > 0 && s.last() == '"' {
        trim_quotes(s.drop_last())
    } else {
        s
    }
}

pub open spec fn modules_header() -> Seq<char> {
    seq!['[', 'm', 'o', 'd', 'u', 'l', 'e', 's', '.']
}

/// The manifest state after one line: `[modules.<id>]` opens section `id`;
/// `name = "..."` inside a section adds `(id, name)`; blank lines and `#`
/// comments are skipped.
pub open spec fn manifest_step(
    st: (Option<Seq<char>>, Seq<(Seq<char>, Seq<char>)>),
    raw: Seq<char>,
) -> (Option<Seq<char>>, Seq<(Seq<char>, Seq<char>)>) {
    let line = trim(raw);
    if line.len() == 0 || line[0] == '#' {
        st
    } else if line.len() >= 9 && line.subrange(0, 9) == modules_header() {
        let end = last_index(line, ']');
        if end >= 9 {
            (Some(line.subrange(9, end)), st.1)
        } else {
            st
        }
    } else {
        match st.0 {
            Some(id) => match name_value(line) {
                Some(name) => (st.0, st.1.push((id, name))),
                None => st,
            },
            None => st,
        }
    }
}

pub open spec fn manifest_lines(
    st: (Option<Seq<char>>, Seq<(Seq<char>, Seq<char>)>),
    lines: Seq<Seq<char>>,
) -> (Option<Seq<char>>, Seq<(Seq<char>, Seq<char>)>)
    decreases lines.len(),
{
    if lines.len() == 0 {
        st
    } else {
        manifest_lines(manifest_step(st, lines[0]), lines.drop_first())
    }
}

/// The `(module id, display name)` pairs of a module manifest, in order.
pub open spec fn manifest_modules(content: Seq<char>) -> Seq<(Seq<char>, Seq<char>)> {
    manifest_lines((None, Seq::empty()), split_lines(content)).1
}

fn trim_quotes_range(v: &Vec<char>, lo: usize, hi: usize) -> (r: (usize, usize))
    requires
        lo <= hi <= v@.len(),
    ensures
        lo <= r.0 <= r.1 <= hi,
        v@.subrange(r.0 as int, r.1 as int) == trim_quotes(v@.subrange(lo as int, hi as int)),
{
    let mut a = lo;
    while a < hi && v[a] == '"'
        invariant
            lo <= a <= hi <= v@.len(),
            trim_quotes(v@.subrange(lo as int, hi as int)) == trim_quotes(
                v@.subrange(a as int, hi as int),
            ),
        decreases hi - a,
    {
        assert(v@.subrange(a as int, hi as int).drop_first() == v@.subrange(a + 1, hi as int));
        a += 1;
    }
    let mut b = hi;
    while b > a && v[b - 1] == '"'
        invariant
            lo <= a <= b <= hi <= v@.len(),
            a == hi || v@[a as int] != '"',
            trim_quotes(v@.subrange(lo as int, hi as int)) == trim_quotes(
                v@.subrange(a as int, b as int),
            ),
        decreases b - a,
    {
        let ghost t = v@.subrange(a as int, b as int);
        assert(t.drop_last() == v@.subrange(a as int, b - 1));
        assert(t[0] == v@[a as int]);
        b -= 1;
    }
    proof {
        let t = v@.subrange(a as int, b as int);
        if t.len() > 0 {
            assert(t[0] == v@[a as int]);
            assert(t.last() == v@[b - 1]);
        }
    }
    (a, b)
}

/// Parse the module manifest (`[modules.<id>]` sections with
/// `name = "..."`) into `(module id, display name)` pairs.
#[verifier::rlimit(40)]
pub fn load_module_manifest(content: &str) -> (r: Vec<(String, String)>)
    ensures
        r@.map_values(|p: (String, String)| (p.0@, p.1@)) == manifest_modules(content@),
{
    let cv = chars_of(content);
    let mut modules: Vec<(String, String)> = Vec::new();
    let mut current: Option<String> = None;
    let mut i: usize = 0;
    assert(cv@.subrange(0, cv@.len() as int) == cv@);
    assert(modules@.map_values(|p: (String, String)| (p.0@, p.1@)) =~= Seq::<
        (Seq<char>, Seq<char>),
    >::empty());
    loop
        invariant_except_break
            i <= cv@.len(),
            cv@ == content@,
            manifest_lines((None, Seq::empty()), split_lines(content@)) == manifest_lines(
                (opt_view(current), modules@.map_values(|p: (String, String)| (p.0@, p.1@))),
                split_lines(cv@.subrange(i as int, cv@.len() as int)),
            ),
        ensures
            manifest_lines((None, Seq::empty()), split_lines(content@)).1 == modules@.map_values(
                |p: (String, String)| (p.0@, p.1@),
            ),
        decreases cv@.len() - i,
    {
        let ghost rest = cv@.subrange(i as int, cv@.len() as int);
        proof {
            lemma_first_index(rest, '\n');
        }
        let ghost lines = split_lines(rest);
        let found = find_char(&cv, i, cv.len(), '\n');
        let hi = match found {
            Some(k) => {
                assert(rest.subrange(0, k as int) == cv@.subrange(i as int, i + k));
                assert(rest.subrange(k + 1, rest.len() as int) == cv@.subrange(
                    i + k + 1,
                    cv@.len() as int,
                ));
                assert(lines.drop_first() == split_lines(
                    cv@.subrange(i + k + 1, cv@.len() as int),
                ));
                i + k
            },
            None => {
                assert(lines == seq![rest]);
                assert(lines.drop_first() =~= Seq::<Seq<char>>::empty());
                cv.len()
            },
        };
        assert(lines[0] == cv@.subrange(i as int, hi as int));
        let ghost st0 = (opt_view(current), modules@.map_values(|p: (String, String)| (p.0@, p.1@)));
        let (a, b) = trim_range(&cv, i, hi);
        let ghost line = cv@.subrange(a as int, b as int);
        if b == a || cv[a] == '#' {
            assert(manifest_step(st0, lines[0]) == st0);
        } else if b - a >= 9 && cv[a] == '[' && cv[a + 1] == 'm' && cv[a + 2] == 'o' && cv[a + 3]
            == 'd' && cv[a + 4] == 'u' && cv[a + 5] == 'l' && cv[a + 6] == 'e' && cv[a + 7] == 's'
            && cv[a + 8] == '.' {
            assert(line.subrange(0, 9) =~= modules_header());
            proof {
                lemma_last_index(line, ']');
            }
            match rfind_char(&cv, a, b, ']') {
                Some(end) => {
                    if end >= 9 {
                        current = Some(string_of_range(&cv, a + 9, a + end));
                        assert(line.subrange(9, end as int) =~= cv@.subrange(a + 9, a + end));
                    }
                },
                None => {},
            }
        } else {
            proof {
                if line.len() >= 9 && line.subrange(0, 9) == modules_header() {
                    assert(line.subrange(0, 9)[0] == cv@[a as int]);
                    assert(line.subrange(0, 9)[1] == cv@[a + 1]);
                    assert(line.subrange(0, 9)[2] == cv@[a + 2]);
                    assert(line.subrange(0, 9)[3] == cv@[a + 3]);
                    assert(line.subrange(0, 9)[4] == cv@[a + 4]);
                    assert(line.subrange(0, 9)[5] == cv@[a + 5]);
                    assert(line.subrange(0, 9)[6] == cv@[a + 6]);
                    assert(line.subrange(0, 9)[7] == cv@[a + 7]);
                    assert(line.subrange(0, 9)[8] == cv@[a + 8]);
                }
            }
            match &current {
                Some(id) => {
                    proof {
                        lemma_first_index(line, '=');
                    }
                    match find_char(&cv, a, b, '=') {
                        Some(eq) => {
                            let (ka, kb) = trim_range(&cv, a, a + eq);
                            assert(line.subrange(0, eq as int) =~= cv@.subrange(a as int, a + eq));
                            proof {
                                reveal_strlit("name");
                                assert("name"@ =~= seq!['n', 'a', 'm', 'e']);
                            }
                            if crate::text::range_is(&cv, ka, kb, "name") {
                                let (va, vb) = trim_range(&cv, a + eq + 1, b);
                                assert(line.subrange(eq + 1, line.len() as int) =~= cv@.subrange(
                                    a + eq + 1,
                                    b as int,
                                ));
                                let (qa, qb) = trim_quotes_range(&cv, va, vb);
                                let ghost before = modules@.map_values(
                                    |p: (String, String)| (p.0@, p.1@),
                                );
                                let idc = String::from_str(id.as_str());
                                let name = string_of_range(&cv, qa, qb);
                                let ghost pair = (idc@, name@);
                                modules.push((idc, name));
                                assert(modules@.map_values(|p: (String, String)| (p.0@, p.1@))
                                    =~= before.push(pair));
                            }
                        },
                        None => {},
                    }
                },
                None => {},
            }
        }
        proof {
            let st1 = (opt_view(current), modules@.map_values(|p: (String, String)| (p.0@, p.1@)));
            assert(trim(lines[0]) == line);
            assert(st1 == manifest_step(st0, lines[0]));
        }
        if found.is_none() {
            proof {
                let st1 = (opt_view(current), modules@.map_values(
                    |p: (String, String)| (p.0@, p.1@),
                ));
                assert(manifest_lines(st1, lines.drop_first()) == st1);
            }
            break;
        }
        i = hi + 1;
    }
    modules
}


// ---------------------------------------------------------------------------
// Assembling the menu
// ---------------------------------------------------------------------------

/// `dedup_key` on an entry's view.
pub open spec fn key_of(k: EntryKindView) -> Option<Seq<char>> {
    match k {
        EntryKindView::Chainload(p) => Some(unicode_lowercase(last_segment(p))),
        EntryKindView::Uki(p, _) => Some(unicode_lowercase(last_segment(p))),
        EntryKindView::LinuxLegacy(p, _, _) => Some(unicode_lowercase(last_segment(p))),
        EntryKindView::Iso(_) => None,
    }
}

pub open spec fn view_keys(es: Seq<BootEntryView>) -> Seq<Option<Seq<char>>> {
    es.map_values(|e: BootEntryView| key_of(e.kind))
}

/// `select` on views.
pub open spec fn select_views(es: Seq<BootEntryView>, keep: Seq<bool>) -> Seq<BootEntryView>
    decreases es.len(),
{
    if es.len() == 0 || keep.len() != es.len() {
        Seq::empty()
    } else if keep.last() {
        select_views(es.drop_last(), keep.drop_last()).push(es.last())
    } else {
        select_views(es.drop_last(), keep.drop_last())
    }
}

proof fn lemma_keys_views(es: Seq<BootEntry>)
    ensures
        entry_keys(es) == view_keys(entry_views(es)),
{
    assert forall|i: int| 0 <= i < es.len() implies entry_keys(es)[i] == view_keys(entry_views(es))[i] by {
        let k = es[i].kind;
        match k {
            EntryKind::Chainload { path } => {},
            EntryKind::Uki { path, options } => {},
            EntryKind::LinuxLegacy { kernel_path, initrd_paths, options } => {},
            EntryKind::Iso { source } => {},
        }
    }
    assert(entry_keys(es) =~= view_keys(entry_views(es)));
}

/// No entry carries a preflight result yet.
pub open spec fn unchecked(es: Seq<BootEntry>) -> bool {
    forall|i: int| 0 <= i < es.len() ==> (#[trigger] es[i]).preflight is None
}

/// The ESP-only scanners' entries, if any, carry no preflight result.
pub open spec fn esp_unchecked(esp: Option<(&'static str, Vec<BootEntry>)>) -> bool {
    match esp {
        Some((_, es)) => unchecked(es@),
        None => true,
    }
}

proof fn lemma_select_unchecked(es: Seq<BootEntry>, keep: Seq<bool>)
    requires
        unchecked(es),
    ensures
        unchecked(select(es, keep)),
    decreases es.len(),
{
    if es.len() > 0 && keep.len() == es.len() {
        lemma_select_unchecked(es.drop_last(), keep.drop_last());
        let s0 = select(es.drop_last(), keep.drop_last());
        if keep.last() {
            assert forall|i: int| 0 <= i < s0.push(es.last()).len() implies (#[trigger] s0.push(
                es.last(),
            )[i]).preflight is None by {
                if i < s0.len() {
                    assert(s0.push(es.last())[i] == s0[i]);
                }
            }
        }
    }
}

proof fn lemma_select_views(es: Seq<BootEntry>, keep: Seq<bool>)
    ensures
        entry_views(select(es, keep)) == select_views(entry_views(es), keep),
    decreases es.len(),
{
    if es.len() > 0 && keep.len() == es.len() {
        lemma_select_views(es.drop_last(), keep.drop_last());
        assert(entry_views(es.drop_last()) =~= entry_views(es).drop_last());
        if keep.last() {
            assert(entry_views(select(es.drop_last(), keep.drop_last()).push(es.last()))
                =~= entry_views(select(es.drop_last(), keep.drop_last())).push(es.last()@));
        }
    } else {
        assert(entry_views(select(es, keep)) =~= Seq::<BootEntryView>::empty());
    }
}

/// An ESP scanner's entry, tagged as coming from volume 0 with the ESP's
/// backend tag.
pub open spec fn on_esp(e: BootEntryView, tag: Seq<char>) -> BootEntryView {
    BootEntryView { source_volume_index: 0, source_backend_tag: tag, ..e }
}

/// The boot menu before the final de-duplication: the de-duplicated BLS
/// entries of all volumes (in scan order), then the ESP scanners' entries
/// tagged as ESP entries.
pub open spec fn menu_candidates(bls: Seq<BlsEntryView>, esp: Option<(Seq<char>, Seq<BootEntryView>)>) -> Seq<
    BootEntryView,
> {
    dedup_bls(bls).0.map_values(|e: BlsEntryView| bls_boot_entry(e)) + match esp {
        Some((tag, es)) => es.map_values(|e: BootEntryView| on_esp(e, tag)),
        None => Seq::<BootEntryView>::empty(),
    }
}

/// The boot menu: the candidates, dropping every entry whose file name was
/// already seen on an earlier one.
pub open spec fn menu(bls: Seq<BlsEntryView>, esp: Option<(Seq<char>, Seq<BootEntryView>)>) -> Seq<
    BootEntryView,
> {
    let all = menu_candidates(bls, esp);
    select_views(all, dedup_boot(view_keys(all)).0)
}

/// The ESP's tag and scanner entries as plain values.
pub open spec fn esp_view(esp: Option<(&'static str, Vec<BootEntry>)>) -> Option<(Seq<char>, Seq<BootEntryView>)> {
    match esp {
        Some((tag, es)) => Some((tag@, entry_views(es@))),
        None => None,
    }
}

/// Assembles the boot menu.  `bls` holds the BLS entries scanned on every
/// volume, in volume order; `esp` holds, when there is an ESP, its backend
/// tag and the entries of the ESP-only scanners (Windows, UKIs, kernel
/// directories, other loaders, tools) in that order.  Also returns the
/// same-name BLS conflicts that de-duplication kept (see
/// `dedup_bls_entries`), for the trust log.
pub fn discover_all_entries(bls: Vec<BlsEntry>, esp: Option<(&'static str, Vec<BootEntry>)>) -> (r: (
    Vec<BootEntry>,
    Vec<(usize, usize)>,
))
    ensures
        entry_views(r.0@) == menu(bls_views(bls@), esp_view(esp)),
        r.1@.map_values(|p: (usize, usize)| (p.0 as int, p.1 as int)) == dedup_bls(bls_views(bls@)).1,
        esp_unchecked(esp) ==> unchecked(r.0@),
{
    let ghost esp_unchecked = esp_unchecked(esp);
    let ghost espv = esp_view(esp);
    let (kept, events) = dedup_bls_entries(bls);
    let ghost kv = bls_views(kept@);
    let mut entries: Vec<BootEntry> = Vec::new();
    let mut k: usize = 0;
    while k < kept.len()
        invariant
            k <= kept@.len(),
            kv == bls_views(kept@),
            entry_views(entries@) == kv.subrange(0, k as int).map_values(
                |e: BlsEntryView| bls_boot_entry(e),
            ),
            unchecked(entries@),
        decreases kept@.len() - k,
    {
        let e = to_boot_entry(&kept[k]);
        let ghost before = entries@;
        entries.push(e);
        assert(entry_views(entries@) =~= entry_views(before).push(e@));
        assert(entries@ == before.push(e));
        assert(kv.subrange(0, k + 1).map_values(|e: BlsEntryView| bls_boot_entry(e)) =~= kv.subrange(
            0,
            k as int,
        ).map_values(|e: BlsEntryView| bls_boot_entry(e)).push(bls_boot_entry(kv[k as int])));
        k += 1;
    }
    assert(kv.subrange(0, kv.len() as int) =~= kv);
    let ghost converted = entry_views(entries@);
    match esp {
        Some((tag, found)) => {
            let ghost fv = entry_views(found@);
            let mut rest = found;
            let ghost mut i: int = 0;
            while rest.len() > 0
                invariant
                    esp_unchecked ==> unchecked(rest@) && unchecked(entries@),
                    0 <= i <= fv.len(),
                    entry_views(rest@) == fv.skip(i),
                    entry_views(entries@) == converted + fv.take(i).map_values(
                        |e: BootEntryView| on_esp(e, tag@),
                    ),
                decreases rest@.len(),
            {
                let ghost r0 = entry_views(rest@);
                let ghost old_rest = rest@;
                let mut e = rest.remove(0);
                proof {
                    assert(rest@ == old_rest.remove(0));
                    assert(r0.len() > 0);
                    assert(fv.skip(i)[0] == fv[i]);
                    assert(e@ == r0[0]);
                    assert forall|k: int| 0 <= k < rest@.len() implies entry_views(rest@)[k] == fv.skip(
                        i + 1,
                    )[k] by {
                        assert(rest@[k] == old_rest[k + 1]);
                        assert(r0[k + 1] == fv.skip(i)[k + 1]);
                    }
                    assert(entry_views(rest@) =~= fv.skip(i + 1));
                }
                proof {
                    if esp_unchecked {
                        assert(old_rest[0] == e);
                        assert forall|j: int| 0 <= j < rest@.len() implies (
                        #[trigger] rest@[j]).preflight is None by {
                            assert(rest@[j] == old_rest[j + 1]);
                        }
                    }
                }
                e.source_volume_index = 0;
                e.source_backend_tag = tag;
                let ghost before = entries@;
                entries.push(e);
                proof {
                    assert(entries@ == before.push(e));
                    assert(e@ == on_esp(fv[i], tag@));
                    assert(fv.take(i + 1).map_values(|e: BootEntryView| on_esp(e, tag@)) =~= fv.take(
                        i,
                    ).map_values(|e: BootEntryView| on_esp(e, tag@)).push(on_esp(fv[i], tag@)));
                    assert(entry_views(entries@) =~= entry_views(before).push(e@));
                    i = i + 1;
                }
            }
            assert(fv.take(fv.len() as int) =~= fv);
        },
        None => {
            assert(converted + Seq::<BootEntryView>::empty() =~= converted);
        },
    }
    let ghost all = entries@;
    assert(entry_views(all) == menu_candidates(bls_views(bls@), espv));
    dedup_entries(&mut entries);
    proof {
        if esp_unchecked {
            lemma_select_unchecked(all, dedup_boot(entry_keys(all)).0);
        }
        lemma_keys_views(all);
        lemma_select_views(all, dedup_boot(entry_keys(all)).0);
    }
    (entries, events)
}

} // verus!
