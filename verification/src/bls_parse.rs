//! Boot Loader Specification Type 1 entry parsing and ordering.
use vstd::prelude::*;
use vstd::string::StringSliceAdditionalSpecFns;
use vstd::utf8::encode_utf8;
use vstd::multiset::Multiset;
use core::cmp::Ordering;

use crate::version::{
    flip, lex, lemma_lex_flip, str_order, version_order, version_order_antisymmetric,
    version_order_bytes, Order3,
};
use crate::text::{
    is_alpha, char_is_alpha, string_of,
    lemma_first_index, lemma_last_index,
    char_is_ascii_ws, char_is_digit, chars_of, find_char, push_char, range_ends_with,
    range_is, rfind_char, skip_ws_fwd, string_of_range, trim_range, word_ranges, first_index, is_ascii_ws, is_digit, last_index, trim, trim_start, words,
    is_ws, lemma_chars_all, lemma_trim_after_word, trim_end,
};

verus! {

/// A parsed BLS Type 1 entry.
#[derive(Debug, Clone)]
pub struct BlsEntry {
    /// Entry id: the filename without `.conf` and without the boot-count suffix.
    pub id: String,
    /// Full filename, kept for the boot-counting rename.
    pub filename: String,
    pub title: Option<String>,
    pub version: Option<String>,
    pub machine_id: Option<String>,
    pub sort_key: Option<String>,
    pub linux: Option<String>,
    pub initrd: Vec<String>,
    pub efi: Option<String>,
    pub options: Vec<String>,
    pub architecture: Option<String>,
    pub tries_left: Option<u32>,
    pub tries_done: Option<u32>,
    /// Index of the volume the entry was found on.
    pub source_volume_index: usize,
    /// Backend tag of the volume the entry was found on.
    pub source_backend_tag: &'static str,
}

/// The mathematical content of a [`BlsEntry`].
pub struct BlsEntryView {
    pub id: Seq<char>,
    pub filename: Seq<char>,
    pub title: Option<Seq<char>>,
    pub version: Option<Seq<char>>,
    pub machine_id: Option<Seq<char>>,
    pub sort_key: Option<Seq<char>>,
    pub linux: Option<Seq<char>>,
    pub initrd: Seq<Seq<char>>,
    pub efi: Option<Seq<char>>,
    pub options: Seq<Seq<char>>,
    pub architecture: Option<Seq<char>>,
    pub tries_left: Option<u32>,
    pub tries_done: Option<u32>,
    pub source_volume_index: usize,
    pub source_backend_tag: Seq<char>,
}

pub open spec fn opt_view(o: Option<String>) -> Option<Seq<char>> {
    match o {
        Some(s) => Some(s@),
        None => None,
    }
}

pub open spec fn strings_view(v: Seq<String>) -> Seq<Seq<char>> {
    v.map_values(|s: String| s@)
}

impl View for BlsEntry {
    type V = BlsEntryView;

    open spec fn view(&self) -> BlsEntryView {
        BlsEntryView {
            id: self.id@,
            filename: self.filename@,
            title: opt_view(self.title),
            version: opt_view(self.version),
            machine_id: opt_view(self.machine_id),
            sort_key: opt_view(self.sort_key),
            linux: opt_view(self.linux),
            initrd: strings_view(self.initrd@),
            efi: opt_view(self.efi),
            options: strings_view(self.options@),
            architecture: opt_view(self.architecture),
            tries_left: self.tries_left,
            tries_done: self.tries_done,
            source_volume_index: self.source_volume_index,
            source_backend_tag: self.source_backend_tag@,
        }
    }
}

/// Boot-count state derived from `tries_left`.
#[derive(Debug, Clone, Copy, PartialEq, Eq, Structural)]
pub enum BootCountState {
    /// No counters: the entry is known good.
    Good,
    /// `tries_left > 0`: the entry is being assessed.
    Indeterminate,
    /// `tries_left == 0`: the entry failed assessment.
    Bad,
}

// ---------------------------------------------------------------------------
// Specification of the parser
// ---------------------------------------------------------------------------

pub open spec fn conf_ext() -> Seq<char> {
    seq!['.', 'c', 'o', 'n', 'f']
}

/// `s` with every trailing `.conf` removed (`str::trim_end_matches(".conf")`).
pub open spec fn strip_conf(s: Seq<char>) -> Seq<char>
    decreases s.len(),
{
    if s.len() >= 5 && s.subrange(s.len() - 5, s.len() as int) == conf_ext() {
        strip_conf(s.subrange(0, s.len() - 5))
    } else {
        s
    }
}

/// Decimal value of a string of digits.
pub open spec fn decimal(s: Seq<char>) -> nat
    decreases s.len(),
{
    if s.len() == 0 {
        0
    } else {
        decimal(s.drop_last()) * 10 + ((s.last() as nat) - 48) as nat
    }
}

/// The digits part of an unsigned number: `s` without one leading `+`.
pub open spec fn unsigned_digits(s: Seq<char>) -> Seq<char> {
    if s.len() > 0 && s[0] == '+' {
        s.drop_first()
    } else {
        s
    }
}

/// Every character is an ASCII digit.
pub open spec fn all_digits(d: Seq<char>) -> bool {
    forall|k: int| 0 <= k < d.len() ==> is_digit(#[trigger] d[k])
}

/// `str::parse::<u32>`: an optional `+`, then at least one ASCII digit, with
/// the value at most `u32::MAX`.
pub open spec fn parse_u32(s: Seq<char>) -> Option<u32> {
    let d = unsigned_digits(s);
    if d.len() > 0 && all_digits(d) && decimal(d) <= u32::MAX {
        Some(decimal(d) as u32)
    } else {
        None
    }
}

/// The filename without `.conf` suffixes.
pub open spec fn name_part(filename: Seq<char>) -> Seq<char> {
    strip_conf(filename)
}

/// Entry id: the name part before its last `+`, or the whole name part.
pub open spec fn entry_id(filename: Seq<char>) -> Seq<char> {
    let n = name_part(filename);
    let p = last_index(n, '+');
    if p >= 0 {
        n.subrange(0, p)
    } else {
        n
    }
}

/// `(tries_left, tries_done)` from the `+LEFT[-DONE]` filename suffix.
pub open spec fn boot_counters(filename: Seq<char>) -> (Option<u32>, Option<u32>) {
    let n = name_part(filename);
    let p = last_index(n, '+');
    if p < 0 {
        (None, None)
    } else {
        let c = n.subrange(p + 1, n.len() as int);
        let d = first_index(c, '-');
        if d >= 0 {
            (parse_u32(c.subrange(0, d)), parse_u32(c.subrange(d + 1, c.len() as int)))
        } else {
            (parse_u32(c), Some(0u32))
        }
    }
}

/// Forward slashes turned into backslashes, with a leading backslash ensured.
pub open spec fn efi_path(s: Seq<char>) -> Seq<char> {
    let r = s.map_values(|c: char| if c == '/' { '\\' } else { c });
    if r.len() > 0 && r[0] == '\\' {
        r
    } else {
        seq!['\\'] + r
    }
}

/// The lines of `s`, split at `'\n'` (a trailing empty piece is included;
/// the parser skips empty lines).
pub open spec fn split_lines(s: Seq<char>) -> Seq<Seq<char>>
    decreases s.len(),
{
    let i = first_index(s, '\n');
    if 0 <= i < s.len() {
        seq![s.subrange(0, i)] + split_lines(s.subrange(i + 1, s.len() as int))
    } else {
        seq![s]
    }
}

/// Index of the first ASCII whitespace character, or `-1`.
pub open spec fn first_ascii_ws(s: Seq<char>) -> int
    decreases s.len(),
{
    if s.len() == 0 {
        -1
    } else if is_ascii_ws(s[0]) {
        0
    } else if first_ascii_ws(s.drop_first()) < 0 {
        -1
    } else {
        first_ascii_ws(s.drop_first()) + 1
    }
}

proof fn lemma_first_ascii_ws(s: Seq<char>)
    ensures
        -1 <= first_ascii_ws(s) < s.len(),
        first_ascii_ws(s) >= 0 ==> is_ascii_ws(s[first_ascii_ws(s)]),
    decreases s.len(),
{
    if s.len() > 0 && !is_ascii_ws(s[0]) {
        lemma_first_ascii_ws(s.drop_first());
        if first_ascii_ws(s) >= 0 {
            assert(s[first_ascii_ws(s)] == s.drop_first()[first_ascii_ws(s.drop_first())]);
        }
    }
}

/// A word without ASCII whitespace followed by text that starts with ASCII
/// whitespace: the first ASCII whitespace is right after the word.
proof fn lemma_first_ascii_ws_after(p: Seq<char>, s: Seq<char>)
    requires
        forall|j: int| 0 <= j < p.len() ==> !is_ascii_ws(#[trigger] p[j]),
        s.len() > 0,
        is_ascii_ws(s[0]),
    ensures
        first_ascii_ws(p + s) == p.len(),
    decreases p.len(),
{
    if p.len() == 0 {
        assert(p + s == s);
    } else {
        assert((p + s)[0] == p[0]);
        assert((p + s).drop_first() == p.drop_first() + s);
        assert forall|j: int| 0 <= j < p.drop_first().len() implies !is_ascii_ws(
            #[trigger] p.drop_first()[j],
        ) by {
            assert(p.drop_first()[j] == p[j + 1]);
        }
        lemma_first_ascii_ws_after(p.drop_first(), s);
    }
}

/// The entry before any field line is applied.
pub open spec fn empty_entry(filename: Seq<char>) -> BlsEntryView {
    BlsEntryView {
        id: entry_id(filename),
        filename: filename,
        title: None,
        version: None,
        machine_id: None,
        sort_key: None,
        linux: None,
        initrd: Seq::empty(),
        efi: None,
        options: Seq::empty(),
        architecture: None,
        tries_left: boot_counters(filename).0,
        tries_done: boot_counters(filename).1,
        source_volume_index: 0,
        source_backend_tag: Seq::empty(),
    }
}

/// Effect of one `key value` pair; unknown keys are ignored.
pub open spec fn apply_field(e: BlsEntryView, key: Seq<char>, value: Seq<char>) -> BlsEntryView {
    if key == "title"@ {
        BlsEntryView { title: Some(value), ..e }
    } else if key == "version"@ {
        BlsEntryView { version: Some(value), ..e }
    } else if key == "machine-id"@ {
        BlsEntryView { machine_id: Some(value), ..e }
    } else if key == "sort-key"@ {
        BlsEntryView { sort_key: Some(value), ..e }
    } else if key == "linux"@ {
        BlsEntryView { linux: Some(efi_path(value)), ..e }
    } else if key == "efi"@ {
        BlsEntryView { efi: Some(efi_path(value)), ..e }
    } else if key == "initrd"@ {
        BlsEntryView { initrd: e.initrd + words(value).map_values(|w: Seq<char>| efi_path(w)), ..e }
    } else if key == "options"@ {
        BlsEntryView { options: e.options.push(value), ..e }
    } else if key == "architecture"@ {
        BlsEntryView { architecture: Some(value), ..e }
    } else {
        e
    }
}

/// Effect of one raw line: trimmed, blank and `#` lines skipped, split at
/// the first ASCII whitespace into key and (left-trimmed) value.
pub open spec fn apply_line(e: BlsEntryView, raw: Seq<char>) -> BlsEntryView {
    let line = trim(raw);
    if line.len() == 0 || line[0] == '#' {
        e
    } else {
        let pos = first_ascii_ws(line);
        if pos < 0 {
            e
        } else {
            apply_field(e, line.subrange(0, pos), trim_start(line.subrange(pos, line.len() as int)))
        }
    }
}

pub open spec fn apply_lines(e: BlsEntryView, lines: Seq<Seq<char>>) -> BlsEntryView
    decreases lines.len(),
{
    if lines.len() == 0 {
        e
    } else {
        apply_lines(apply_line(e, lines[0]), lines.drop_first())
    }
}

/// The entry a `.conf` file describes, before validation.
pub open spec fn parsed_entry(filename: Seq<char>, content: Seq<char>) -> BlsEntryView {
    apply_lines(empty_entry(filename), split_lines(content))
}

/// What `BlsEntry::parse` returns: the parsed entry when it names a `linux`
/// or an `efi` image, else nothing.
pub open spec fn parse_result(filename: Seq<char>, content: Seq<char>) -> Option<BlsEntryView> {
    let e = parsed_entry(filename, content);
    if e.linux is Some || e.efi is Some {
        Some(e)
    } else {
        None
    }
}


// ---------------------------------------------------------------------------
// Executable parser
// ---------------------------------------------------------------------------

/// End of `v[lo..hi]` once every trailing `.conf` is removed.
fn strip_conf_range(v: &[char], lo: usize, hi: usize) -> (r: usize)
    requires
        lo <= hi <= v@.len(),
    ensures
        lo <= r <= hi,
        strip_conf(v@.subrange(lo as int, hi as int)) == v@.subrange(lo as int, r as int),
{
    proof {
        reveal_strlit(".conf");
    }
    let mut j = hi;
    while range_ends_with(v, lo, j, ".conf")
        invariant
            lo <= j <= hi <= v@.len(),
            strip_conf(v@.subrange(lo as int, hi as int)) == strip_conf(
                v@.subrange(lo as int, j as int),
            ),
            ".conf"@ == conf_ext(),
        decreases j,
    {
        let ghost s = v@.subrange(lo as int, j as int);
        assert(s.subrange(s.len() - 5, s.len() as int) == v@.subrange(j - 5, j as int));
        assert(s.subrange(0, s.len() - 5) == v@.subrange(lo as int, j - 5));
        j -= 5;
    }
    let ghost s = v@.subrange(lo as int, j as int);
    assert(s.len() >= 5 ==> s.subrange(s.len() - 5, s.len() as int) == v@.subrange(
        j - 5,
        j as int,
    ));
    j
}

/// `str::parse::<u32>` of `v[lo..hi]`.
fn parse_u32_range(v: &[char], lo: usize, hi: usize) -> (r: Option<u32>)
    requires
        lo <= hi <= v@.len(),
    ensures
        r == parse_u32(v@.subrange(lo as int, hi as int)),
{
    let ghost s = v@.subrange(lo as int, hi as int);
    let start = if lo < hi && v[lo] == '+' {
        lo + 1
    } else {
        lo
    };
    let ghost d = v@.subrange(start as int, hi as int);
    assert(d == unsigned_digits(s));
    if start == hi {
        return None;
    }
    let cap: u64 = 0x1_0000_0000;
    let mut acc: u64 = 0;
    let mut i = start;
    while i < hi
        invariant
            start <= i <= hi <= v@.len(),
            d == v@.subrange(start as int, hi as int),
            s == v@.subrange(lo as int, hi as int),
            d == unsigned_digits(s),
            cap == 0x1_0000_0000u64,
            forall|k: int| start <= k < i ==> is_digit(#[trigger] v@[k]),
            acc == (if decimal(v@.subrange(start as int, i as int)) < cap {
                decimal(v@.subrange(start as int, i as int))
            } else {
                cap as nat
            }),
        decreases hi - i,
    {
        let c = v[i];
        if !char_is_digit(c) {
            assert(d[i - start] == c);
            assert(!is_digit(d[i - start]));
            assert(!all_digits(d));
            return None;
        }
        let ghost pre = v@.subrange(start as int, i as int);
        assert(v@.subrange(start as int, i + 1).drop_last() == pre);
        assert(decimal(v@.subrange(start as int, i + 1)) == decimal(pre) * 10 + ((c as nat) - 48) as nat);
        let dv: u64 = (c as u32 - 48) as u64;
        if acc >= cap {
            acc = cap;
        } else {
            let n = acc * 10 + dv;
            acc = if n >= cap {
                cap
            } else {
                n
            };
        }
        i += 1;
    }
    assert(v@.subrange(start as int, hi as int) == d);
    assert(all_digits(d));
    if acc >= cap {
        None
    } else {
        Some(acc as u32)
    }
}

/// `efi_path` of `v[lo..hi]`.
fn efi_path_of_range(v: &[char], lo: usize, hi: usize) -> (r: String)
    requires
        lo <= hi <= v@.len(),
    ensures
        r@ == efi_path(v@.subrange(lo as int, hi as int)),
{
    let ghost s = v@.subrange(lo as int, hi as int);
    let ghost m = s.map_values(|c: char| if c == '/' { '\\' } else { c });
    let mut out = String::new();
    let lead = lo < hi && (v[lo] == '/' || v[lo] == '\\');
    if !lead {
        push_char(&mut out, '\\');
    }
    let ghost prefix = out@;
    let mut i = lo;
    while i < hi
        invariant
            lo <= i <= hi <= v@.len(),
            s == v@.subrange(lo as int, hi as int),
            m == s.map_values(|c: char| if c == '/' { '\\' } else { c }),
            out@ == prefix + m.subrange(0, i - lo),
        decreases hi - i,
    {
        let c = v[i];
        let t = if c == '/' {
            '\\'
        } else {
            c
        };
        push_char(&mut out, t);
        assert(m.subrange(0, i + 1 - lo) == m.subrange(0, i - lo).push(t));
        i += 1;
    }
    assert(m.subrange(0, hi - lo) == m);
    out
}

/// First ASCII whitespace in `v[lo..hi]`, as an offset from `lo`.
fn find_ascii_ws(v: &[char], lo: usize, hi: usize) -> (r: Option<usize>)
    requires
        lo <= hi <= v@.len(),
    ensures
        match r {
            Some(k) => first_ascii_ws(v@.subrange(lo as int, hi as int)) == k as int,
            None => first_ascii_ws(v@.subrange(lo as int, hi as int)) == -1,
        },
{
    let mut i = hi;
    let mut found: Option<usize> = None;
    while i > lo
        invariant
            lo <= i <= hi <= v@.len(),
            match found {
                Some(k) => first_ascii_ws(v@.subrange(i as int, hi as int)) == k as int - (i - lo)
                    && k >= i - lo,
                None => first_ascii_ws(v@.subrange(i as int, hi as int)) == -1,
            },
        decreases i,
    {
        i -= 1;
        let ghost s = v@.subrange(i as int, hi as int);
        assert(s.drop_first() == v@.subrange(i + 1, hi as int));
        if char_is_ascii_ws(v[i]) {
            found = Some(i - lo);
        }
    }
    found
}


/// Applies one raw line `v[lo..hi]` to `e`.
fn apply_line_range(e: &mut BlsEntry, v: &[char], lo: usize, hi: usize)
    requires
        lo <= hi <= v@.len(),
    ensures
        final(e)@ == apply_line(old(e)@, v@.subrange(lo as int, hi as int)),
{
    let (a, b) = trim_range(v, lo, hi);
    let ghost line = v@.subrange(a as int, b as int);
    if a == b || v[a] == '#' {
        return;
    }
    proof {
        lemma_first_ascii_ws(line);
    }
    let pos = match find_ascii_ws(v, a, b) {
        Some(p) => p,
        None => {
            return;
        },
    };
    let kend = a + pos;
    let vs = skip_ws_fwd(v, kend, b);
    let ghost key = v@.subrange(a as int, kend as int);
    let ghost value = v@.subrange(vs as int, b as int);
    assert(line.subrange(0, pos as int) == key);
    assert(line.subrange(pos as int, line.len() as int) == v@.subrange(kend as int, b as int));
    if range_is(v, a, kend, "title") {
        e.title = Some(string_of_range(v, vs, b));
    } else if range_is(v, a, kend, "version") {
        e.version = Some(string_of_range(v, vs, b));
    } else if range_is(v, a, kend, "machine-id") {
        e.machine_id = Some(string_of_range(v, vs, b));
    } else if range_is(v, a, kend, "sort-key") {
        e.sort_key = Some(string_of_range(v, vs, b));
    } else if range_is(v, a, kend, "linux") {
        e.linux = Some(efi_path_of_range(v, vs, b));
    } else if range_is(v, a, kend, "efi") {
        e.efi = Some(efi_path_of_range(v, vs, b));
    } else if range_is(v, a, kend, "initrd") {
        let ws = word_ranges(v, vs, b);
        let ghost ws_spec = words(value);
        let ghost base = strings_view(e.initrd@);
        let mut k: usize = 0;
        while k < ws.len()
            invariant
                k <= ws@.len(),
                ws@.len() == ws_spec.len(),
                ws_spec == words(value),
                value == v@.subrange(vs as int, b as int),
                vs <= b <= v@.len(),
                forall|m: int|
                    0 <= m < ws@.len() ==> vs <= (#[trigger] ws@[m]).0 <= ws@[m].1 <= b
                        && v@.subrange(ws@[m].0 as int, ws@[m].1 as int) == ws_spec[m],
                strings_view(e.initrd@) == base + ws_spec.subrange(0, k as int).map_values(
                    |w: Seq<char>| efi_path(w),
                ),
                e.title == old(e).title,
                e.version == old(e).version,
                e.machine_id == old(e).machine_id,
                e.sort_key == old(e).sort_key,
                e.linux == old(e).linux,
                e.efi == old(e).efi,
                e.options == old(e).options,
                e.architecture == old(e).architecture,
                e.id == old(e).id,
                e.filename == old(e).filename,
                e.tries_left == old(e).tries_left,
                e.tries_done == old(e).tries_done,
                e.source_volume_index == old(e).source_volume_index,
                e.source_backend_tag == old(e).source_backend_tag,
                base == strings_view(old(e).initrd@),
            decreases ws@.len() - k,
        {
            let (wa, wb) = ws[k];
            let p = efi_path_of_range(v, wa, wb);
            let ghost before = e.initrd@;
            e.initrd.push(p);
            proof {
                assert(strings_view(e.initrd@) == strings_view(before).push(p@));
                assert(ws_spec.subrange(0, k + 1).map_values(|w: Seq<char>| efi_path(w))
                    == ws_spec.subrange(0, k as int).map_values(|w: Seq<char>| efi_path(w)).push(
                    efi_path(ws_spec[k as int]),
                ));
            }
            k += 1;
        }
        assert(ws_spec.subrange(0, ws_spec.len() as int) == ws_spec);
    } else if range_is(v, a, kend, "options") {
        let s = string_of_range(v, vs, b);
        let ghost before = e.options@;
        e.options.push(s);
        assert(strings_view(e.options@) == strings_view(before).push(s@));
    } else if range_is(v, a, kend, "architecture") {
        e.architecture = Some(string_of_range(v, vs, b));
    }
}

/// Id and boot counters from a `.conf` filename.
fn parse_filename(filename: &str) -> (r: (String, Option<u32>, Option<u32>))
    ensures
        r.0@ == entry_id(filename@),
        (r.1, r.2) == boot_counters(filename@),
{
    let fv = chars_of(filename);
    let nend = strip_conf_range(&fv, 0, fv.len());
    let ghost n = fv@.subrange(0, nend as int);
    assert(fv@.subrange(0, fv@.len() as int) == fv@);
    assert(name_part(filename@) == n);
    proof {
        lemma_last_index(n, '+');
    }
    match rfind_char(&fv, 0, nend, '+') {
        Some(p) => {
            let ghost c = n.subrange(p + 1, n.len() as int);
            assert(c == fv@.subrange(p + 1, nend as int));
            proof {
                lemma_first_index(c, '-');
            }
            let (tl, td) = match find_char(&fv, p + 1, nend, '-') {
                Some(d) => {
                    assert(c.subrange(0, d as int) == fv@.subrange(p + 1, p + 1 + d));
                    assert(c.subrange(d + 1, c.len() as int) == fv@.subrange(
                        p + 1 + d + 1,
                        nend as int,
                    ));
                    (
                        parse_u32_range(&fv, p + 1, p + 1 + d),
                        parse_u32_range(&fv, p + 1 + d + 1, nend),
                    )
                },
                None => (parse_u32_range(&fv, p + 1, nend), Some(0u32)),
            };
            assert(n.subrange(0, p as int) == fv@.subrange(0, p as int));
            (string_of_range(&fv, 0, p), tl, td)
        },
        None => (string_of_range(&fv, 0, nend), None, None),
    }
}

/// Applies every line of `content` to `entry`.
fn apply_content(entry: &mut BlsEntry, content: &str)
    ensures
        final(entry)@ == apply_lines(old(entry)@, split_lines(content@)),
{
    let cv = chars_of(content);
    let mut i: usize = 0;
    assert(cv@.subrange(0, cv@.len() as int) == cv@);
    loop
        invariant_except_break
            i <= cv@.len(),
            cv@ == content@,
            apply_lines(old(entry)@, split_lines(content@)) == apply_lines(
                entry@,
                split_lines(cv@.subrange(i as int, cv@.len() as int)),
            ),
        ensures
            apply_lines(old(entry)@, split_lines(content@)) == entry@,
        decreases cv@.len() - i,
    {
        let ghost rest = cv@.subrange(i as int, cv@.len() as int);
        proof {
            lemma_first_index(rest, '\n');
        }
        match find_char(&cv, i, cv.len(), '\n') {
            Some(k) => {
                let ghost lines = split_lines(rest);
                assert(rest.subrange(0, k as int) == cv@.subrange(i as int, i + k));
                assert(rest.subrange(k + 1, rest.len() as int) == cv@.subrange(
                    i + k + 1,
                    cv@.len() as int,
                ));
                assert(lines[0] == cv@.subrange(i as int, i + k));
                assert(lines.drop_first() == split_lines(
                    cv@.subrange(i + k + 1, cv@.len() as int),
                ));
                apply_line_range(entry, &cv, i, i + k);
                i = i + k + 1;
            },
            None => {
                let ghost lines = split_lines(rest);
                assert(lines == seq![rest]);
                assert(lines.drop_first() =~= Seq::<Seq<char>>::empty());
                let ghost before = entry@;
                apply_line_range(entry, &cv, i, cv.len());
                assert(apply_lines(before, lines) == apply_lines(entry@, lines.drop_first()));
                break ;
            },
        }
    }
}

impl BlsEntry {
    /// Parse a BLS entry from a `.conf` filename and its contents.
    ///
    /// The filename may carry the boot-counting suffix
    /// `<id>+<tries_left>[-<tries_done>].conf`. Each content line is trimmed;
    /// blank lines and `#` comments are skipped; a line is split at its first
    /// ASCII whitespace into key and value. Unknown keys are ignored. Returns
    /// `None` when neither `linux` nor `efi` is set.
    pub fn parse(filename: &str, content: &str) -> (r: Option<BlsEntry>)
        ensures
            match r {
                Some(e) => parse_result(filename@, content@) == Some(e@),
                None => parse_result(filename@, content@) is None,
            },
    {
        let (id, tries_left, tries_done) = parse_filename(filename);
        let mut entry = BlsEntry {
            id: id,
            filename: String::from_str(filename),
            title: None,
            version: None,
            machine_id: None,
            sort_key: None,
            linux: None,
            initrd: Vec::new(),
            efi: None,
            options: Vec::new(),
            architecture: None,
            tries_left: tries_left,
            tries_done: tries_done,
            source_volume_index: 0,
            source_backend_tag: "",
        };
        proof {
            reveal_strlit("");
            assert(strings_view(entry.initrd@) =~= Seq::<Seq<char>>::empty());
            assert(strings_view(entry.options@) =~= Seq::<Seq<char>>::empty());
            assert(entry.source_backend_tag@ =~= Seq::<char>::empty());
            assert(entry@ == empty_entry(filename@));
        }
        apply_content(&mut entry, content);
        if entry.linux.is_none() && entry.efi.is_none() {
            return None;
        }
        Some(entry)
    }
}


// ---------------------------------------------------------------------------
// What a key line does
// ---------------------------------------------------------------------------

/// The line `key`, one separator character, then `value`.
pub open spec fn key_line(key: Seq<char>, sep: char, value: Seq<char>) -> Seq<char> {
    key + seq![sep] + value
}

/// Whether the trimmed `raw` begins with `key` followed by ASCII whitespace.
pub open spec fn starts_key(raw: Seq<char>, key: Seq<char>) -> bool {
    let line = trim(raw);
    key.len() < line.len() && line.subrange(0, key.len() as int) == key && is_ascii_ws(
        line[key.len() as int],
    )
}

/// The keys an entry file gives meaning to.
pub open spec fn is_entry_key(k: Seq<char>) -> bool {
    k == "title"@ || k == "version"@ || k == "machine-id"@ || k == "sort-key"@ || k == "linux"@
        || k == "efi"@ || k == "initrd"@ || k == "options"@ || k == "architecture"@
}

proof fn lemma_entry_key_word(k: Seq<char>)
    requires
        is_entry_key(k),
    ensures
        k.len() > 0,
        k[0] != '#',
        forall|j: int| 0 <= j < k.len() ==> !is_ws(#[trigger] k[j]),
{
    reveal_strlit("title");
    reveal_strlit("version");
    reveal_strlit("machine-id");
    reveal_strlit("sort-key");
    reveal_strlit("linux");
    reveal_strlit("efi");
    reveal_strlit("initrd");
    reveal_strlit("options");
    reveal_strlit("architecture");
    lemma_chars_all(k, |c: char| !is_ws(c));
}

/// A line made of one of the entry keys, one ASCII whitespace character
/// and a value with no whitespace at either end sets that key's field from
/// the value and leaves everything else as it was: `title`, `version`,
/// `machine-id`, `sort-key` and `architecture` take the value itself,
/// `linux` and `efi` take it as an EFI path, `initrd` appends each of its
/// words as an EFI path, and `options` appends the value.
pub proof fn bls_key_line_sets_field(e: BlsEntryView, key: Seq<char>, sep: char, value: Seq<char>)
    requires
        is_ascii_ws(sep),
        value.len() > 0,
        !is_ws(value[0]),
        !is_ws(value.last()),
    ensures
        ({
            let r = apply_line(e, key_line(key, sep, value));
            &&& key == "title"@ ==> r == (BlsEntryView { title: Some(value), ..e })
            &&& key == "version"@ ==> r == (BlsEntryView { version: Some(value), ..e })
            &&& key == "machine-id"@ ==> r == (BlsEntryView { machine_id: Some(value), ..e })
            &&& key == "sort-key"@ ==> r == (BlsEntryView { sort_key: Some(value), ..e })
            &&& key == "linux"@ ==> r == (BlsEntryView { linux: Some(efi_path(value)), ..e })
            &&& key == "efi"@ ==> r == (BlsEntryView { efi: Some(efi_path(value)), ..e })
            &&& key == "initrd"@ ==> r == (BlsEntryView {
                initrd: e.initrd + words(value).map_values(|w: Seq<char>| efi_path(w)),
                ..e
            })
            &&& key == "options"@ ==> r == (BlsEntryView { options: e.options.push(value), ..e })
            &&& key == "architecture"@ ==> r == (BlsEntryView {
                architecture: Some(value),
                ..e
            })
        }),
{
    reveal_strlit("title");
    reveal_strlit("version");
    reveal_strlit("machine-id");
    reveal_strlit("sort-key");
    reveal_strlit("linux");
    reveal_strlit("efi");
    reveal_strlit("initrd");
    reveal_strlit("options");
    reveal_strlit("architecture");
    if is_entry_key(key) {
        lemma_entry_key_word(key);
        let rest = seq![sep] + value;
        assert(key_line(key, sep, value) == key + rest);
        lemma_trim_after_word(key, rest);
        assert(rest.last() == value.last());
        assert(trim_end(rest) == rest);
        let line = key + rest;
        assert(trim(key_line(key, sep, value)) == line);
        assert(line[0] == key[0]);
        lemma_first_ascii_ws_after(key, rest);
        assert(line.subrange(0, key.len() as int) == key);
        assert(line.subrange(key.len() as int, line.len() as int) == rest);
        assert(rest.drop_first() == value);
        assert(trim_start(rest) == trim_start(value));
        assert(trim_start(value) == value);
        assert(apply_line(e, key_line(key, sep, value)) == apply_field(e, key, value));
    }
}

/// A line that does not begin with `machine-id` and whitespace leaves the
/// machine id as it was.
proof fn lemma_other_line_keeps_machine_id(e: BlsEntryView, raw: Seq<char>)
    requires
        !starts_key(raw, "machine-id"@),
    ensures
        apply_line(e, raw).machine_id == e.machine_id,
{
    reveal_strlit("machine-id");
    let line = trim(raw);
    lemma_first_ascii_ws(line);
    let pos = first_ascii_ws(line);
    if line.len() > 0 && line[0] != '#' && pos >= 0 {
        if line.subrange(0, pos) == "machine-id"@ {
            assert(pos == 10);
            assert(starts_key(raw, "machine-id"@));
        }
    }
}

proof fn lemma_lines_keep_machine_id(e: BlsEntryView, lines: Seq<Seq<char>>)
    requires
        forall|j: int| 0 <= j < lines.len() ==> !starts_key(#[trigger] lines[j], "machine-id"@),
    ensures
        apply_lines(e, lines).machine_id == e.machine_id,
    decreases lines.len(),
{
    if lines.len() > 0 {
        lemma_other_line_keeps_machine_id(e, lines[0]);
        assert forall|j: int| 0 <= j < lines.drop_first().len() implies !starts_key(
            #[trigger] lines.drop_first()[j],
            "machine-id"@,
        ) by {
            assert(lines.drop_first()[j] == lines[j + 1]);
        }
        lemma_lines_keep_machine_id(apply_line(e, lines[0]), lines.drop_first());
    }
}

proof fn lemma_lines_machine_id(
    e: BlsEntryView,
    lines: Seq<Seq<char>>,
    i: int,
    sep: char,
    value: Seq<char>,
)
    requires
        0 <= i < lines.len(),
        lines[i] == key_line("machine-id"@, sep, value),
        is_ascii_ws(sep),
        value.len() > 0,
        !is_ws(value[0]),
        !is_ws(value.last()),
        forall|j: int| i < j < lines.len() ==> !starts_key(#[trigger] lines[j], "machine-id"@),
    ensures
        apply_lines(e, lines).machine_id == Some(value),
    decreases lines.len(),
{
    if i == 0 {
        bls_key_line_sets_field(e, "machine-id"@, sep, value);
        assert forall|j: int| 0 <= j < lines.drop_first().len() implies !starts_key(
            #[trigger] lines.drop_first()[j],
            "machine-id"@,
        ) by {
            assert(lines.drop_first()[j] == lines[j + 1]);
        }
        lemma_lines_keep_machine_id(apply_line(e, lines[0]), lines.drop_first());
    } else {
        assert forall|j: int| i - 1 < j < lines.drop_first().len() implies !starts_key(
            #[trigger] lines.drop_first()[j],
            "machine-id"@,
        ) by {
            assert(lines.drop_first()[j] == lines[j + 1]);
        }
        lemma_lines_machine_id(apply_line(e, lines[0]), lines.drop_first(), i - 1, sep, value);
    }
}

/// An entry file with a line `machine-id V` (the key, one ASCII whitespace
/// character, a value with no whitespace at either end) and no later
/// `machine-id` line has machine id `V`, whatever else it holds.
pub proof fn bls_machine_id_line_read(
    filename: Seq<char>,
    content: Seq<char>,
    i: int,
    sep: char,
    value: Seq<char>,
)
    requires
        0 <= i < split_lines(content).len(),
        split_lines(content)[i] == key_line("machine-id"@, sep, value),
        is_ascii_ws(sep),
        value.len() > 0,
        !is_ws(value[0]),
        !is_ws(value.last()),
        forall|j: int|
            i < j < split_lines(content).len() ==> !starts_key(
                #[trigger] split_lines(content)[j],
                "machine-id"@,
            ),
    ensures
        parsed_entry(filename, content).machine_id == Some(value),
        parse_result(filename, content) matches Some(x) ==> x.machine_id == Some(value),
{
    lemma_lines_machine_id(empty_entry(filename), split_lines(content), i, sep, value);
}

// ---------------------------------------------------------------------------
// Accessors
// ---------------------------------------------------------------------------

/// The boot-count state a `tries_left` value denotes.
pub open spec fn count_state(tries_left: Option<u32>) -> BootCountState {
    match tries_left {
        None => BootCountState::Good,
        Some(n) => if n == 0 {
            BootCountState::Bad
        } else {
            BootCountState::Indeterminate
        },
    }
}

/// `parts` joined with single spaces.
pub open spec fn join_spaces(parts: Seq<Seq<char>>) -> Seq<char>
    decreases parts.len(),
{
    if parts.len() == 0 {
        Seq::empty()
    } else if parts.len() == 1 {
        parts[0]
    } else {
        join_spaces(parts.drop_last()) + seq![' '] + parts.last()
    }
}

/// A token that is a GRUB `$variable`.
pub open spec fn is_grub_var(w: Seq<char>) -> bool {
    w.len() > 0 && w[0] == '$'
}

/// The tokens of `ws` that are not GRUB variables, in order.
pub open spec fn non_var_words(ws: Seq<Seq<char>>) -> Seq<Seq<char>>
    decreases ws.len(),
{
    if ws.len() == 0 {
        ws
    } else if is_grub_var(ws.last()) {
        non_var_words(ws.drop_last())
    } else {
        non_var_words(ws.drop_last()).push(ws.last())
    }
}

/// The words of `s` that are not GRUB variables, joined with single spaces.
pub open spec fn without_grub_vars(s: Seq<char>) -> Seq<char> {
    join_spaces(non_var_words(words(s)))
}

/// An initrd path that is (a path-normalized form of) a GRUB variable:
/// it starts with `$`, `\$` or `/$`.
pub open spec fn is_var_path(p: Seq<char>) -> bool {
    (p.len() > 0 && p[0] == '$') || (p.len() > 1 && (p[0] == '\\' || p[0] == '/') && p[1] == '$')
}

/// The paths of `ps` that are not GRUB variables, in order.
pub open spec fn non_var_paths(ps: Seq<Seq<char>>) -> Seq<Seq<char>>
    decreases ps.len(),
{
    if ps.len() == 0 {
        ps
    } else if is_var_path(ps.last()) {
        non_var_paths(ps.drop_last())
    } else {
        non_var_paths(ps.drop_last()).push(ps.last())
    }
}

/// Appends `src` to `out`.
fn append_chars(out: &mut Vec<char>, src: &Vec<char>)
    ensures
        final(out)@ == old(out)@ + src@,
{
    let mut i: usize = 0;
    while i < src.len()
        invariant
            i <= src@.len(),
            out@ == old(out)@ + src@.subrange(0, i as int),
        decreases src@.len() - i,
    {
        out.push(src[i]);
        assert(src@.subrange(0, i + 1) == src@.subrange(0, i as int).push(src@[i as int]));
        i += 1;
    }
    assert(src@.subrange(0, src@.len() as int) == src@);
}

/// `without_grub_vars` of `v`.
fn strip_grub_variables(v: &Vec<char>) -> (r: String)
    ensures
        r@ == without_grub_vars(v@),
{
    let ws = word_ranges(v, 0, v.len());
    assert(v@.subrange(0, v@.len() as int) == v@);
    let ghost all = words(v@);
        let mut out: Vec<char> = Vec::new();
    let mut any = false;
    let mut k: usize = 0;
    while k < ws.len()
        invariant
            k <= ws@.len(),
            ws@.len() == all.len(),
            all == words(v@),
            forall|m: int|
                0 <= m < ws@.len() ==> 0 <= (#[trigger] ws@[m]).0 <= ws@[m].1 <= v@.len()
                    && v@.subrange(ws@[m].0 as int, ws@[m].1 as int) == all[m],
            out@ == join_spaces(non_var_words(all.take(k as int))),
            any == (non_var_words(all.take(k as int)).len() > 0),
        decreases ws@.len() - k,
    {
        let (a, b) = ws[k];
        let ghost w = all[k as int];
        proof {
                        assert(all.take(k + 1).drop_last() == all.take(k as int));
            assert(all.take(k + 1).last() == w);
        }
        let is_var = a < b && v[a] == '$';
        if !is_var {
            let ghost before = non_var_words(all.take(k as int));
            if any {
                out.push(' ');
            }
            let piece = string_of_range(v, a, b);
            let pv = chars_of(piece.as_str());
            append_chars(&mut out, &pv);
            proof {
                let after = before.push(w);
                assert(after.drop_last() == before);
                assert(non_var_words(all.take(k + 1)) == after);
                if !any {
                    assert(before.len() == 0);
                    assert(out@ =~= w);
                }
            }
            any = true;
        }
        k += 1;
    }
    assert(all.take(all.len() as int) == all);
    string_of(&out)
}

impl BlsEntry {
    /// The boot-count state.
    pub fn boot_count_state(&self) -> (r: BootCountState)
        ensures
            r == count_state(self.tries_left),
    {
        match self.tries_left {
            None => BootCountState::Good,
            Some(0) => BootCountState::Bad,
            Some(_) => BootCountState::Indeterminate,
        }
    }

    /// All `options` lines joined with spaces, with GRUB `$variable` tokens
    /// removed (and whitespace runs collapsed to single spaces).
    pub fn combined_options(&self) -> (r: String)
        ensures
            r@ == without_grub_vars(join_spaces(strings_view(self.options@))),
    {
        let ghost parts = strings_view(self.options@);
        let mut joined: Vec<char> = Vec::new();
        let mut i: usize = 0;
        while i < self.options.len()
            invariant
                i <= self.options@.len(),
                parts == strings_view(self.options@),
                joined@ == join_spaces(parts.take(i as int)),
            decreases self.options@.len() - i,
        {
            let pv = chars_of(self.options[i].as_str());
            proof {
                assert(parts.take(i + 1).drop_last() == parts.take(i as int));
                assert(parts.take(i + 1).last() == self.options@[i as int]@);
            }
            if i > 0 {
                joined.push(' ');
            } else {
                assert(parts.take(1) == seq![parts[0]]);
            }
            append_chars(&mut joined, &pv);
            proof {
                if i == 0 {
                    assert(joined@ =~= parts.take(1)[0]);
                }
            }
            i += 1;
        }
        assert(parts.take(parts.len() as int) == parts);
        strip_grub_variables(&joined)
    }

    /// The initrd paths without GRUB `$variable` entries (bare, or after
    /// path normalization `\$...` / `/$...`).
    pub fn cleaned_initrd(&self) -> (r: Vec<String>)
        ensures
            strings_view(r@) == non_var_paths(strings_view(self.initrd@)),
    {
        let ghost all = strings_view(self.initrd@);
        let mut out: Vec<String> = Vec::new();
        let mut i: usize = 0;
        while i < self.initrd.len()
            invariant
                i <= self.initrd@.len(),
                all == strings_view(self.initrd@),
                strings_view(out@) == non_var_paths(all.take(i as int)),
            decreases self.initrd@.len() - i,
        {
            let s = &self.initrd[i];
            let cv = chars_of(s.as_str());
            proof {
                assert(all.take(i + 1).drop_last() == all.take(i as int));
                assert(all.take(i + 1).last() == cv@);
            }
            let var = (cv.len() > 0 && cv[0] == '$') || (cv.len() > 1 && (cv[0] == '\\' || cv[0]
                == '/') && cv[1] == '$');
            if !var {
                let ghost before = out@;
                out.push(string_of(&cv));
                assert(strings_view(out@) == strings_view(before).push(cv@));
            }
            i += 1;
        }
        assert(all.take(all.len() as int) == all);
        out
    }
}

// ---------------------------------------------------------------------------
// Ordering
// ---------------------------------------------------------------------------

/// The std `Ordering` an `Order3` stands for.
pub open spec fn ordering_of(o: Order3) -> Ordering {
    match o {
        Order3::Less => Ordering::Less,
        Order3::Equal => Ordering::Equal,
        Order3::Greater => Ordering::Greater,
    }
}

fn to_ordering(o: Order3) -> (r: Ordering)
    ensures
        r == ordering_of(o),
{
    match o {
        Order3::Less => Ordering::Less,
        Order3::Equal => Ordering::Equal,
        Order3::Greater => Ordering::Greater,
    }
}

/// UAPI.10 version comparison of two strings.
pub fn version_compare(a: &str, b: &str) -> (r: Ordering)
    ensures
        r == ordering_of(version_order(a.spec_bytes(), b.spec_bytes())),
{
    to_ordering(version_order_bytes(a.as_bytes(), b.as_bytes()))
}

/// Order of two optional strings: present before absent, then by bytes.
pub open spec fn opt_order(a: Option<Seq<char>>, b: Option<Seq<char>>) -> Order3 {
    match (a, b) {
        (None, None) => Order3::Equal,
        (None, Some(_)) => Order3::Greater,
        (Some(_), None) => Order3::Less,
        (Some(x), Some(y)) => lex(encode_utf8(x), encode_utf8(y)),
    }
}

pub open spec fn is_bad(e: BlsEntryView) -> bool {
    e.tries_left == Some(0u32)
}

pub open spec fn version_or_empty(e: BlsEntryView) -> Seq<char> {
    match e.version {
        Some(v) => v,
        None => Seq::empty(),
    }
}

/// The BLS menu order: bad entries last; entries with a `sort-key` first;
/// between two keyed entries, `sort-key`, then `machine-id`, then `version`
/// descending; finally the id, descending as a version when both entries
/// carry a version, else ascending by bytes.
pub open spec fn bls_order(a: BlsEntryView, b: BlsEntryView) -> Order3 {
    let keyed = a.sort_key is Some && b.sort_key is Some;
    let sk = opt_order(a.sort_key, b.sort_key);
    let mid = opt_order(a.machine_id, b.machine_id);
    let ver = version_order(encode_utf8(version_or_empty(a)), encode_utf8(version_or_empty(b)));
    if is_bad(a) != is_bad(b) {
        if is_bad(a) {
            Order3::Greater
        } else {
            Order3::Less
        }
    } else if (a.sort_key is Some) != (b.sort_key is Some) {
        if a.sort_key is Some {
            Order3::Less
        } else {
            Order3::Greater
        }
    } else if keyed && sk != Order3::Equal {
        sk
    } else if keyed && mid != Order3::Equal {
        mid
    } else if keyed && ver != Order3::Equal {
        flip(ver)
    } else if a.version is Some && b.version is Some {
        flip(version_order(encode_utf8(a.id), encode_utf8(b.id)))
    } else {
        lex(encode_utf8(a.id), encode_utf8(b.id))
    }
}

fn opt_str_order(a: &Option<String>, b: &Option<String>) -> (o: Order3)
    ensures
        o == opt_order(opt_view(*a), opt_view(*b)),
{
    match (a, b) {
        (None, None) => Order3::Equal,
        (None, Some(_)) => Order3::Greater,
        (Some(_), None) => Order3::Less,
        (Some(x), Some(y)) => str_order(x.as_str(), y.as_str()),
    }
}

fn version_str(v: &Option<String>) -> (r: &str)
    ensures
        r@ == (match opt_view(*v) {
            Some(s) => s,
            None => Seq::empty(),
        }),
{
    match v {
        Some(s) => s.as_str(),
        None => {
            proof {
                reveal_strlit("");
            }
            ""
        },
    }
}

/// `bls_order` of two entries.
pub fn bls_sort_order(a: &BlsEntry, b: &BlsEntry) -> (o: Order3)
    ensures
        o == bls_order(a@, b@),
{
    reveal(bls_order);
    let a_bad = a.tries_left == Some(0u32);
    let b_bad = b.tries_left == Some(0u32);
    if a_bad != b_bad {
        return if a_bad {
            Order3::Greater
        } else {
            Order3::Less
        };
    }
    let a_has = a.sort_key.is_some();
    let b_has = b.sort_key.is_some();
    if a_has != b_has {
        return if a_has {
            Order3::Less
        } else {
            Order3::Greater
        };
    }
    if a_has && b_has {
        let sk = opt_str_order(&a.sort_key, &b.sort_key);
        if sk != Order3::Equal {
            return sk;
        }
        let mid = opt_str_order(&a.machine_id, &b.machine_id);
        if mid != Order3::Equal {
            return mid;
        }
        let ver = version_order_bytes(
            version_str(&a.version).as_bytes(),
            version_str(&b.version).as_bytes(),
        );
        if ver != Order3::Equal {
            return match ver {
                Order3::Less => Order3::Greater,
                Order3::Equal => Order3::Equal,
                Order3::Greater => Order3::Less,
            };
        }
    }
    if a.version.is_some() && b.version.is_some() {
        match version_order_bytes(a.id.as_str().as_bytes(), b.id.as_str().as_bytes()) {
            Order3::Less => Order3::Greater,
            Order3::Equal => Order3::Equal,
            Order3::Greater => Order3::Less,
        }
    } else {
        str_order(a.id.as_str(), b.id.as_str())
    }
}

/// BLS menu comparison (see `bls_order`).
pub fn bls_sort_compare(a: &BlsEntry, b: &BlsEntry) -> (r: Ordering)
    ensures
        r == ordering_of(bls_order(a@, b@)),
{
    to_ordering(bls_sort_order(a, b))
}

proof fn lemma_opt_order_flip(a: Option<Seq<char>>, b: Option<Seq<char>>)
    ensures
        opt_order(a, b) == flip(opt_order(b, a)),
{
    if a is Some && b is Some {
        lemma_lex_flip(encode_utf8(a->0), encode_utf8(b->0));
    }
}

/// Swapping two entries reverses their BLS menu order.
pub proof fn bls_order_antisymmetric(a: BlsEntryView, b: BlsEntryView)
    ensures
        bls_order(a, b) == flip(bls_order(b, a)),
{
    reveal(bls_order);
    lemma_opt_order_flip(a.sort_key, b.sort_key);
    lemma_opt_order_flip(a.machine_id, b.machine_id);
    version_order_antisymmetric(encode_utf8(version_or_empty(a)), encode_utf8(version_or_empty(b)));
    version_order_antisymmetric(encode_utf8(a.id), encode_utf8(b.id));
    lemma_lex_flip(encode_utf8(a.id), encode_utf8(b.id));
}


// ---------------------------------------------------------------------------
// Content equality
// ---------------------------------------------------------------------------

/// Two entries have the same parsed content: every field except the
/// source volume index and backend tag.
pub open spec fn same_content(a: BlsEntryView, b: BlsEntryView) -> bool {
    &&& a.id == b.id
    &&& a.filename == b.filename
    &&& a.title == b.title
    &&& a.version == b.version
    &&& a.machine_id == b.machine_id
    &&& a.sort_key == b.sort_key
    &&& a.linux == b.linux
    &&& a.initrd == b.initrd
    &&& a.efi == b.efi
    &&& a.options == b.options
    &&& a.architecture == b.architecture
    &&& a.tries_left == b.tries_left
    &&& a.tries_done == b.tries_done
}

fn string_eq(a: &String, b: &String) -> (r: bool)
    ensures
        r == (a@ == b@),
{
    *a == *b
}

fn opt_string_eq(a: &Option<String>, b: &Option<String>) -> (r: bool)
    ensures
        r == (opt_view(*a) == opt_view(*b)),
{
    match (a, b) {
        (None, None) => true,
        (Some(x), Some(y)) => string_eq(x, y),
        _ => false,
    }
}

fn strings_eq(a: &Vec<String>, b: &Vec<String>) -> (r: bool)
    ensures
        r == (strings_view(a@) == strings_view(b@)),
{
    if a.len() != b.len() {
        assert(strings_view(a@).len() != strings_view(b@).len());
        return false;
    }
    let mut i: usize = 0;
    while i < a.len()
        invariant
            i <= a@.len(),
            a@.len() == b@.len(),
            forall|k: int| 0 <= k < i ==> a@[k]@ == b@[k]@,
        decreases a@.len() - i,
    {
        if !string_eq(&a[i], &b[i]) {
            assert(strings_view(a@)[i as int] != strings_view(b@)[i as int]);
            return false;
        }
        i += 1;
    }
    assert(strings_view(a@) =~= strings_view(b@));
    true
}

fn same_content_exec(a: &BlsEntry, b: &BlsEntry) -> (r: bool)
    ensures
        r == same_content(a@, b@),
{
    string_eq(&a.id, &b.id) && string_eq(&a.filename, &b.filename) && opt_string_eq(
        &a.title,
        &b.title,
    ) && opt_string_eq(&a.version, &b.version) && opt_string_eq(&a.machine_id, &b.machine_id)
        && opt_string_eq(&a.sort_key, &b.sort_key) && opt_string_eq(&a.linux, &b.linux)
        && strings_eq(&a.initrd, &b.initrd) && opt_string_eq(&a.efi, &b.efi) && strings_eq(
        &a.options,
        &b.options,
    ) && opt_string_eq(&a.architecture, &b.architecture) && a.tries_left == b.tries_left
        && a.tries_done == b.tries_done
}

impl PartialEq for BlsEntry {
    /// Content equality: every parsed field, not the source volume fields.
    fn eq(&self, other: &Self) -> (r: bool) {
        same_content_exec(self, other)
    }
}

impl vstd::std_specs::cmp::PartialEqSpecImpl for BlsEntry {
    open spec fn obeys_eq_spec() -> bool {
        true
    }

    open spec fn eq_spec(&self, other: &BlsEntry) -> bool {
        same_content(self@, other@)
    }
}

// ---------------------------------------------------------------------------
// Filename and architecture helpers
// ---------------------------------------------------------------------------

/// Length of the leading run of ASCII digits.
pub open spec fn digit_prefix(s: Seq<char>) -> nat
    decreases s.len(),
{
    if s.len() > 0 && is_digit(s[0]) {
        1 + digit_prefix(s.drop_first())
    } else {
        0
    }
}

/// Digits right after the last `marker` of the name part, or 0 when the
/// marker does not occur.
pub open spec fn digits_after(filename: Seq<char>, marker: char) -> nat {
    let n = strip_conf(filename);
    let p = last_index(n, marker);
    if p >= 0 {
        digit_prefix(n.subrange(p + 1, n.len() as int))
    } else {
        0
    }
}

/// Count the digits after the last `marker` in the filename (without
/// `.conf`); keeps the zero-padding width of boot counters.
pub fn count_digits_in_filename(filename: &str, marker: char) -> (r: usize)
    ensures
        r == digits_after(filename@, marker),
{
    let fv = chars_of(filename);
    let nend = strip_conf_range(&fv, 0, fv.len());
    assert(fv@.subrange(0, fv@.len() as int) == fv@);
    let ghost n = fv@.subrange(0, nend as int);
    proof {
        lemma_last_index(n, marker);
    }
    match rfind_char(&fv, 0, nend, marker) {
        Some(p) => {
            let mut i = p + 1;
            assert(n.subrange(p + 1, n.len() as int) == fv@.subrange(p + 1, nend as int));
            while i < nend && char_is_digit(fv[i])
                invariant
                    p + 1 <= i <= nend <= fv@.len(),
                    digit_prefix(fv@.subrange(p + 1, nend as int)) == (i - (p + 1)) + digit_prefix(
                        fv@.subrange(i as int, nend as int),
                    ),
                decreases nend - i,
            {
                assert(fv@.subrange(i as int, nend as int).drop_first() == fv@.subrange(
                    i + 1,
                    nend as int,
                ));
                i += 1;
            }
            i - (p + 1)
        },
        None => 0,
    }
}

/// ASCII lowercase of one character.
pub open spec fn lower(c: char) -> char {
    if 'A' <= c && c <= 'Z' {
        ((c as u32) + 32) as char
    } else {
        c
    }
}

/// ASCII lowercase of a string.
pub open spec fn lower_all(s: Seq<char>) -> Seq<char> {
    s.map_values(|c: char| lower(c))
}

fn lower_char(c: char) -> (r: char)
    ensures
        r == lower(c),
{
    if 'A' <= c && c <= 'Z' {
        ((c as u32) + 32) as u8 as char
    } else {
        c
    }
}

/// Whether `v[lo..hi]` equals `lit` ignoring ASCII case.
fn range_eq_ignore_case(v: &[char], lo: usize, hi: usize, lit: &str) -> (b: bool)
    requires
        lo <= hi <= v@.len(),
    ensures
        b == (lower_all(v@.subrange(lo as int, hi as int)) == lower_all(lit@)),
{
    let w = chars_of(lit);
    if hi - lo != w.len() {
        assert(lower_all(v@.subrange(lo as int, hi as int)).len() != lower_all(lit@).len());
        return false;
    }
    let mut k: usize = 0;
    while k < w.len()
        invariant
            hi - lo == w@.len(),
            lo <= hi <= v@.len(),
            w@ == lit@,
            k <= w@.len(),
            forall|m: int| 0 <= m < k ==> lower(v@[lo + m]) == lower(w@[m]),
        decreases w@.len() - k,
    {
        if lower_char(v[lo + k]) != lower_char(w[k]) {
            assert(lower_all(v@.subrange(lo as int, hi as int))[k as int] != lower_all(
                lit@,
            )[k as int]);
            return false;
        }
        k += 1;
    }
    assert(lower_all(v@.subrange(lo as int, hi as int)) =~= lower_all(lit@));
    true
}

/// `filename` has an extension (text after its last `.`) equal to `ext`,
/// ignoring ASCII case.
pub open spec fn has_extension(filename: Seq<char>, ext: Seq<char>) -> bool {
    let d = last_index(filename, '.');
    d >= 0 && lower_all(filename.subrange(d + 1, filename.len() as int)) == lower_all(ext)
}

/// Case-insensitive file-extension check.
pub fn has_extension_ignore_case(filename: &str, ext: &str) -> (r: bool)
    ensures
        r == has_extension(filename@, ext@),
{
    let fv = chars_of(filename);
    proof {
        lemma_last_index(fv@, '.');
    }
    assert(fv@.subrange(0, fv@.len() as int) == fv@);
    match rfind_char(&fv, 0, fv.len(), '.') {
        Some(d) => range_eq_ignore_case(&fv, d + 1, fv.len(), ext),
        None => false,
    }
}

/// A CPU architecture a bootloader build can target.
#[derive(Debug, Clone, Copy, PartialEq, Eq, Structural)]
pub enum TargetArch {
    X86_64,
    Aarch64,
    Other,
}

/// The BLS `architecture` spellings that name a target (lowercase).
pub open spec fn arch_matches(a: Seq<char>, target: TargetArch) -> bool {
    match target {
        TargetArch::X86_64 => a == "x64"@ || a == "x86_64"@ || a == "x86-64"@,
        TargetArch::Aarch64 => a == "aa64"@ || a == "aarch64"@ || a == "arm64"@,
        TargetArch::Other => false,
    }
}

/// Whether a BLS `architecture` field names `target`, ignoring case.
///
/// Every accepted spelling is ASCII, and no non-ASCII character lowercases
/// into one of their characters, so the Unicode lowercasing of the value
/// compares like its ASCII lowercasing.
pub fn is_native_architecture(arch: &str, target: TargetArch) -> (r: bool)
    ensures
        r == arch_matches(lower_all(arch@), target),
{
    let v = chars_of(arch);
    assert(v@.subrange(0, v@.len() as int) == v@);
    proof {
        reveal_strlit("x64");
        reveal_strlit("x86_64");
        reveal_strlit("x86-64");
        reveal_strlit("aa64");
        reveal_strlit("aarch64");
        reveal_strlit("arm64");
        assert(lower_all("x64"@) == "x64"@);
        assert(lower_all("x86_64"@) == "x86_64"@);
        assert(lower_all("x86-64"@) == "x86-64"@);
        assert(lower_all("aa64"@) == "aa64"@);
        assert(lower_all("aarch64"@) == "aarch64"@);
        assert(lower_all("arm64"@) == "arm64"@);
    }
    match target {
        TargetArch::X86_64 => range_eq_ignore_case(&v, 0, v.len(), "x64") || range_eq_ignore_case(
            &v,
            0,
            v.len(),
            "x86_64",
        ) || range_eq_ignore_case(&v, 0, v.len(), "x86-64"),
        TargetArch::Aarch64 => range_eq_ignore_case(&v, 0, v.len(), "aa64") || range_eq_ignore_case(
            &v,
            0,
            v.len(),
            "aarch64",
        ) || range_eq_ignore_case(&v, 0, v.len(), "arm64"),
        TargetArch::Other => false,
    }
}


} // verus!
