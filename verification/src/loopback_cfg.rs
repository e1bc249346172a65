//! A narrow extractor for a distro ISO's `/boot/grub/loopback.cfg`: the
//! kernel path, the first initrd path and the kernel command line of the
//! first bootable `menuentry`, with `${iso_path}` substituted by the real
//! path of the ISO. It is not a grub interpreter.
use vstd::prelude::*;
use vstd::string::StrSliceExecFns;

use crate::bls_parse::split_lines;
use crate::text::{
    char_is_ws, chars_of, find_char, is_ws, lemma_first_index, lemma_run_end, lemma_trim_after_word,
    lemma_chars_all, lemma_trim_end_len, range_starts_with, replace_all, replace_str, run_end, skip_ws_fwd, str_eq,
    trim, trim_end, trim_range, trim_start, word_ranges, words,
};

verus! {

/// The kernel, initrd and command line read from a `loopback.cfg` entry.
#[derive(Debug, Clone, PartialEq, Eq)]
pub struct LoopbackEntry {
    /// Kernel path on the ISO (`/casper/vmlinuz`).
    pub kernel: String,
    /// First initrd path on the ISO (`/casper/initrd`).
    pub initrd: String,
    /// Kernel command line with `${iso_path}` substituted.
    pub options: String,
}

pub struct LoopbackEntryView {
    pub kernel: Seq<char>,
    pub initrd: Seq<char>,
    pub options: Seq<char>,
}

impl View for LoopbackEntry {
    type V = LoopbackEntryView;

    open spec fn view(&self) -> LoopbackEntryView {
        LoopbackEntryView { kernel: self.kernel@, initrd: self.initrd@, options: self.options@ }
    }
}

/// Number of `{` minus number of `}` in `s`.
pub open spec fn brace_count(s: Seq<char>) -> int
    decreases s.len(),
{
    if s.len() == 0 {
        0
    } else {
        brace_count(s.drop_last()) + if s.last() == '{' {
            1int
        } else if s.last() == '}' {
            -1int
        } else {
            0int
        }
    }
}

/// The first whitespace-separated word of `s`, or the empty string.
pub open spec fn first_word_of(s: Seq<char>) -> Seq<char> {
    if words(s).len() > 0 {
        words(s)[0]
    } else {
        Seq::empty()
    }
}

/// Whether `s` begins with `p`.
pub open spec fn begins_with(s: Seq<char>, p: Seq<char>) -> bool {
    p.len() <= s.len() && s.subrange(0, p.len() as int) == p
}

/// The first keyword of `kws`, from index `i` on, that `line` begins with
/// followed by whitespace: the rest of the line after it, leading
/// whitespace removed.
pub open spec fn strip_kw_from(line: Seq<char>, kws: Seq<&str>, i: int) -> Option<Seq<char>>
    decreases kws.len() - i,
{
    if i < 0 || i >= kws.len() {
        None
    } else {
        let kw = kws[i]@;
        if begins_with(line, kw) && kw.len() < line.len() && is_ws(line[kw.len() as int]) {
            Some(trim_start(line.subrange(kw.len() as int, line.len() as int)))
        } else {
            strip_kw_from(line, kws, i + 1)
        }
    }
}

pub open spec fn linux_kws() -> Seq<&'static str> {
    seq!["linux", "linux16", "linuxefi"]
}

pub open spec fn initrd_kws() -> Seq<&'static str> {
    seq!["initrd", "initrd16", "initrdefi"]
}

/// Kernel path and arguments of a `linux` line's remainder: the text up to
/// the first whitespace, and the trimmed text after that character.
pub open spec fn kernel_split(rest: Seq<char>) -> (Seq<char>, Seq<char>) {
    let e = run_end(rest);
    if e < rest.len() {
        (rest.subrange(0, e), trim(rest.subrange(e + 1, rest.len() as int)))
    } else {
        (rest, Seq::empty())
    }
}

/// The state of the scan over the lines of `loopback.cfg`.
pub struct ScanState {
    pub started: bool,
    pub depth: int,
    pub saw_open: bool,
    pub kernel: Option<(Seq<char>, Seq<char>)>,
    pub initrd: Option<Seq<char>>,
    pub done: bool,
}

pub open spec fn initial_scan() -> ScanState {
    ScanState {
        started: false,
        depth: 0,
        saw_open: false,
        kernel: None,
        initrd: None,
        done: false,
    }
}

/// One line of the scan. Blank lines and `#` comments are skipped. Before
/// the first `menuentry`/`submenu` nothing is read; after it the first
/// `linux` line gives the kernel and the first `initrd` line the initrd.
/// The scan stops when the entry's block has closed or both are known.
pub open spec fn scan_step(st: ScanState, raw: Seq<char>) -> ScanState {
    let line = trim(raw);
    if st.done || line.len() == 0 || line[0] == '#' {
        st
    } else if !st.started {
        let fw = first_word_of(line);
        if fw == "menuentry"@ || fw == "submenu"@ {
            let depth = st.depth + brace_count(line);
            ScanState { started: true, depth, saw_open: depth > 0, ..st }
        } else {
            st
        }
    } else {
        let kernel = if st.kernel is None {
            match strip_kw_from(line, linux_kws(), 0) {
                Some(rest) => if kernel_split(rest).0.len() > 0 {
                    Some(kernel_split(rest))
                } else {
                    st.kernel
                },
                None => st.kernel,
            }
        } else {
            st.kernel
        };
        let initrd = if st.initrd is None {
            match strip_kw_from(line, initrd_kws(), 0) {
                Some(rest) => if words(rest).len() > 0 {
                    Some(words(rest)[0])
                } else {
                    st.initrd
                },
                None => st.initrd,
            }
        } else {
            st.initrd
        };
        let depth = st.depth + brace_count(line);
        let saw_open = st.saw_open || depth > 0;
        ScanState {
            started: true,
            depth,
            saw_open,
            kernel,
            initrd,
            done: (saw_open && depth <= 0) || (kernel is Some && initrd is Some),
        }
    }
}

pub open spec fn scan_lines(st: ScanState, lines: Seq<Seq<char>>) -> ScanState
    decreases lines.len(),
{
    if lines.len() == 0 {
        st
    } else {
        scan_lines(scan_step(st, lines[0]), lines.drop_first())
    }
}

/// `args` with `${iso_path}`, then `$iso_path`, replaced by `iso`.
pub open spec fn substituted(args: Seq<char>, iso: Seq<char>) -> Seq<char> {
    replace_all(
        replace_all(args, "${iso_path}"@, iso),
        "$iso_path"@,
        iso,
    )
}

/// What `parse_first_menuentry` returns.
pub open spec fn first_menuentry(cfg: Seq<char>, iso: Seq<char>) -> Option<LoopbackEntryView> {
    let fin = scan_lines(initial_scan(), split_lines(cfg));
    match (fin.kernel, fin.initrd) {
        (Some((k, a)), Some(i)) => Some(
            LoopbackEntryView { kernel: k, initrd: i, options: substituted(a, iso) },
        ),
        _ => None,
    }
}

proof fn lemma_brace_count_bound(s: Seq<char>)
    ensures
        -s.len() <= brace_count(s) <= s.len(),
    decreases s.len(),
{
    if s.len() > 0 {
        lemma_brace_count_bound(s.drop_last());
    }
}

proof fn lemma_scan_done(st: ScanState, lines: Seq<Seq<char>>)
    requires
        st.done,
    ensures
        scan_lines(st, lines) == st,
    decreases lines.len(),
{
    if lines.len() > 0 {
        lemma_scan_done(st, lines.drop_first());
    }
}

proof fn lemma_brace_count_concat(a: Seq<char>, b: Seq<char>)
    ensures
        brace_count(a + b) == brace_count(a) + brace_count(b),
    decreases b.len(),
{
    if b.len() > 0 {
        assert((a + b).drop_last() == a + b.drop_last());
        lemma_brace_count_concat(a, b.drop_last());
    } else {
        assert(a + b == a);
    }
}

proof fn lemma_brace_count_plain(s: Seq<char>)
    requires
        forall|k: int| 0 <= k < s.len() ==> s[k] != '{' && s[k] != '}',
    ensures
        brace_count(s) == 0,
    decreases s.len(),
{
    if s.len() > 0 {
        lemma_brace_count_plain(s.drop_last());
    }
}

/// A line that starts with a visible character has a first word, and the
/// word starts with that character.
proof fn lemma_first_word_head(line: Seq<char>)
    requires
        line.len() > 0,
        !is_ws(line[0]),
    ensures
        first_word_of(line).len() > 0,
        first_word_of(line)[0] == line[0],
{
    assert(trim_start(line) == line);
    lemma_run_end(line);
    assert(run_end(line) >= 1);
}

/// No initrd keyword matches a line that starts with `l`.
proof fn lemma_no_initrd_kw(line: Seq<char>)
    requires
        line.len() > 0,
        line[0] == 'l',
    ensures
        strip_kw_from(line, initrd_kws(), 0) is None,
{
    reveal_strlit("initrd");
    reveal_strlit("initrd16");
    reveal_strlit("initrdefi");
    let kws = initrd_kws();
    assert(kws[0]@ == "initrd"@ && kws[1]@ == "initrd16"@ && kws[2]@ == "initrdefi"@);
    if kws[0]@.len() <= line.len() {
        assert(line.subrange(0, kws[0]@.len() as int)[0] != kws[0]@[0]);
    }
    if kws[1]@.len() <= line.len() {
        assert(line.subrange(0, kws[1]@.len() as int)[0] != kws[1]@[0]);
    }
    if kws[2]@.len() <= line.len() {
        assert(line.subrange(0, kws[2]@.len() as int)[0] != kws[2]@[0]);
    }
    assert(strip_kw_from(line, kws, 3) is None);
    assert(strip_kw_from(line, kws, 2) is None);
    assert(strip_kw_from(line, kws, 1) is None);
}

/// No kernel keyword matches a line that starts with `i`.
proof fn lemma_no_linux_kw(line: Seq<char>)
    requires
        line.len() > 0,
        line[0] == 'i',
    ensures
        strip_kw_from(line, linux_kws(), 0) is None,
{
    reveal_strlit("linux");
    reveal_strlit("linux16");
    reveal_strlit("linuxefi");
    let kws = linux_kws();
    assert(kws[0]@ == "linux"@ && kws[1]@ == "linux16"@ && kws[2]@ == "linuxefi"@);
    if kws[0]@.len() <= line.len() {
        assert(line.subrange(0, kws[0]@.len() as int)[0] != kws[0]@[0]);
    }
    if kws[1]@.len() <= line.len() {
        assert(line.subrange(0, kws[1]@.len() as int)[0] != kws[1]@[0]);
    }
    if kws[2]@.len() <= line.len() {
        assert(line.subrange(0, kws[2]@.len() as int)[0] != kws[2]@[0]);
    }
    assert(strip_kw_from(line, kws, 3) is None);
    assert(strip_kw_from(line, kws, 2) is None);
    assert(strip_kw_from(line, kws, 1) is None);
}

/// What a keyword list whose members are a base word `b`, then `b` + `x`
/// and `b` + `y` (`x`, `y` not starting with whitespace and differing in
/// their first character) takes from each of them followed by `t`: the
/// rest after the keyword, or nothing when `t` is empty.
proof fn lemma_kw_family_strip(kws: Seq<&str>, t: Seq<char>)
    requires
        kws.len() == 3,
        kws[0]@.len() > 0,
        kws[1]@.len() > kws[0]@.len(),
        kws[2]@.len() > kws[1]@.len(),
        kws[1]@.subrange(0, kws[0]@.len() as int) == kws[0]@,
        kws[2]@.subrange(0, kws[0]@.len() as int) == kws[0]@,
        !is_ws(kws[1]@[kws[0]@.len() as int]),
        !is_ws(kws[2]@[kws[0]@.len() as int]),
        kws[1]@[kws[0]@.len() as int] != kws[2]@[kws[0]@.len() as int],
        t.len() > 0 ==> is_ws(t[0]),
    ensures
        forall|m: int|
            0 <= m < 3 ==> strip_kw_from(#[trigger] (kws[m]@ + t), kws, 0) == (if t.len() > 0 {
                Some(trim_start(t))
            } else {
                None::<Seq<char>>
            }),
{
    let k0 = kws[0]@;
    let k1 = kws[1]@;
    let k2 = kws[2]@;
    let n = k0.len() as int;
    assert forall|m: int|
        0 <= m < 3 implies strip_kw_from(#[trigger] (kws[m]@ + t), kws, 0) == (if t.len() > 0 {
            Some(trim_start(t))
        } else {
            None::<Seq<char>>
        }) by {
        let km = kws[m]@;
        let line = km + t;
        assert(line.subrange(km.len() as int, line.len() as int) == t);
        if t.len() > 0 {
            assert(line[km.len() as int] == t[0]);
        }
        assert(strip_kw_from(line, kws, 3) is None);
        if m == 0 {
            assert(line.subrange(0, n) == k0);
            if t.len() == 0 {
                assert(strip_kw_from(line, kws, 2) is None);
                assert(strip_kw_from(line, kws, 1) is None);
            }
        } else if m == 1 {
            assert(line.subrange(0, n) == k0);
            assert(line[n] == k1[n]);
            assert(line.subrange(0, k1.len() as int) == k1);
            if t.len() == 0 {
                assert(strip_kw_from(line, kws, 2) is None);
            }
        } else {
            assert(line.subrange(0, n) == k0);
            assert(line[n] == k2[n]);
            assert(line.subrange(0, k1.len() as int)[n] != k1[n]);
            assert(strip_kw_from(line, kws, 1) == strip_kw_from(line, kws, 2));
            assert(line.subrange(0, k2.len() as int) == k2);
        }
    }
}

proof fn lemma_linux_family()
    ensures
        linux_kws()[0]@ == "linux"@,
        linux_kws()[1]@ == "linux16"@,
        linux_kws()[2]@ == "linuxefi"@,
        forall|t: Seq<char>|
            (t.len() > 0 ==> is_ws(t[0])) ==> forall|m: int|
                0 <= m < 3 ==> strip_kw_from(#[trigger] (linux_kws()[m]@ + t), linux_kws(), 0)
                    == (if t.len() > 0 {
                    Some(trim_start(t))
                } else {
                    None::<Seq<char>>
                }),
{
    reveal_strlit("linux");
    reveal_strlit("linux16");
    reveal_strlit("linuxefi");
    let kws = linux_kws();
    assert(kws[1]@.subrange(0, 5) == kws[0]@);
    assert(kws[2]@.subrange(0, 5) == kws[0]@);
    assert forall|t: Seq<char>| (t.len() > 0 ==> is_ws(t[0])) implies forall|m: int|
        0 <= m < 3 ==> strip_kw_from(#[trigger] (linux_kws()[m]@ + t), linux_kws(), 0) == (if t.len()
            > 0 {
            Some(trim_start(t))
        } else {
            None::<Seq<char>>
        }) by {
        lemma_kw_family_strip(kws, t);
    }
}

proof fn lemma_initrd_family()
    ensures
        initrd_kws()[0]@ == "initrd"@,
        initrd_kws()[1]@ == "initrd16"@,
        initrd_kws()[2]@ == "initrdefi"@,
        forall|t: Seq<char>|
            (t.len() > 0 ==> is_ws(t[0])) ==> forall|m: int|
                0 <= m < 3 ==> strip_kw_from(#[trigger] (initrd_kws()[m]@ + t), initrd_kws(), 0)
                    == (if t.len() > 0 {
                    Some(trim_start(t))
                } else {
                    None::<Seq<char>>
                }),
{
    reveal_strlit("initrd");
    reveal_strlit("initrd16");
    reveal_strlit("initrdefi");
    let kws = initrd_kws();
    assert(kws[1]@.subrange(0, 6) == kws[0]@);
    assert(kws[2]@.subrange(0, 6) == kws[0]@);
    assert forall|t: Seq<char>| (t.len() > 0 ==> is_ws(t[0])) implies forall|m: int|
        0 <= m < 3 ==> strip_kw_from(#[trigger] (initrd_kws()[m]@ + t), initrd_kws(), 0) == (if t.len()
            > 0 {
            Some(trim_start(t))
        } else {
            None::<Seq<char>>
        }) by {
        lemma_kw_family_strip(kws, t);
    }
}

/// Two raw lines whose trimmed forms start alike (neither a comment nor a
/// `menuentry`/`submenu` word), hold as many braces, and give the same
/// kernel and initrd keyword remainders move the scan alike.
proof fn lemma_lines_step_alike(st: ScanState, ra: Seq<char>, rb: Seq<char>)
    requires
        trim(ra).len() > 0,
        trim(rb).len() > 0,
        trim(ra)[0] == trim(rb)[0],
        !is_ws(trim(ra)[0]),
        trim(ra)[0] != '#',
        trim(ra)[0] != 'm',
        trim(ra)[0] != 's',
        brace_count(trim(ra)) == brace_count(trim(rb)),
        strip_kw_from(trim(ra), linux_kws(), 0) == strip_kw_from(trim(rb), linux_kws(), 0),
        strip_kw_from(trim(ra), initrd_kws(), 0) == strip_kw_from(trim(rb), initrd_kws(), 0),
    ensures
        scan_step(st, ra) == scan_step(st, rb),
{
    reveal_strlit("menuentry");
    reveal_strlit("submenu");
    lemma_first_word_head(trim(ra));
    lemma_first_word_head(trim(rb));
    assert("menuentry"@[0] == 'm' && "submenu"@[0] == 's');
    assert(first_word_of(trim(ra)) != "menuentry"@ && first_word_of(trim(ra)) != "submenu"@);
    assert(first_word_of(trim(rb)) != "menuentry"@ && first_word_of(trim(rb)) != "submenu"@);
}

/// `kw` + `r` trims to `kw` + the trimmed end of `r`, which is empty or
/// starts with the whitespace `r` starts with.
proof fn lemma_kw_line_trim(kw: Seq<char>, r: Seq<char>)
    requires
        kw.len() > 0,
        forall|j: int| 0 <= j < kw.len() ==> !is_ws(#[trigger] kw[j]) && kw[j] != '{' && kw[j]
            != '}',
        r.len() > 0,
        is_ws(r[0]),
    ensures
        trim(kw + r) == kw + trim_end(r),
        trim_end(r).len() > 0 ==> is_ws(trim_end(r)[0]),
        brace_count(trim(kw + r)) == brace_count(trim_end(r)),
        (kw + trim_end(r))[0] == kw[0],
{
    lemma_trim_end_len(r);
    if trim_end(r).len() > 0 {
        assert(trim_end(r)[0] == r[0]);
    }
    lemma_trim_after_word(kw, r);
    lemma_brace_count_concat(kw, trim_end(r));
    lemma_brace_count_plain(kw);
}

/// The kernel keywords `linuxefi` and `linux16`, followed by whitespace,
/// read as `linux`: from any state of the scan, a line written with either
/// leads to the same state as the same line written with `linux`.
pub proof fn kernel_keyword_variants_read_alike(st: ScanState, r: Seq<char>)
    requires
        r.len() > 0,
        is_ws(r[0]),
    ensures
        scan_step(st, "linuxefi"@ + r) == scan_step(st, "linux"@ + r),
        scan_step(st, "linux16"@ + r) == scan_step(st, "linux"@ + r),
{
    reveal_strlit("linux");
    reveal_strlit("linux16");
    reveal_strlit("linuxefi");
    lemma_linux_family();
    let t = trim_end(r);
    let kws = linux_kws();
    lemma_chars_all("linux"@, |c: char| !is_ws(c) && c != '{' && c != '}');
    lemma_chars_all("linux16"@, |c: char| !is_ws(c) && c != '{' && c != '}');
    lemma_chars_all("linuxefi"@, |c: char| !is_ws(c) && c != '{' && c != '}');
    assert forall|m: int| 0 <= m < 3 implies #[trigger] trim(kws[m]@ + r) == kws[m]@ + t
        && brace_count(trim(kws[m]@ + r)) == brace_count(t) && (kws[m]@ + t)[0] == 'l' by {
        lemma_kw_line_trim(kws[m]@, r);
    }
    assert(trim(kws[0]@ + r) == kws[0]@ + t);
    assert(trim(kws[1]@ + r) == kws[1]@ + t);
    assert(trim(kws[2]@ + r) == kws[2]@ + t);
    lemma_trim_end_len(r);
    if t.len() > 0 {
        assert(t[0] == r[0]);
    }
    assert(strip_kw_from(kws[0]@ + t, kws, 0) == strip_kw_from(kws[1]@ + t, kws, 0));
    assert(strip_kw_from(kws[0]@ + t, kws, 0) == strip_kw_from(kws[2]@ + t, kws, 0));
    lemma_no_initrd_kw(kws[0]@ + t);
    lemma_no_initrd_kw(kws[1]@ + t);
    lemma_no_initrd_kw(kws[2]@ + t);
    lemma_lines_step_alike(st, "linuxefi"@ + r, "linux"@ + r);
    lemma_lines_step_alike(st, "linux16"@ + r, "linux"@ + r);
}

/// The initrd keywords `initrdefi` and `initrd16`, followed by
/// whitespace, read as `initrd`: from any state of the scan, a line written
/// with either leads to the same state as the same line written with
/// `initrd`.
pub proof fn initrd_keyword_variants_read_alike(st: ScanState, r: Seq<char>)
    requires
        r.len() > 0,
        is_ws(r[0]),
    ensures
        scan_step(st, "initrdefi"@ + r) == scan_step(st, "initrd"@ + r),
        scan_step(st, "initrd16"@ + r) == scan_step(st, "initrd"@ + r),
{
    reveal_strlit("initrd");
    reveal_strlit("initrd16");
    reveal_strlit("initrdefi");
    lemma_initrd_family();
    let t = trim_end(r);
    let kws = initrd_kws();
    lemma_chars_all("initrd"@, |c: char| !is_ws(c) && c != '{' && c != '}');
    lemma_chars_all("initrd16"@, |c: char| !is_ws(c) && c != '{' && c != '}');
    lemma_chars_all("initrdefi"@, |c: char| !is_ws(c) && c != '{' && c != '}');
    assert forall|m: int| 0 <= m < 3 implies #[trigger] trim(kws[m]@ + r) == kws[m]@ + t
        && brace_count(trim(kws[m]@ + r)) == brace_count(t) && (kws[m]@ + t)[0] == 'i' by {
        lemma_kw_line_trim(kws[m]@, r);
    }
    assert(trim(kws[0]@ + r) == kws[0]@ + t);
    assert(trim(kws[1]@ + r) == kws[1]@ + t);
    assert(trim(kws[2]@ + r) == kws[2]@ + t);
    lemma_trim_end_len(r);
    if t.len() > 0 {
        assert(t[0] == r[0]);
    }
    assert(strip_kw_from(kws[0]@ + t, kws, 0) == strip_kw_from(kws[1]@ + t, kws, 0));
    assert(strip_kw_from(kws[0]@ + t, kws, 0) == strip_kw_from(kws[2]@ + t, kws, 0));
    lemma_no_linux_kw(kws[0]@ + t);
    lemma_no_linux_kw(kws[1]@ + t);
    lemma_no_linux_kw(kws[2]@ + t);
    lemma_lines_step_alike(st, "initrdefi"@ + r, "initrd"@ + r);
    lemma_lines_step_alike(st, "initrd16"@ + r, "initrd"@ + r);
}

proof fn lemma_scan_lines_swap(
    st: ScanState,
    lines: Seq<Seq<char>>,
    i: int,
    a: Seq<char>,
    b: Seq<char>,
)
    requires
        0 <= i < lines.len(),
        forall|s: ScanState| #[trigger] scan_step(s, a) == scan_step(s, b),
    ensures
        scan_lines(st, lines.update(i, a)) == scan_lines(st, lines.update(i, b)),
    decreases lines.len(),
{
    let la = lines.update(i, a);
    let lb = lines.update(i, b);
    if i == 0 {
        assert(la.drop_first() == lb.drop_first());
        assert(scan_step(st, a) == scan_step(st, b));
    } else {
        assert(la.drop_first() == lines.drop_first().update(i - 1, a));
        assert(lb.drop_first() == lines.drop_first().update(i - 1, b));
        lemma_scan_lines_swap(scan_step(st, lines[0]), lines.drop_first(), i - 1, a, b);
    }
}

/// A menuentry whose kernel line begins with `linuxefi` and whitespace
/// gives the same kernel, initrd and command line as the same
/// configuration with that word written `linux`.
pub proof fn linuxefi_entry_reads_as_linux(
    cfg_efi: Seq<char>,
    cfg_linux: Seq<char>,
    iso: Seq<char>,
    lines: Seq<Seq<char>>,
    i: int,
    r: Seq<char>,
)
    requires
        0 <= i < lines.len(),
        r.len() > 0,
        is_ws(r[0]),
        split_lines(cfg_efi) == lines.update(i, "linuxefi"@ + r),
        split_lines(cfg_linux) == lines.update(i, "linux"@ + r),
    ensures
        first_menuentry(cfg_efi, iso) == first_menuentry(cfg_linux, iso),
{
    assert forall|s: ScanState|
        #[trigger] scan_step(s, "linuxefi"@ + r) == scan_step(s, "linux"@ + r) by {
        kernel_keyword_variants_read_alike(s, r);
    }
    lemma_scan_lines_swap(initial_scan(), lines, i, "linuxefi"@ + r, "linux"@ + r);
}

/// The first whitespace-separated word of `line`, or `""`.
fn first_word(line: &str) -> (r: &str)
    ensures
        r@ == first_word_of(line@),
{
    let v = chars_of(line);
    let w = word_ranges(&v, 0, v.len());
    assert(v@.subrange(0, v@.len() as int) == v@);
    if w.len() == 0 {
        proof {
            reveal_strlit("");
        }
        ""
    } else {
        line.substring_char(w[0].0, w[0].1)
    }
}

/// If `line` begins with one of `kws` followed by whitespace, the remainder
/// with its leading whitespace removed (so `linuxhdr` does not match
/// `linux`).
fn strip_kw<'a>(line: &'a str, kws: &[&str]) -> (r: Option<&'a str>)
    ensures
        match r {
            Some(rest) => strip_kw_from(line@, kws@, 0) == Some(rest@),
            None => strip_kw_from(line@, kws@, 0) is None,
        },
{
    let v = chars_of(line);
    let n = v.len();
    let mut i: usize = 0;
    while i < kws.len()
        invariant
            v@ == line@,
            n == v@.len(),
            i <= kws@.len(),
            strip_kw_from(line@, kws@, 0) == strip_kw_from(line@, kws@, i as int),
        decreases kws@.len() - i,
    {
        let kw = kws[i];
        let klen = chars_of(kw).len();
        assert(v@.subrange(0, n as int) == v@);
        if range_starts_with(&v, 0, n, kw) && klen < n && char_is_ws(v[klen]) {
            let a = skip_ws_fwd(&v, klen, n);
            return Some(line.substring_char(a, n));
        }
        i += 1;
    }
    None
}

/// Number of `{` minus number of `}` in `line`.
fn count_braces(line: &str) -> (r: i64)
    requires
        line@.len() <= 0x7fff_ffff_ffff_ffff,
    ensures
        r == brace_count(line@),
{
    let v = chars_of(line);
    let mut total: i64 = 0;
    let mut i: usize = 0;
    while i < v.len()
        invariant
            v@ == line@,
            v@.len() <= 0x7fff_ffff_ffff_ffff,
            i <= v@.len(),
            total == brace_count(v@.subrange(0, i as int)),
            -(i as int) <= total <= i,
        decreases v@.len() - i,
    {
        assert(v@.subrange(0, i + 1).drop_last() == v@.subrange(0, i as int));
        if v[i] == '{' {
            total += 1;
        } else if v[i] == '}' {
            total -= 1;
        }
        i += 1;
    }
    assert(v@.subrange(0, v@.len() as int) == v@);
    total
}

/// `args` with `${iso_path}` and then `$iso_path` replaced by `iso_path`.
fn substitute_iso_path(args: &str, iso_path: &str) -> (r: String)
    ensures
        r@ == substituted(args@, iso_path@),
{
    proof {
        reveal_strlit("${iso_path}");
        reveal_strlit("$iso_path");
    }
    let step = replace_str(args, "${iso_path}", iso_path);
    replace_str(step.as_str(), "$iso_path", iso_path)
}

/// The scan's state in executable form.
struct Scan {
    started: bool,
    depth: i64,
    saw_open: bool,
    kernel: Option<(String, String)>,
    initrd: Option<String>,
    done: bool,
}

impl View for Scan {
    type V = ScanState;

    closed spec fn view(&self) -> ScanState {
        ScanState {
            started: self.started,
            depth: self.depth as int,
            saw_open: self.saw_open,
            kernel: match self.kernel {
                Some((k, a)) => Some((k@, a@)),
                None => None,
            },
            initrd: match self.initrd {
                Some(i) => Some(i@),
                None => None,
            },
            done: self.done,
        }
    }
}

/// Kernel path and arguments of a `linux` line's remainder.
fn split_kernel(rest: &str) -> (r: (String, String))
    ensures
        (r.0@, r.1@) == kernel_split(rest@),
{
    let v = chars_of(rest);
    let n = v.len();
    let mut e: usize = 0;
    proof {
        lemma_run_end(v@);
    }
    assert(v@.subrange(0, n as int) == v@);
    while e < n && !char_is_ws(v[e])
        invariant
            v@ == rest@,
            n == v@.len(),
            e <= n,
            run_end(v@) == e + run_end(v@.subrange(e as int, n as int)),
        decreases n - e,
    {
        assert(v@.subrange(e as int, n as int).drop_first() == v@.subrange(e + 1, n as int));
        e += 1;
    }
    assert(v@.subrange(0, n as int) == v@);
    if e < n {
        let (a, b) = trim_range(&v, e + 1, n);
        (String::from_str(rest.substring_char(0, e)), String::from_str(rest.substring_char(a, b)))
    } else {
        (String::from_str(rest), String::new())
    }
}

/// First whitespace-separated word of `rest`, if any.
fn first_path(rest: &str) -> (r: Option<String>)
    ensures
        match r {
            Some(p) => words(rest@).len() > 0 && p@ == words(rest@)[0],
            None => words(rest@).len() == 0,
        },
{
    let v = chars_of(rest);
    let w = word_ranges(&v, 0, v.len());
    assert(v@.subrange(0, v@.len() as int) == v@);
    if w.len() == 0 {
        None
    } else {
        Some(String::from_str(rest.substring_char(w[0].0, w[0].1)))
    }
}

impl Scan {
    /// Feed one raw line to the scan.
    fn step(&mut self, raw: &str)
        requires
            !old(self).done,
            -0x4000_0000_0000_0000 <= old(self).depth <= 0x4000_0000_0000_0000,
            raw@.len() <= 0x3fff_ffff_ffff_ffff,
        ensures
            final(self)@ == scan_step(old(self)@, raw@),
            old(self).depth - raw@.len() <= final(self).depth <= old(self).depth + raw@.len(),
    {
        let v = chars_of(raw);
        let (a, b) = trim_range(&v, 0, v.len());
        assert(v@.subrange(0, v@.len() as int) == v@);
        let line = raw.substring_char(a, b);
        proof {
            lemma_brace_count_bound(line@);
        }
        if b == a || v[a] == '#' {
            return;
        }
        assert(line@[0] == v@[a as int]);
        if !self.started {
            let fw = first_word(line);
            proof {
                reveal_strlit("menuentry");
                reveal_strlit("submenu");
            }
            if str_eq(fw, "menuentry") || str_eq(fw, "submenu") {
                self.started = true;
                self.depth = self.depth + count_braces(line);
                self.saw_open = self.depth > 0;
            }
            return;
        }
        if self.kernel.is_none() {
            let kws = ["linux", "linux16", "linuxefi"];
            let ks = kws.as_slice();
            assert(ks@ == linux_kws());
            if let Some(rest) = strip_kw(line, ks) {
                let (path, args) = split_kernel(rest);
                if !path.as_str().is_empty() {
                    self.kernel = Some((path, args));
                }
            }
        }
        if self.initrd.is_none() {
            let kws = ["initrd", "initrd16", "initrdefi"];
            let ks = kws.as_slice();
            assert(ks@ == initrd_kws());
            if let Some(rest) = strip_kw(line, ks) {
                if let Some(p) = first_path(rest) {
                    self.initrd = Some(p);
                }
            }
        }
        self.depth = self.depth + count_braces(line);
        self.saw_open = self.saw_open || self.depth > 0;
        self.done = (self.saw_open && self.depth <= 0) || (self.kernel.is_some()
            && self.initrd.is_some());
    }
}

/// Extract the first bootable menuentry's kernel, first initrd and command
/// line, with `${iso_path}` (and `$iso_path`) replaced by `iso_path`.
/// `None` when the first entry has no `linux` or no `initrd` line.
pub fn parse_first_menuentry(cfg: &str, iso_path: &str) -> (r: Option<LoopbackEntry>)
    requires
        cfg@.len() <= 0x3fff_ffff_ffff_ffff,
    ensures
        match r {
            Some(e) => first_menuentry(cfg@, iso_path@) == Some(e@),
            None => first_menuentry(cfg@, iso_path@) is None,
        },
{
    let cv = chars_of(cfg);
    let mut st = Scan {
        started: false,
        depth: 0,
        saw_open: false,
        kernel: None,
        initrd: None,
        done: false,
    };
    let mut i: usize = 0;
    assert(cv@.subrange(0, cv@.len() as int) == cv@);
    loop
        invariant_except_break
            i <= cv@.len(),
            cv@ == cfg@,
            cv@.len() <= 0x3fff_ffff_ffff_ffff,
            -(i as int) <= st.depth <= i,
            !st.done,
            scan_lines(initial_scan(), split_lines(cfg@)) == scan_lines(
                st@,
                split_lines(cv@.subrange(i as int, cv@.len() as int)),
            ),
        ensures
            scan_lines(initial_scan(), split_lines(cfg@)) == st@,
        decreases cv@.len() - i,
    {
        let ghost rest = cv@.subrange(i as int, cv@.len() as int);
        proof {
            lemma_first_index(rest, '\n');
        }
        let ghost lines = split_lines(rest);
        let found = find_char(&cv, i, cv.len(), '\n');
        let hi = match found {
            Some(k) => {
                assert(rest.subrange(0, k as int) == cv@.subrange(i as int, i + k));
                assert(rest.subrange(k + 1, rest.len() as int) == cv@.subrange(
                    i + k + 1,
                    cv@.len() as int,
                ));
                assert(lines[0] == cv@.subrange(i as int, i + k));
                assert(lines.drop_first() == split_lines(
                    cv@.subrange(i + k + 1, cv@.len() as int),
                ));
                i + k
            },
            None => {
                assert(lines == seq![rest]);
                assert(lines.drop_first() =~= Seq::<Seq<char>>::empty());
                cv.len()
            },
        };
        let raw = cfg.substring_char(i, hi);
        st.step(raw);
        if st.done {
            proof {
                lemma_scan_done(st@, lines.drop_first());
            }
            break;
        }
        if found.is_none() {
            assert(scan_lines(st@, lines.drop_first()) == st@);
            break;
        }
        i = hi + 1;
    }
    let Scan { kernel, initrd, .. } = st;
    match (kernel, initrd) {
        (Some((k, a)), Some(p)) => {
            let options = substitute_iso_path(a.as_str(), iso_path);
            Some(LoopbackEntry { kernel: k, initrd: p, options })
        },
        _ => None,
    }
}

} // verus!
