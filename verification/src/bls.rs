//! The volume side of Boot Loader Specification entries: which files of
//! `/loader/entries` are entries, the menu entry of a parsed entry, and the
//! boot-counting rename.
use vstd::prelude::*;

use crate::bls_parse::{
    digits_after, has_extension, has_extension_ignore_case, count_digits_in_filename, join_spaces,
    non_var_paths, opt_view, strings_view, without_grub_vars, BlsEntry, BlsEntryView,
    arch_matches, is_native_architecture, lower_all, parse_result, TargetArch,
};
use crate::boot_types::{BootEntry, BootEntryView, EntryKind, EntryKindView, Icon};
use crate::text::{chars_of, push_char};
use crate::bls_sort::{entry_views, menu_sorted, sort_entries, stable_rearrangement};

verus! {

/// Whether a file of `/loader/entries` is read as an entry: it ends in
/// `.conf` (any case) and is neither hidden (`.`) nor auto-generated
/// (`auto-`).
pub open spec fn entry_file(f: Seq<char>) -> bool {
    &&& has_extension(f, seq!['c', 'o', 'n', 'f'])
    &&& !(f.len() > 0 && f[0] == '.')
    &&& !(f.len() >= 5 && f.subrange(0, 5) == seq!['a', 'u', 't', 'o', '-'])
}

/// Whether `filename` names a BLS entry file.
pub fn is_entry_filename(filename: &str) -> (r: bool)
    ensures
        r == entry_file(filename@),
{
    proof {
        reveal_strlit("conf");
        assert("conf"@ =~= seq!['c', 'o', 'n', 'f']);
    }
    if !has_extension_ignore_case(filename, "conf") {
        return false;
    }
    let v = chars_of(filename);
    if v.len() > 0 && v[0] == '.' {
        return false;
    }
    let auto = v.len() >= 5 && v[0] == 'a' && v[1] == 'u' && v[2] == 't' && v[3] == 'o' && v[4]
        == '-';
    proof {
        if v@.len() >= 5 && v@.subrange(0, 5) == seq!['a', 'u', 't', 'o', '-'] {
            assert(v@.subrange(0, 5)[0] == 'a');
            assert(v@.subrange(0, 5)[1] == 'u');
            assert(v@.subrange(0, 5)[2] == 't');
            assert(v@.subrange(0, 5)[3] == 'o');
            assert(v@.subrange(0, 5)[4] == '-');
        }
        if auto {
            assert(v@.subrange(0, 5) =~= seq!['a', 'u', 't', 'o', '-']);
        }
    }
    !auto
}

/// The decimal digit character of `d` (`0..10`).
pub open spec fn digit_char(d: nat) -> char {
    (48 + d) as char
}

/// Decimal representation of `n`, without leading zeros.
pub open spec fn dec(n: nat) -> Seq<char>
    decreases n,
{
    if n < 10 {
        seq![digit_char(n)]
    } else {
        dec(n / 10).push(digit_char(n % 10))
    }
}

/// `n` in decimal, left-padded with `0` to at least `width` characters.
pub open spec fn padded(n: nat, width: nat) -> Seq<char> {
    let d = dec(n);
    if d.len() >= width {
        d
    } else {
        Seq::new((width - d.len()) as nat, |_i: int| '0') + d
    }
}

/// The decimal digits of `n`.
pub fn decimal_chars(n: u64) -> (r: Vec<char>)
    ensures
        r@ == dec(n as nat),
        r@.len() <= 20,
    decreases n,
{
    if n < 10 {
        let c = ((48 + n) as u8) as char;
        let r = vec![c];
        assert(r@ =~= seq![digit_char(n as nat)]);
        r
    } else {
        let mut r = decimal_chars(n / 10);
        let c = ((48 + n % 10) as u8) as char;
        r.push(c);
        proof {
            lemma_dec_len(n as nat);
        }
        r
    }
}

proof fn lemma_dec_len(n: nat)
    ensures
        n < 10 ==> dec(n).len() == 1,
        n < 100 ==> dec(n).len() <= 2,
        n < 1000 ==> dec(n).len() <= 3,
        n < 10000 ==> dec(n).len() <= 4,
        n < 100000 ==> dec(n).len() <= 5,
        n < 1000000 ==> dec(n).len() <= 6,
        n < 10000000 ==> dec(n).len() <= 7,
        n < 100000000 ==> dec(n).len() <= 8,
        n < 1000000000 ==> dec(n).len() <= 9,
        n < 10000000000 ==> dec(n).len() <= 10,
        n < 100000000000 ==> dec(n).len() <= 11,
        n < 1000000000000 ==> dec(n).len() <= 12,
        n < 10000000000000 ==> dec(n).len() <= 13,
        n < 100000000000000 ==> dec(n).len() <= 14,
        n < 1000000000000000 ==> dec(n).len() <= 15,
        n < 10000000000000000 ==> dec(n).len() <= 16,
        n < 100000000000000000 ==> dec(n).len() <= 17,
        n < 1000000000000000000 ==> dec(n).len() <= 18,
        n < 10000000000000000000 ==> dec(n).len() <= 19,
        n < 100000000000000000000 ==> dec(n).len() <= 20,
    decreases n,
{
    if n >= 10 {
        lemma_dec_len(n / 10);
    }
}

pub(crate) fn push_padded(out: &mut Vec<char>, n: u32, width: usize)
    ensures
        final(out)@ == old(out)@ + padded(n as nat, width as nat),
{
    let d = decimal_chars(n as u64);
    let ghost before = out@;
    if d.len() < width {
        let pad = width - d.len();
        let mut k: usize = 0;
        while k < pad
            invariant
                k <= pad,
                out@ == before + Seq::new(k as nat, |_i: int| '0'),
            decreases pad - k,
        {
            out.push('0');
            assert(Seq::new((k + 1) as nat, |_i: int| '0') =~= Seq::new(k as nat, |_i: int| '0').push(
                '0',
            ));
            k += 1;
        }
    }
    let ghost mid = out@;
    let mut k: usize = 0;
    while k < d.len()
        invariant
            k <= d@.len(),
            out@ == mid + d@.subrange(0, k as int),
        decreases d@.len() - k,
    {
        out.push(d[k]);
        assert(d@.subrange(0, k + 1) == d@.subrange(0, k as int).push(d@[k as int]));
        k += 1;
    }
    assert(d@.subrange(0, d@.len() as int) == d@);
    if d.len() < width {
        assert(out@ =~= before + padded(n as nat, width as nat));
    } else {
        assert(mid == before);
        assert(out@ =~= before + padded(n as nat, width as nat));
    }
}

pub open spec fn max1(w: nat) -> nat {
    if w == 0 {
        1
    } else {
        w
    }
}

/// The entry's filename after one boot attempt: `<id>+<left-1>-<done+1>.conf`,
/// each counter keeping its zero-padded width (at least one digit; a name
/// without a done counter counts as none done, so `+3` becomes `+2-1`).
/// `None` when the entry is not counted or has no tries left.
pub open spec fn decremented_name(e: BlsEntryView) -> Option<Seq<char>> {
    match e.tries_left {
        None => None,
        Some(left) => if left == 0 {
            None
        } else {
            let done: u32 = match e.tries_done {
                Some(d) => d,
                None => 0,
            };
            let new_done: nat = if done == u32::MAX {
                done as nat
            } else {
                (done + 1) as nat
            };
            let lw = digits_after(e.filename, '+');
            let dw = digits_after(e.filename, '-');
            let suffix = seq!['+'] + padded((left - 1) as nat, max1(lw)) + seq!['-'] + padded(
                new_done,
                max1(dw),
            );
            Some(e.id + suffix + seq!['.', 'c', 'o', 'n', 'f'])
        },
    }
}

/// The filename a BLS entry is renamed to when a boot attempt is counted
/// (`entry+3.conf` to `entry+2-1.conf`, `entry+2-1.conf` to
/// `entry+1-2.conf`).
pub fn decremented_filename(entry: &BlsEntry) -> (r: Option<String>)
    ensures
        opt_view(r) == decremented_name(entry@),
{
    let tries_left = match entry.tries_left {
        None => return None,
        Some(t) => t,
    };
    if tries_left == 0 {
        return None;
    }
    let tries_done = match entry.tries_done {
        Some(d) => d,
        None => 0,
    };
    let new_left = tries_left - 1;
    let new_done = tries_done.saturating_add(1);
    let left_width = count_digits_in_filename(entry.filename.as_str(), '+');
    let done_width = count_digits_in_filename(entry.filename.as_str(), '-');
    let lw = if left_width == 0 { 1 } else { left_width };
    let dw = if done_width == 0 { 1 } else { done_width };
    let mut out: Vec<char> = chars_of(entry.id.as_str());
    out.push('+');
    push_padded(&mut out, new_left, lw);
    out.push('-');
    push_padded(&mut out, new_done, dw);
    out.push('.');
    out.push('c');
    out.push('o');
    out.push('n');
    out.push('f');
    let ghost suffix = seq!['+'] + padded(new_left as nat, lw as nat) + seq!['-'] + padded(
        new_done as nat,
        dw as nat,
    );
    assert(out@ =~= entry.id@ + suffix + seq!['.', 'c', 'o', 'n', 'f']);
    Some(crate::text::string_of(&out))
}

/// The `LoaderBootCountPath` value for a renamed entry:
/// `\loader\entries\<name>`.
pub open spec fn count_path(name: Seq<char>) -> Seq<char> {
    seq!['\\', 'l', 'o', 'a', 'd', 'e', 'r', '\\', 'e', 'n', 't', 'r', 'i', 'e', 's', '\\'] + name
}

/// The `LoaderBootCountPath` value for a renamed entry.
pub fn boot_count_path(new_filename: &str) -> (r: String)
    ensures
        r@ == count_path(new_filename@),
{
    let mut out: Vec<char> = vec![
        '\\', 'l', 'o', 'a', 'd', 'e', 'r', '\\', 'e', 'n', 't', 'r', 'i', 'e', 's', '\\',
    ];
    let v = chars_of(new_filename);
    let ghost base = out@;
    let mut i: usize = 0;
    while i < v.len()
        invariant
            i <= v@.len(),
            out@ == base + v@.subrange(0, i as int),
        decreases v@.len() - i,
    {
        out.push(v[i]);
        assert(v@.subrange(0, i + 1) == v@.subrange(0, i as int).push(v@[i as int]));
        i += 1;
    }
    assert(v@.subrange(0, v@.len() as int) == v@);
    assert(out@ =~= count_path(new_filename@));
    crate::text::string_of(&out)
}

/// The menu name of a BLS entry: its title, else `Linux <version>`, else
/// its id.
pub open spec fn menu_name(e: BlsEntryView) -> Seq<char> {
    match e.title {
        Some(t) => t,
        None => match e.version {
            Some(v) => seq!['L', 'i', 'n', 'u', 'x', ' '] + v,
            None => e.id,
        },
    }
}

/// The menu entry of a parsed BLS entry: an EFI entry chainloads, a
/// `linux` entry boots its kernel with the cleaned initrds and options; the
/// id is `bls-<id>` and the source fields are kept.
pub open spec fn bls_boot_entry(e: BlsEntryView) -> BootEntryView {
    let bls_id = seq!['b', 'l', 's', '-'] + e.id;
    match e.efi {
        Some(p) => BootEntryView {
            id: bls_id,
            name: menu_name(e),
            kind: EntryKindView::Chainload(p),
            icon: Icon::Linux,
            bls_filename: Some(e.filename),
            source_volume_index: e.source_volume_index,
            source_backend_tag: e.source_backend_tag,
        },
        None => match e.linux {
            Some(l) => BootEntryView {
                id: bls_id,
                name: menu_name(e),
                kind: EntryKindView::LinuxLegacy(
                    l,
                    non_var_paths(e.initrd),
                    without_grub_vars(join_spaces(e.options)),
                ),
                icon: Icon::Linux,
                bls_filename: Some(e.filename),
                source_volume_index: e.source_volume_index,
                source_backend_tag: e.source_backend_tag,
            },
            None => BootEntryView {
                id: e.id,
                name: menu_name(e),
                kind: EntryKindView::Chainload(Seq::empty()),
                icon: Icon::Linux,
                bls_filename: None,
                source_volume_index: e.source_volume_index,
                source_backend_tag: e.source_backend_tag,
            },
        },
    }
}

fn prefixed(lit: &str, s: &String) -> (r: String)
    ensures
        r@ == lit@ + s@,
{
    let mut out: Vec<char> = chars_of(lit);
    let v = chars_of(s.as_str());
    let ghost base = out@;
    let mut i: usize = 0;
    while i < v.len()
        invariant
            i <= v@.len(),
            out@ == base + v@.subrange(0, i as int),
        decreases v@.len() - i,
    {
        out.push(v[i]);
        assert(v@.subrange(0, i + 1) == v@.subrange(0, i as int).push(v@[i as int]));
        i += 1;
    }
    assert(v@.subrange(0, v@.len() as int) == v@);
    crate::text::string_of(&out)
}

fn copy_string(s: &String) -> (r: String)
    ensures
        r@ == s@,
{
    String::from_str(s.as_str())
}

/// Convert a parsed BLS entry into a menu entry.
pub fn to_boot_entry(entry: &BlsEntry) -> (r: BootEntry)
    ensures
        r@ == bls_boot_entry(entry@),
        r.preflight is None,
{
    proof {
        reveal_strlit("Linux ");
        reveal_strlit("bls-");
        assert("Linux "@ =~= seq!['L', 'i', 'n', 'u', 'x', ' ']);
        assert("bls-"@ =~= seq!['b', 'l', 's', '-']);
    }
    let name = match &entry.title {
        Some(t) => copy_string(t),
        None => match &entry.version {
            Some(v) => prefixed("Linux ", v),
            None => copy_string(&entry.id),
        },
    };
    match &entry.efi {
        Some(p) => BootEntry {
            id: prefixed("bls-", &entry.id),
            name,
            kind: EntryKind::Chainload { path: copy_string(p) },
            icon: Icon::Linux,
            bls_filename: Some(copy_string(&entry.filename)),
            preflight: None,
            source_volume_index: entry.source_volume_index,
            source_backend_tag: entry.source_backend_tag,
        },
        None => match &entry.linux {
            Some(l) => BootEntry {
                id: prefixed("bls-", &entry.id),
                name,
                kind: EntryKind::LinuxLegacy {
                    kernel_path: copy_string(l),
                    initrd_paths: entry.cleaned_initrd(),
                    options: entry.combined_options(),
                },
                icon: Icon::Linux,
                bls_filename: Some(copy_string(&entry.filename)),
                preflight: None,
                source_volume_index: entry.source_volume_index,
                source_backend_tag: entry.source_backend_tag,
            },
            None => BootEntry {
                id: copy_string(&entry.id),
                name,
                kind: EntryKind::Chainload { path: String::new() },
                icon: Icon::Linux,
                bls_filename: None,
                preflight: None,
                source_volume_index: entry.source_volume_index,
                source_backend_tag: entry.source_backend_tag,
            },
        },
    }
}


// ---------------------------------------------------------------------------
// Scanning a volume
// ---------------------------------------------------------------------------

/// What scanning one file of `/loader/entries` gives: nothing unless it is
/// an entry file that parses; then the entry, tagged with the volume it was
/// found on, unless it names an architecture other than `target`.
pub open spec fn scanned_entry(
    filename: Seq<char>,
    content: Seq<char>,
    volume_index: usize,
    tag: Seq<char>,
    target: TargetArch,
) -> Option<BlsEntryView> {
    if !entry_file(filename) {
        None
    } else {
        match parse_result(filename, content) {
            None => None,
            Some(e) => match e.architecture {
                Some(a) if !arch_matches(lower_all(a), target) => None,
                _ => Some(BlsEntryView { source_volume_index: volume_index, source_backend_tag: tag, ..e }),
            },
        }
    }
}

/// The entries scanned from `files` (name, content), in order.
pub open spec fn scanned_entries(
    files: Seq<(Seq<char>, Seq<char>)>,
    volume_index: usize,
    tag: Seq<char>,
    target: TargetArch,
) -> Seq<BlsEntryView>
    decreases files.len(),
{
    if files.len() == 0 {
        seq![]
    } else {
        let rest = scanned_entries(files.drop_last(), volume_index, tag, target);
        match scanned_entry(files.last().0, files.last().1, volume_index, tag, target) {
            Some(e) => rest.push(e),
            None => rest,
        }
    }
}

/// The names of the entry files of `files` that do not parse (no `linux`
/// and no `efi` key), in order.
pub open spec fn invalid_files(files: Seq<(Seq<char>, Seq<char>)>) -> Seq<Seq<char>>
    decreases files.len(),
{
    if files.len() == 0 {
        seq![]
    } else {
        let rest = invalid_files(files.drop_last());
        let (f, c) = files.last();
        if entry_file(f) && parse_result(f, c) is None {
            rest.push(f)
        } else {
            rest
        }
    }
}

/// The files as plain values.
pub open spec fn file_views(files: Seq<(String, String)>) -> Seq<(Seq<char>, Seq<char>)> {
    files.map_values(|f: (String, String)| (f.0@, f.1@))
}

pub open spec fn entries_view(v: Seq<BlsEntry>) -> Seq<BlsEntryView> {
    v.map_values(|e: BlsEntry| e@)
}

/// Scans the files read from one volume's `/loader/entries` (each with its
/// name and text): parses every entry file, tags each entry with the
/// volume's index and backend tag, drops entries for another
/// architecture, and returns the entries in BLS menu order (a stable sort
/// of the scanned entries).  Also returns the names of entry files that
/// did not parse, for the trust log.
pub fn scan_volume_for_bls(
    volume_index: usize,
    backend_tag: &'static str,
    target: TargetArch,
    files: &[(String, String)],
) -> (r: (Vec<BlsEntry>, Vec<String>))
    ensures
        entries_view(r.0@).to_multiset() == scanned_entries(
            file_views(files@),
            volume_index,
            backend_tag@,
            target,
        ).to_multiset(),
        menu_sorted(entries_view(r.0@)),
        exists|idx: Seq<int>|
            stable_rearrangement(
                entries_view(r.0@),
                scanned_entries(file_views(files@), volume_index, backend_tag@, target),
                idx,
            ),
        strings_view(r.1@) == invalid_files(file_views(files@)),
{
    let ghost fv = file_views(files@);
    let mut entries: Vec<BlsEntry> = Vec::new();
    let mut invalid: Vec<String> = Vec::new();
    let mut k: usize = 0;
    while k < files.len()
        invariant
            k <= files@.len(),
            fv == file_views(files@),
            entries_view(entries@) == scanned_entries(
                fv.subrange(0, k as int),
                volume_index,
                backend_tag@,
                target,
            ),
            strings_view(invalid@) == invalid_files(fv.subrange(0, k as int)),
        decreases files@.len() - k,
    {
        let ghost prefix = fv.subrange(0, k + 1);
        assert(prefix.drop_last() =~= fv.subrange(0, k as int));
        assert(prefix.last() == fv[k as int]);
        let ghost ev = entries@;
        let ghost iv = invalid@;
        let filename = files[k].0.as_str();
        let content = files[k].1.as_str();
        if is_entry_filename(filename) {
            match BlsEntry::parse(filename, content) {
                None => {
                    invalid.push(String::from_str(filename));
                    assert(strings_view(invalid@) =~= strings_view(iv).push(filename@));
                },
                Some(mut e) => {
                    e.source_volume_index = volume_index;
                    e.source_backend_tag = backend_tag;
                    let keep = match &e.architecture {
                        Some(a) => is_native_architecture(a.as_str(), target),
                        None => true,
                    };
                    if keep {
                        entries.push(e);
                        assert(entries_view(entries@) =~= entries_view(ev).push(e@));
                    }
                },
            }
        }
        k += 1;
    }
    assert(fv.subrange(0, files@.len() as int) =~= fv);
    let ghost scanned = entries@;
    let sorted = sort_entries(entries);
    assert(entries_view(sorted@) =~= entry_views(sorted@));
    assert(entries_view(scanned) =~= entry_views(scanned));
    (sorted, invalid)
}

/// An entry's initrds after auto-discovery: an entry with a kernel and no
/// `initrd` line takes the initrds found next to its kernel (when any).
pub open spec fn with_discovered(e: BlsEntryView, found: Seq<Seq<char>>) -> BlsEntryView {
    if e.initrd.len() == 0 && e.linux is Some && found.len() > 0 {
        BlsEntryView { initrd: found, ..e }
    } else {
        e
    }
}

/// Gives an entry without `initrd` lines the initrds auto-discovered next
/// to its kernel (see `autodiscovery::find_initrd`).
pub fn adopt_discovered_initrd(entry: &mut BlsEntry, found: Vec<String>)
    ensures
        final(entry)@ == with_discovered(old(entry)@, strings_view(found@)),
{
    if entry.initrd.len() == 0 && entry.linux.is_some() && found.len() > 0 {
        entry.initrd = found;
    }
}

} // verus!
