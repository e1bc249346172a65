//! Initrd auto-discovery: the paths where a kernel's initrd may lie, and
//! which of them is taken given the paths that exist on the volume.
use vstd::prelude::*;
use vstd::string::StrSliceExecFns;

use crate::discovery::last_segment;
use crate::text::{chars_of, last_index, lemma_last_index, range_starts_with, rfind_char, str_eq};

verus! {

/// `s` without the prefix `p`, when it begins with it.
pub open spec fn strip_prefix(s: Seq<char>, p: Seq<char>) -> Option<Seq<char>> {
    if p.len() <= s.len() && s.subrange(0, p.len() as int) == p {
        Some(s.subrange(p.len() as int, s.len() as int))
    } else {
        None
    }
}

/// The version of a kernel path: its file name after `vmlinuz-` or
/// `linux-` (`\boot\vmlinuz-6.12.0-200.fc43.x86_64` gives
/// `6.12.0-200.fc43.x86_64`), else the whole file name.
pub open spec fn kernel_version(path: Seq<char>) -> Seq<char> {
    let f = last_segment(path);
    match strip_prefix(f, "vmlinuz-"@) {
        Some(v) => v,
        None => match strip_prefix(f, "linux-"@) {
            Some(v) => v,
            None => f,
        },
    }
}

/// The directory of a backslash path: what precedes its last `\`, empty
/// when that is at the start or missing.
pub open spec fn directory(path: Seq<char>) -> Seq<char> {
    let i = last_index(path, '\\');
    if i <= 0 {
        Seq::empty()
    } else {
        path.subrange(0, i)
    }
}

/// Extract the version string from a kernel path.
pub fn extract_kernel_version(path: &str) -> (r: &str)
    ensures
        r@ == kernel_version(path@),
{
    let v = chars_of(path);
    let n = v.len();
    assert(v@.subrange(0, n as int) == v@);
    proof {
        lemma_last_index(v@, '\\');
    }
    let start = match rfind_char(&v, 0, n, '\\') {
        Some(i) => i + 1,
        None => 0,
    };
    assert(v@.subrange(start as int, n as int) == last_segment(path@));
    proof {
        reveal_strlit("vmlinuz-");
        reveal_strlit("linux-");
    }
    let ghost f = v@.subrange(start as int, n as int);
    if range_starts_with(&v, start, n, "vmlinuz-") {
        assert(f.subrange(0, 8) =~= v@.subrange(start as int, start + 8));
        assert(f.subrange(8, f.len() as int) =~= v@.subrange(start + 8, n as int));
        return path.substring_char(start + 8, n);
    }
    proof {
        if 8 <= f.len() && f.subrange(0, 8) == "vmlinuz-"@ {
            assert(f.subrange(0, 8) =~= v@.subrange(start as int, start + 8));
        }
    }
    if range_starts_with(&v, start, n, "linux-") {
        assert(f.subrange(0, 6) =~= v@.subrange(start as int, start + 6));
        assert(f.subrange(6, f.len() as int) =~= v@.subrange(start + 6, n as int));
        return path.substring_char(start + 6, n);
    }
    proof {
        if 8 <= f.len() && f.subrange(0, 8) == "vmlinuz-"@ {
            assert(f.subrange(0, 8) =~= v@.subrange(start as int, start + 8));
        }
        if 6 <= f.len() && f.subrange(0, 6) == "linux-"@ {
            assert(f.subrange(0, 6) =~= v@.subrange(start as int, start + 6));
        }
    }
    path.substring_char(start, n)
}

/// Extract the directory part of a backslash path.
pub fn extract_directory(path: &str) -> (r: &str)
    ensures
        r@ == directory(path@),
{
    let v = chars_of(path);
    let n = v.len();
    assert(v@.subrange(0, n as int) == v@);
    proof {
        lemma_last_index(v@, '\\');
        reveal_strlit("");
    }
    match rfind_char(&v, 0, n, '\\') {
        None => "",
        Some(0) => "",
        Some(pos) => path.substring_char(0, pos),
    }
}

/// The microcode candidates of a kernel directory, in order.
pub open spec fn ucode_candidates(dir: Seq<char>) -> Seq<Seq<char>> {
    seq![dir + "\\intel-ucode.img"@, dir + "\\amd-ucode.img"@]
}

/// The main initrd candidates of a kernel, in priority order.
pub open spec fn initrd_patterns(dir: Seq<char>, v: Seq<char>) -> Seq<Seq<char>> {
    seq![
        dir + "\\initramfs-"@ + v + ".img"@,
        dir + "\\initrd.img-"@ + v,
        dir + "\\initrd-"@ + v,
        dir + "\\initramfs-"@ + v + "-fallback.img"@,
        "\\boot\\initramfs-"@ + v + ".img"@,
        "\\boot\\initrd.img-"@ + v,
        "\\boot\\initrd-"@ + v,
        "\\initramfs-"@ + v + ".img"@,
        "\\initrd.img-"@ + v,
    ]
}

/// Whether `p` is among the existing paths.
pub open spec fn exists_in(p: Seq<char>, existing: Seq<Seq<char>>) -> bool {
    existing.contains(p)
}

/// Index of the first candidate that exists, or `-1`.
pub open spec fn first_existing(cands: Seq<Seq<char>>, existing: Seq<Seq<char>>, i: int) -> int
    decreases cands.len() - i,
{
    if i < 0 || i >= cands.len() {
        -1
    } else if exists_in(cands[i], existing) {
        i
    } else {
        first_existing(cands, existing, i + 1)
    }
}

/// The initrds found for a kernel: the first existing microcode image,
/// then the first existing main initrd; for an Arch kernel (`linux` or
/// `linux-*`) without one, `initramfs-linux.img` in its directory when it
/// exists.
pub open spec fn found_initrds(kernel: Seq<char>, existing: Seq<Seq<char>>) -> Seq<Seq<char>> {
    let dir = directory(kernel);
    let v = kernel_version(kernel);
    let u = first_existing(ucode_candidates(dir), existing, 0);
    let pre = if u >= 0 {
        seq![ucode_candidates(dir)[u]]
    } else {
        Seq::empty()
    };
    let m = first_existing(initrd_patterns(dir, v), existing, 0);
    if m >= 0 {
        pre.push(initrd_patterns(dir, v)[m])
    } else if (v == "linux"@ || strip_prefix(v, "linux-"@) is Some) && exists_in(
        dir + "\\initramfs-linux.img"@,
        existing,
    ) {
        pre.push(dir + "\\initramfs-linux.img"@)
    } else {
        pre
    }
}

pub open spec fn str_views(v: Seq<String>) -> Seq<Seq<char>> {
    v.map_values(|s: String| s@)
}

/// The concatenation of `parts`.
pub open spec fn concat_all(parts: Seq<Seq<char>>) -> Seq<char>
    decreases parts.len(),
{
    if parts.len() == 0 {
        Seq::empty()
    } else {
        concat_all(parts.drop_last()) + parts.last()
    }
}

fn concat(parts: &[&str]) -> (r: String)
    ensures
        r@ == concat_all(parts@.map_values(|p: &str| p@)),
{
    let mut out: Vec<char> = Vec::new();
    let mut i: usize = 0;
    while i < parts.len()
        invariant
            i <= parts@.len(),
            out@ == concat_all(parts@.subrange(0, i as int).map_values(|p: &str| p@)),
        decreases parts@.len() - i,
    {
        let pv = chars_of(parts[i]);
        let ghost base = out@;
        let mut k: usize = 0;
        while k < pv.len()
            invariant
                k <= pv@.len(),
                out@ == base + pv@.subrange(0, k as int),
            decreases pv@.len() - k,
        {
            out.push(pv[k]);
            assert(pv@.subrange(0, k + 1) == pv@.subrange(0, k as int).push(pv@[k as int]));
            k += 1;
        }
        proof {
            assert(pv@.subrange(0, pv@.len() as int) == pv@);
            let pre = parts@.subrange(0, i as int).map_values(|p: &str| p@);
            let pre1 = parts@.subrange(0, i + 1).map_values(|p: &str| p@);
            assert(pre1.drop_last() =~= pre);
            assert(pre1.last() == pv@);
        }
        i += 1;
    }
    assert(parts@.subrange(0, parts@.len() as int) == parts@);
    crate::text::string_of(&out)
}

proof fn lemma_concat2(a: Seq<char>, b: Seq<char>)
    ensures
        concat_all(seq![a, b]) == a + b,
{
    let e = Seq::<Seq<char>>::empty();
    assert(seq![a, b].drop_last() =~= seq![a]);
    assert(seq![a].drop_last() =~= e);
    assert(concat_all(e) == Seq::<char>::empty());
    assert(concat_all(seq![a]) == concat_all(e) + a);
    assert(Seq::<char>::empty() + a =~= a);
    assert(concat_all(seq![a, b]) == concat_all(seq![a]) + b);
}

proof fn lemma_concat3(a: Seq<char>, b: Seq<char>, c: Seq<char>)
    ensures
        concat_all(seq![a, b, c]) == a + b + c,
{
    assert(seq![a, b, c].drop_last() =~= seq![a, b]);
    lemma_concat2(a, b);
}

proof fn lemma_concat4(a: Seq<char>, b: Seq<char>, c: Seq<char>, d: Seq<char>)
    ensures
        concat_all(seq![a, b, c, d]) == a + b + c + d,
{
    assert(seq![a, b, c, d].drop_last() =~= seq![a, b, c]);
    lemma_concat3(a, b, c);
}

fn join2(a: &str, b: &str) -> (r: String)
    ensures
        r@ == a@ + b@,
{
    let parts = [a, b];
    assert(parts@.map_values(|p: &str| p@) =~= seq![a@, b@]);
    proof {
        lemma_concat2(a@, b@);
    }
    concat(parts.as_slice())
}

fn join3(a: &str, b: &str, c: &str) -> (r: String)
    ensures
        r@ == a@ + b@ + c@,
{
    let parts = [a, b, c];
    assert(parts@.map_values(|p: &str| p@) =~= seq![a@, b@, c@]);
    proof {
        lemma_concat3(a@, b@, c@);
    }
    concat(parts.as_slice())
}

fn join4(a: &str, b: &str, c: &str, d: &str) -> (r: String)
    ensures
        r@ == a@ + b@ + c@ + d@,
{
    let parts = [a, b, c, d];
    assert(parts@.map_values(|p: &str| p@) =~= seq![a@, b@, c@, d@]);
    proof {
        lemma_concat4(a@, b@, c@, d@);
    }
    concat(parts.as_slice())
}

fn exists_exec(p: &String, existing: &[String]) -> (r: bool)
    ensures
        r == exists_in(p@, str_views(existing@)),
{
    let mut i: usize = 0;
    while i < existing.len()
        invariant
            i <= existing@.len(),
            forall|j: int| 0 <= j < i ==> existing@[j]@ != p@,
        decreases existing@.len() - i,
    {
        if str_eq(existing[i].as_str(), p.as_str()) {
            assert(str_views(existing@)[i as int] == p@);
            return true;
        }
        i += 1;
    }
    proof {
        if str_views(existing@).contains(p@) {
            let j = choose|j: int| 0 <= j < existing@.len() && #[trigger] str_views(existing@)[j] == p@;
            assert(existing@[j]@ == p@);
        }
    }
    false
}

/// The main initrd candidates of a kernel.
fn patterns_of(dir: &str, v: &str) -> (r: Vec<String>)
    ensures
        str_views(r@) == initrd_patterns(dir@, v@),
{
    let r = vec![
        join4(dir, "\\initramfs-", v, ".img"),
        join3(dir, "\\initrd.img-", v),
        join3(dir, "\\initrd-", v),
        join4(dir, "\\initramfs-", v, "-fallback.img"),
        join3("\\boot\\initramfs-", v, ".img"),
        join2("\\boot\\initrd.img-", v),
        join2("\\boot\\initrd-", v),
        join3("\\initramfs-", v, ".img"),
        join2("\\initrd.img-", v),
    ];
    assert(str_views(r@) =~= initrd_patterns(dir@, v@));
    r
}

/// Every path `find_initrd` may probe for a kernel, so the caller can
/// check which of them exist.
pub fn initrd_candidates(kernel_path: &str) -> (r: Vec<String>)
    ensures
        str_views(r@) == ucode_candidates(directory(kernel_path@)) + initrd_patterns(
            directory(kernel_path@),
            kernel_version(kernel_path@),
        ) + seq![directory(kernel_path@) + "\\initramfs-linux.img"@],
{
    let version = extract_kernel_version(kernel_path);
    let dir = extract_directory(kernel_path);
    let mut out: Vec<String> = vec![join2(dir, "\\intel-ucode.img"), join2(dir, "\\amd-ucode.img")];
    let ghost u = str_views(out@);
    assert(u =~= ucode_candidates(dir@));
    let mut pats = patterns_of(dir, version);
    let ghost pv = str_views(pats@);
    out.append(&mut pats);
    assert(str_views(out@) =~= u + pv);
    let ghost before = str_views(out@);
    out.push(join2(dir, "\\initramfs-linux.img"));
    assert(str_views(out@) =~= before.push(dir@ + "\\initramfs-linux.img"@));
    out
}

fn first_present(cands: &Vec<String>, existing: &[String]) -> (r: Option<usize>)
    ensures
        match r {
            Some(i) => first_existing(str_views(cands@), str_views(existing@), 0) == i && i
                < cands@.len(),
            None => first_existing(str_views(cands@), str_views(existing@), 0) == -1,
        },
{
    let ghost c = str_views(cands@);
    let mut i: usize = 0;
    while i < cands.len()
        invariant
            i <= cands@.len(),
            c == str_views(cands@),
            first_existing(c, str_views(existing@), 0) == first_existing(
                c,
                str_views(existing@),
                i as int,
            ),
        decreases cands@.len() - i,
    {
        assert(c[i as int] == cands@[i as int]@);
        if exists_exec(&cands[i], existing) {
            return Some(i);
        }
        i += 1;
    }
    None
}

fn copy(s: &String) -> (r: String)
    ensures
        r@ == s@,
{
    String::from_str(s.as_str())
}

/// The initrds of a kernel, given the paths that exist on its volume: the
/// first existing microcode image, then the first existing main initrd
/// (with an Arch-kernel fallback to `initramfs-linux.img`).
pub fn find_initrd(kernel_path: &str, existing: &[String]) -> (r: Vec<String>)
    ensures
        str_views(r@) == found_initrds(kernel_path@, str_views(existing@)),
{
    let version = extract_kernel_version(kernel_path);
    let dir = extract_directory(kernel_path);
    let ucodes: Vec<String> = vec![join2(dir, "\\intel-ucode.img"), join2(dir, "\\amd-ucode.img")];
    assert(str_views(ucodes@) =~= ucode_candidates(dir@));
    let mut found: Vec<String> = Vec::new();
    if let Some(i) = first_present(&ucodes, existing) {
        found.push(copy(&ucodes[i]));
    }
    let ghost pre = str_views(found@);
    assert(pre =~= (if first_existing(ucode_candidates(dir@), str_views(existing@), 0) >= 0 {
        seq![ucode_candidates(dir@)[first_existing(ucode_candidates(dir@), str_views(existing@), 0)]]
    } else {
        Seq::<Seq<char>>::empty()
    }));
    let pats = patterns_of(dir, version);
    if let Some(m) = first_present(&pats, existing) {
        found.push(copy(&pats[m]));
        assert(str_views(found@) =~= pre.push(str_views(pats@)[m as int]));
        return found;
    }
    proof {
        reveal_strlit("linux");
        reveal_strlit("linux-");
    }
    let vv = chars_of(version);
    let is_linux = str_eq(version, "linux");
    assert(vv@.subrange(0, vv@.len() as int) == vv@);
    let arch = is_linux || range_starts_with(&vv, 0, vv.len(), "linux-");
    if arch {
        let arch_initrd = join2(dir, "\\initramfs-linux.img");
        if exists_exec(&arch_initrd, existing) {
            found.push(arch_initrd);
            assert(str_views(found@) =~= pre.push(dir@ + "\\initramfs-linux.img"@));
            return found;
        }
    }
    found
}

} // verus!
