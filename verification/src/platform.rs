//! Small decoders of platform identity: the btrfs UUID text form, ZFS
//! path components and dataset labels, the hypervisor vendor signature
//! and the known-quirky firmware list.
use vstd::prelude::*;
use vstd::string::StringSliceAdditionalSpecFns;

use crate::bls_parse::lower_all;
use crate::fs_types::{hex_lower, split_on, uuid_text, uuid_text_prefix, Path, Uuid};
use crate::text::{chars_of, find_char, first_index, lemma_first_index, push_char, string_of, string_of_range, str_eq};

verus! {

/// The value of an ASCII hexadecimal digit byte.
pub open spec fn nibble(b: u8) -> Option<u8> {
    if 48 <= b <= 57 {
        Some((b - 48) as u8)
    } else if 97 <= b <= 102 {
        Some((b - 97 + 10) as u8)
    } else if 65 <= b <= 70 {
        Some((b - 65 + 10) as u8)
    } else {
        None
    }
}

/// The value of a hexadecimal digit byte, `None` for any other byte.
pub fn hex_nibble(b: u8) -> (r: Option<u8>)
    ensures
        r == nibble(b),
{
    if 48 <= b && b <= 57 {
        Some(b - 48)
    } else if 97 <= b && b <= 102 {
        Some(b - 97 + 10)
    } else if 65 <= b && b <= 70 {
        Some(b - 65 + 10)
    } else {
        None
    }
}

/// The value of an ASCII hexadecimal digit character.
pub open spec fn char_nibble(c: char) -> Option<u8> {
    if (c as u32) < 128 {
        nibble(c as u8)
    } else {
        None
    }
}

/// The dash positions of the canonical `8-4-4-4-12` UUID text.
pub open spec fn uuid_dash(i: int) -> bool {
    i == 8 || i == 13 || i == 18 || i == 23
}

/// Position in the canonical text of the `k`-th of its 32 hex digits.
pub open spec fn hex_pos(k: int) -> int {
    k + (if k >= 8 { 1int } else { 0 }) + (if k >= 12 { 1int } else { 0 }) + (if k >= 16 {
        1int
    } else {
        0
    }) + (if k >= 20 { 1int } else { 0 })
}

/// Text in the canonical `8-4-4-4-12` form: 36 characters, dashes at the
/// four group boundaries and hexadecimal digits (either case) elsewhere.
pub open spec fn uuid_shaped(t: Seq<char>) -> bool {
    &&& t.len() == 36
    &&& forall|i: int|
        0 <= i < 36 ==> if uuid_dash(i) {
            #[trigger] t[i] == '-'
        } else {
            char_nibble(t[i]) is Some
        }
}

/// The 16 bytes the hex digits of canonical text spell, two per byte.
pub open spec fn uuid_value(t: Seq<char>) -> Seq<u8> {
    Seq::new(
        16,
        |j: int|
            (char_nibble(t[hex_pos(2 * j)])->0 * 16 + char_nibble(t[hex_pos(2 * j + 1)])->0) as u8,
    )
}

/// What parsing UUID text gives: its bytes when it has the canonical form,
/// `None` on any departure from it.
pub open spec fn uuid_parse(t: Seq<char>) -> Option<Seq<u8>> {
    if uuid_shaped(t) {
        Some(uuid_value(t))
    } else {
        None
    }
}

fn char_hex(c: char) -> (r: Option<u8>)
    ensures
        r == char_nibble(c),
{
    let code = c as u32;
    if code < 128 {
        hex_nibble(code as u8)
    } else {
        None
    }
}

fn hex_pos_exec(k: usize) -> (r: usize)
    requires
        k < 32,
    ensures
        r == hex_pos(k as int),
        r < 36,
        !uuid_dash(r as int),
{
    let mut p = k;
    if k >= 8 {
        p += 1;
    }
    if k >= 12 {
        p += 1;
    }
    if k >= 16 {
        p += 1;
    }
    if k >= 20 {
        p += 1;
    }
    p
}

/// Parse the canonical `8-4-4-4-12` text form of a btrfs UUID back to its
/// 16 bytes; `None` on any format violation.
pub fn parse_btrfs_uuid_string(s: &str) -> (r: Option<Uuid>)
    ensures
        match r {
            Some(u) => uuid_parse(s@) == Some(u.0@),
            None => uuid_parse(s@) is None,
        },
{
    let t = chars_of(s);
    if t.len() != 36 {
        return None;
    }
    let mut i: usize = 0;
    while i < 36
        invariant
            t@ == s@,
            t@.len() == 36,
            i <= 36,
            forall|k: int|
                0 <= k < i ==> if uuid_dash(k) {
                    #[trigger] t@[k] == '-'
                } else {
                    char_nibble(t@[k]) is Some
                },
        decreases 36 - i,
    {
        if i == 8 || i == 13 || i == 18 || i == 23 {
            if t[i] != '-' {
                assert(!uuid_shaped(s@));
                return None;
            }
        } else if char_hex(t[i]).is_none() {
            assert(!uuid_shaped(s@));
            return None;
        }
        i += 1;
    }
    assert(uuid_shaped(s@));
    let mut bytes = [0u8; 16];
    let mut j: usize = 0;
    while j < 16
        invariant
            t@ == s@,
            uuid_shaped(s@),
            j <= 16,
            bytes@.len() == 16,
            forall|m: int| 0 <= m < j ==> bytes@[m] == uuid_value(s@)[m],
        decreases 16 - j,
    {
        let p = hex_pos_exec(2 * j);
        let q = hex_pos_exec(2 * j + 1);
        let hi = char_hex(t[p]).unwrap();
        let lo = char_hex(t[q]).unwrap();
        assert(hi < 16 && lo < 16);
        bytes[j] = hi * 16 + lo;
        j += 1;
    }
    assert(bytes@ =~= uuid_value(s@));
    Some(Uuid(bytes))
}


proof fn lemma_hex_lower_nibble(v: int)
    requires
        0 <= v < 16,
    ensures
        char_nibble(hex_lower(v)) == Some(v as u8),
{
}

/// Dashes before byte `n` of the canonical text.
spec fn dashes_before(n: int) -> int {
    (if n > 4 { 1int } else { 0 }) + (if n > 6 { 1int } else { 0 }) + (if n > 8 { 1int } else { 0 })
        + (if n > 10 { 1int } else { 0 })
}

proof fn lemma_text_prefix(b: Seq<u8>, n: int)
    requires
        b.len() == 16,
        0 <= n <= 16,
    ensures
        uuid_text_prefix(b, n).len() == 2 * n + dashes_before(n),
        forall|k: int|
            0 <= k < n ==> #[trigger] uuid_text_prefix(b, n)[hex_pos(2 * k)] == hex_lower(
                (b[k] / 16) as int,
            ) && uuid_text_prefix(b, n)[hex_pos(2 * k + 1)] == hex_lower((b[k] % 16) as int),
        forall|i: int|
            0 <= i < uuid_text_prefix(b, n).len() ==> if uuid_dash(i) {
                #[trigger] uuid_text_prefix(b, n)[i] == '-'
            } else {
                char_nibble(uuid_text_prefix(b, n)[i]) is Some
            },
    decreases n,
{
    if n > 0 {
        let k = n - 1;
        lemma_text_prefix(b, k);
        lemma_hex_lower_nibble((b[k] / 16) as int);
        lemma_hex_lower_nibble((b[k] % 16) as int);
        let p = uuid_text_prefix(b, k);
        let t = uuid_text_prefix(b, n);
        let dash: Seq<char> = if k == 4 || k == 6 || k == 8 || k == 10 {
            seq!['-']
        } else {
            seq![]
        };
        assert(t == p + dash + seq![hex_lower((b[k] / 16) as int), hex_lower((b[k] % 16) as int)]);
        assert forall|j: int| 0 <= j < n implies #[trigger] t[hex_pos(2 * j)] == hex_lower(
            (b[j] / 16) as int,
        ) && t[hex_pos(2 * j + 1)] == hex_lower((b[j] % 16) as int) by {
            if j < k {
                assert(p[hex_pos(2 * j)] == hex_lower((b[j] / 16) as int));
            }
        }
        assert forall|i: int| 0 <= i < t.len() implies if uuid_dash(i) {
            #[trigger] t[i] == '-'
        } else {
            char_nibble(t[i]) is Some
        } by {
            if i < p.len() {
                assert(t[i] == p[i]);
            }
        }
    }
}

/// Parsing the canonical text of a UUID's 16 bytes gives those bytes back.
pub proof fn uuid_text_roundtrip(b: Seq<u8>)
    requires
        b.len() == 16,
    ensures
        uuid_parse(uuid_text(b)) == Some(b),
{
    lemma_text_prefix(b, 16);
    let t = uuid_text(b);
    assert(uuid_shaped(t));
    assert forall|j: int| 0 <= j < 16 implies #[trigger] uuid_value(t)[j] == b[j] by {
        lemma_hex_lower_nibble((b[j] / 16) as int);
        lemma_hex_lower_nibble((b[j] % 16) as int);
        assert(t[hex_pos(2 * j)] == hex_lower((b[j] / 16) as int));
    }
    assert(uuid_value(t) =~= b);
}

/// The components of a path: its `/`-separated pieces without empty and
/// `.` pieces.
pub open spec fn path_components(p: Seq<char>) -> Seq<Seq<char>> {
    split_on(p, '/').filter(|c: Seq<char>| c.len() > 0 && c != seq!['.'])
}

/// The components of a dataset path (`/BOOT//x` and `/BOOT/x` alike; `/`
/// has none).
#[verifier::rlimit(40)]
pub fn components(path: &Path) -> (r: Vec<String>)
    ensures
        r@.map_values(|s: String| s@) == path_components(path.0@),
{
    let v = chars_of(path.0);
    let n = v.len();
    let mut out: Vec<String> = Vec::new();
    let mut i: usize = 0;
    let ghost all = split_on(v@, '/');
    assert(v@.subrange(0, n as int) == v@);
    loop
        invariant_except_break
            i <= n,
            n == v@.len(),
            v@ == path.0@,
            path_components(path.0@) == out@.map_values(|s: String| s@) + split_on(
                v@.subrange(i as int, n as int),
                '/',
            ).filter(|c: Seq<char>| c.len() > 0 && c != seq!['.']),
        ensures
            path_components(path.0@) == out@.map_values(|s: String| s@),
        decreases n - i,
    {
        let ghost rest = v@.subrange(i as int, n as int);
        proof {
            lemma_first_index(rest, '/');
        }
        let ghost segs = split_on(rest, '/');
        let found = find_char(&v, i, n, '/');
        let end = match found {
            Some(k) => {
                assert(rest.subrange(0, k as int) == v@.subrange(i as int, i + k));
                assert(rest.subrange(k + 1, rest.len() as int) == v@.subrange(i + k + 1, n as int));
                assert(segs == seq![rest.subrange(0, k as int)] + split_on(
                    rest.subrange(k + 1, rest.len() as int),
                    '/',
                ));
                i + k
            },
            None => n,
        };
        let ghost seg = v@.subrange(i as int, end as int);
        let ghost pred = |c: Seq<char>| c.len() > 0 && c != seq!['.'];
        proof {
            assert(segs[0] == seg);
            let tail = segs.drop_first();
            assert(segs == seq![seg] + tail);
            Seq::filter_distributes_over_add(seq![seg], tail, pred);
            let e = Seq::<Seq<char>>::empty();
            assert(seq![seg] =~= e.push(seg));
            e.lemma_filter_push(seg, pred);
            assert(e.filter(pred) =~= e) by {
                reveal(Seq::filter);
            }
        }
        let is_dot = end - i == 1 && v[i] == '.';
        proof {
            if seg == seq!['.'] {
                assert(seg[0] == v@[i as int]);
            }
            if is_dot {
                assert(seg =~= seq!['.']);
            }
        }
        let ghost before = out@.map_values(|s: String| s@);
        if end > i && !is_dot {
            out.push(string_of_range(&v, i, end));
            assert(out@.map_values(|s: String| s@) =~= before.push(seg));
        }
        match found {
            None => {
                assert(segs.drop_first() =~= Seq::<Seq<char>>::empty());
                assert(Seq::<Seq<char>>::empty().filter(pred) =~= Seq::<Seq<char>>::empty()) by {
                    reveal(Seq::filter);
                }
                break;
            },
            Some(_) => {},
        }
        i = end + 1;
    }
    out
}

/// `parts` joined with `/`.
pub open spec fn join_slash(parts: Seq<Seq<char>>) -> Seq<char>
    decreases parts.len(),
{
    if parts.len() == 0 {
        Seq::empty()
    } else if parts.len() == 1 {
        parts[0]
    } else {
        join_slash(parts.drop_last()) + seq!['/'] + parts.last()
    }
}

/// The volume label of a dataset: the pool name for the root dataset, else
/// the dataset path joined with `/`.
pub fn dataset_label(pool_name: &str, dataset: &[String]) -> (r: String)
    ensures
        r@ == if dataset@.len() == 0 {
            pool_name@
        } else {
            join_slash(dataset@.map_values(|s: String| s@))
        },
{
    if dataset.len() == 0 {
        return String::from_str(pool_name);
    }
    let ghost parts = dataset@.map_values(|s: String| s@);
    let mut out: Vec<char> = Vec::new();
    let mut i: usize = 0;
    while i < dataset.len()
        invariant
            i <= dataset@.len(),
            parts == dataset@.map_values(|s: String| s@),
            out@ == join_slash(parts.subrange(0, i as int)),
        decreases dataset@.len() - i,
    {
        if i > 0 {
            out.push('/');
        }
        let cv = chars_of(dataset[i].as_str());
        let ghost base = out@;
        let mut k: usize = 0;
        while k < cv.len()
            invariant
                k <= cv@.len(),
                out@ == base + cv@.subrange(0, k as int),
            decreases cv@.len() - k,
        {
            out.push(cv[k]);
            assert(cv@.subrange(0, k + 1) == cv@.subrange(0, k as int).push(cv@[k as int]));
            k += 1;
        }
        assert(cv@.subrange(0, cv@.len() as int) == cv@);
        proof {
            let pre = parts.subrange(0, i + 1);
            assert(pre.drop_last() =~= parts.subrange(0, i as int));
            assert(pre.last() == cv@);
            if i == 0 {
                assert(out@ =~= cv@);
            }
        }
        i += 1;
    }
    assert(parts.subrange(0, parts.len() as int) =~= parts);
    string_of(&out)
}

/// Hypervisor detection result.
#[derive(Debug, Clone)]
pub struct HypervisorInfo {
    pub present: bool,
    pub name: Option<String>,
}

pub open spec fn sig_bytes(s: Seq<char>) -> Seq<u8> {
    s.map_values(|c: char| (c as u32) as u8)
}

/// The vendor name of a 12-byte CPUID hypervisor signature (EBX, ECX, EDX
/// in little-endian order): the known vendors by name, else the signature
/// as text without trailing NULs, `None` when that is empty; text that is
/// not UTF-8 reads as `unknown`.
pub open spec fn hypervisor_name(sig: Seq<u8>) -> Option<Seq<char>> {
    if sig == sig_bytes(seq!['K', 'V', 'M', 'K', 'V', 'M', 'K', 'V', 'M', '\0', '\0', '\0']) {
        Some(seq!['K', 'V', 'M'])
    } else if sig == sig_bytes(seq!['M', 'i', 'c', 'r', 'o', 's', 'o', 'f', 't', ' ', 'H', 'v']) {
        Some(seq!['H', 'y', 'p', 'e', 'r', '-', 'V'])
    } else if sig == sig_bytes(seq!['V', 'M', 'w', 'a', 'r', 'e', 'V', 'M', 'w', 'a', 'r', 'e']) {
        Some(seq!['V', 'M', 'w', 'a', 'r', 'e'])
    } else if sig == sig_bytes(seq!['X', 'e', 'n', 'V', 'M', 'M', 'X', 'e', 'n', 'V', 'M', 'M']) {
        Some(seq!['X', 'e', 'n'])
    } else if sig == sig_bytes(seq![' ', 'l', 'r', 'p', 'e', 'p', 'y', 'h', ' ', '\0', '\0', '\0']) {
        Some(seq!['P', 'a', 'r', 'a', 'l', 'l', 'e', 'l', 's'])
    } else if sig == sig_bytes(seq!['V', 'B', 'o', 'x', 'V', 'B', 'o', 'x', 'V', 'B', 'o', 'x']) {
        Some(seq!['V', 'i', 'r', 't', 'u', 'a', 'l', 'B', 'o', 'x'])
    } else {
        let text = if vstd::utf8::valid_utf8(sig) {
            crate::fw_cfg::trim_nuls(vstd::utf8::decode_utf8(sig))
        } else {
            seq!['u', 'n', 'k', 'n', 'o', 'w', 'n']
        };
        if text.len() == 0 {
            None
        } else {
            Some(text)
        }
    }
}

fn bytes_are(sig: &[u8; 12], lit: &str) -> (r: bool)
    requires
        lit@.len() == 12,
    ensures
        r == (sig@ == sig_bytes(lit@)),
{
    let lv = chars_of(lit);
    let mut k: usize = 0;
    while k < 12
        invariant
            lv@ == lit@,
            lit@.len() == 12,
            sig@.len() == 12,
            k <= 12,
            forall|j: int| 0 <= j < k ==> sig@[j] == #[trigger] sig_bytes(lit@)[j],
        decreases 12 - k,
    {
        let c = lv[k];
        assert(sig_bytes(lit@)[k as int] == (c as u32) as u8);
        if sig[k] != (c as u32) as u8 {
            return false;
        }
        k += 1;
    }
    assert(sig@ =~= sig_bytes(lit@));
    true
}

fn trim_nuls_str(s: &str) -> (r: String)
    ensures
        r@ == crate::fw_cfg::trim_nuls(s@),
{
    let v = chars_of(s);
    let mut end = v.len();
    assert(v@.subrange(0, v@.len() as int) == v@);
    while end > 0 && v[end - 1] == '\0'
        invariant
            v@ == s@,
            end <= v@.len(),
            crate::fw_cfg::trim_nuls(s@) == crate::fw_cfg::trim_nuls(v@.subrange(0, end as int)),
        decreases end,
    {
        assert(v@.subrange(0, end as int).drop_last() == v@.subrange(0, end - 1));
        end -= 1;
    }
    string_of_range(&v, 0, end)
}

/// Name the hypervisor from the CPUID results: `present` is bit 31 of
/// leaf 1's ECX; the name comes from leaf 0x40000000's EBX, ECX, EDX.
pub fn hypervisor_from_cpuid(leaf1_ecx: u32, ebx: u32, ecx: u32, edx: u32) -> (r: HypervisorInfo)
    ensures
        r.present == (leaf1_ecx >= 0x8000_0000),
        !r.present ==> r.name is None,
        r.present ==> crate::bls_parse::opt_view(r.name) == hypervisor_name(
            cpuid_signature(ebx, ecx, edx),
        ),
{
    if leaf1_ecx < 0x8000_0000 {
        return HypervisorInfo { present: false, name: None };
    }
    let sig = signature_of(ebx, ecx, edx);
    proof {
        reveal_strlit("KVMKVMKVM\0\0\0");
        reveal_strlit("Microsoft Hv");
        reveal_strlit("VMwareVMware");
        reveal_strlit("XenVMMXenVMM");
        reveal_strlit(" lrpepyh \0\0\0");
        reveal_strlit("VBoxVBoxVBox");
        reveal_strlit("KVM");
        reveal_strlit("Hyper-V");
        reveal_strlit("VMware");
        reveal_strlit("Xen");
        reveal_strlit("Parallels");
        reveal_strlit("VirtualBox");
        reveal_strlit("unknown");
        assert("KVMKVMKVM\0\0\0"@ =~= seq!['K', 'V', 'M', 'K', 'V', 'M', 'K', 'V', 'M', '\0', '\0', '\0']);
        assert("Microsoft Hv"@ =~= seq!['M', 'i', 'c', 'r', 'o', 's', 'o', 'f', 't', ' ', 'H', 'v']);
        assert("VMwareVMware"@ =~= seq!['V', 'M', 'w', 'a', 'r', 'e', 'V', 'M', 'w', 'a', 'r', 'e']);
        assert("XenVMMXenVMM"@ =~= seq!['X', 'e', 'n', 'V', 'M', 'M', 'X', 'e', 'n', 'V', 'M', 'M']);
        assert(" lrpepyh \0\0\0"@ =~= seq![' ', 'l', 'r', 'p', 'e', 'p', 'y', 'h', ' ', '\0', '\0', '\0']);
        assert("VBoxVBoxVBox"@ =~= seq!['V', 'B', 'o', 'x', 'V', 'B', 'o', 'x', 'V', 'B', 'o', 'x']);
        assert("KVM"@ =~= seq!['K', 'V', 'M']);
        assert("Hyper-V"@ =~= seq!['H', 'y', 'p', 'e', 'r', '-', 'V']);
        assert("VMware"@ =~= seq!['V', 'M', 'w', 'a', 'r', 'e']);
        assert("Xen"@ =~= seq!['X', 'e', 'n']);
        assert("Parallels"@ =~= seq!['P', 'a', 'r', 'a', 'l', 'l', 'e', 'l', 's']);
        assert("VirtualBox"@ =~= seq!['V', 'i', 'r', 't', 'u', 'a', 'l', 'B', 'o', 'x']);
        assert("unknown"@ =~= seq!['u', 'n', 'k', 'n', 'o', 'w', 'n']);
    }
    let name: Option<String> = if bytes_are(&sig, "KVMKVMKVM\0\0\0") {
        Some(String::from_str("KVM"))
    } else if bytes_are(&sig, "Microsoft Hv") {
        Some(String::from_str("Hyper-V"))
    } else if bytes_are(&sig, "VMwareVMware") {
        Some(String::from_str("VMware"))
    } else if bytes_are(&sig, "XenVMMXenVMM") {
        Some(String::from_str("Xen"))
    } else if bytes_are(&sig, " lrpepyh \0\0\0") {
        Some(String::from_str("Parallels"))
    } else if bytes_are(&sig, "VBoxVBoxVBox") {
        Some(String::from_str("VirtualBox"))
    } else {
        let text = match crate::text::str_from_utf8(sig.as_slice()) {
            Some(s) => trim_nuls_str(s),
            None => String::from_str("unknown"),
        };
        if text.as_str().is_empty() {
            None
        } else {
            Some(text)
        }
    };
    HypervisorInfo { present: true, name }
}

pub open spec fn le_bytes(x: u32) -> Seq<u8> {
    seq![(x % 256) as u8, ((x / 256) % 256) as u8, ((x / 65536) % 256) as u8, (x / 16777216) as u8]
}

/// The 12-byte vendor signature: EBX, ECX and EDX in little-endian order.
pub open spec fn cpuid_signature(ebx: u32, ecx: u32, edx: u32) -> Seq<u8> {
    le_bytes(ebx) + le_bytes(ecx) + le_bytes(edx)
}

fn signature_of(ebx: u32, ecx: u32, edx: u32) -> (r: [u8; 12])
    ensures
        r@ == cpuid_signature(ebx, ecx, edx),
{
    let mut sig = [0u8; 12];
    sig[0] = (ebx % 256) as u8;
    sig[1] = ((ebx / 256) % 256) as u8;
    sig[2] = ((ebx / 65536) % 256) as u8;
    sig[3] = (ebx / 16777216) as u8;
    sig[4] = (ecx % 256) as u8;
    sig[5] = ((ecx / 256) % 256) as u8;
    sig[6] = ((ecx / 65536) % 256) as u8;
    sig[7] = (ecx / 16777216) as u8;
    sig[8] = (edx % 256) as u8;
    sig[9] = ((edx / 256) % 256) as u8;
    sig[10] = ((edx / 65536) % 256) as u8;
    sig[11] = (edx / 16777216) as u8;
    assert(sig@ =~= cpuid_signature(ebx, ecx, edx));
    sig
}

/// Workarounds the boot path consults; all off by default.
#[derive(Debug, Clone, Copy, PartialEq, Eq, Structural)]
pub struct FirmwareQuirks {
    /// On this firmware, post-selection console logging and trust-log
    /// flushes hang the FAT driver: they are skipped.
    pub conout_fat_coupling: bool,
}

pub open spec fn asus() -> Seq<char> {
    seq!['A', 'S', 'U', 'S', 'T', 'e', 'K', ' ', 'C', 'O', 'M', 'P', 'U', 'T', 'E', 'R', ' ', 'I', 'N', 'C', '.']
}

pub open spec fn g10aj() -> Seq<char> {
    seq!['G', '1', '0', 'A', 'J']
}

/// The quirks of a system by its SMBIOS manufacturer and product: the
/// ASUS G10AJ line (manufacturer matched ignoring ASCII case, product by
/// prefix) couples console output and FAT writes; everything else has no
/// quirks.
pub open spec fn quirks_for(mfr: Option<Seq<char>>, product: Option<Seq<char>>) -> FirmwareQuirks {
    match (mfr, product) {
        (Some(m), Some(p)) => FirmwareQuirks {
            conout_fat_coupling: lower_all(m) == lower_all(asus()) && p.len() >= 5 && p.subrange(0, 5)
                == g10aj(),
        },
        _ => FirmwareQuirks { conout_fat_coupling: false },
    }
}

impl FirmwareQuirks {
    /// No workarounds.
    pub fn none() -> (r: FirmwareQuirks)
        ensures
            !r.conout_fat_coupling,
    {
        FirmwareQuirks { conout_fat_coupling: false }
    }

    /// Detect the quirks of the running firmware from its SMBIOS
    /// manufacturer and product name.
    pub fn detect(manufacturer: &Option<String>, product_name: &Option<String>) -> (r: FirmwareQuirks)
        ensures
            r == quirks_for(
                crate::bls_parse::opt_view(*manufacturer),
                crate::bls_parse::opt_view(*product_name),
            ),
    {
        match (manufacturer, product_name) {
            (Some(m), Some(p)) => {
                proof {
                    reveal_strlit("ASUSTeK COMPUTER INC.");
                    reveal_strlit("G10AJ");
                    assert("ASUSTeK COMPUTER INC."@ =~= asus());
                    assert("G10AJ"@ =~= g10aj());
                }
                let pv = chars_of(p.as_str());
                let mfr_ok = crate::discovery::ascii_eq_ignore_case(m.as_str(), "ASUSTeK COMPUTER INC.");
                assert(pv@.subrange(0, pv@.len() as int) == pv@);
                let prod_ok = crate::text::range_starts_with(&pv, 0, pv.len(), "G10AJ");
                FirmwareQuirks { conout_fat_coupling: mfr_ok && prod_ok }
            },
            _ => FirmwareQuirks { conout_fat_coupling: false },
        }
    }

    /// Compact summary for the trust log: `conout_fat_coupling=true` when
    /// set, else `none`.
    pub fn summary(self) -> (r: String)
        ensures
            r@ == if self.conout_fat_coupling {
                "conout_fat_coupling=true"@
            } else {
                "none"@
            },
    {
        if self.conout_fat_coupling {
            String::from_str("conout_fat_coupling=true")
        } else {
            String::from_str("none")
        }
    }
}

/// A glyph font of the graphical menu.
#[derive(Debug, Clone, Copy, PartialEq, Eq, Structural)]
pub enum Font {
    Small,
    Large,
}

/// Glyph width in pixels: 8 for the small font, 16 for the large one.
pub open spec fn glyph_width(f: Font) -> usize {
    match f {
        Font::Small => 8usize,
        Font::Large => 16usize,
    }
}

impl Font {
    /// Glyph width in pixels.
    pub fn width(self) -> (r: usize)
        ensures
            r == glyph_width(self),
    {
        match self {
            Font::Small => 8,
            Font::Large => 16,
        }
    }
}

/// The short menu label of an icon.
pub open spec fn icon_name(icon: crate::boot_types::Icon) -> Seq<char> {
    match icon {
        crate::boot_types::Icon::Windows => "Win"@,
        crate::boot_types::Icon::Linux => "Linux"@,
        crate::boot_types::Icon::Efi => "EFI"@,
        crate::boot_types::Icon::Recovery => "Rcvr"@,
        crate::boot_types::Icon::Network => "Net"@,
        crate::boot_types::Icon::Tools => "Tool"@,
    }
}

/// The short menu label of an icon.
pub fn icon_label(icon: crate::boot_types::Icon) -> (r: &'static str)
    ensures
        r@ == icon_name(icon),
{
    match icon {
        crate::boot_types::Icon::Windows => "Win",
        crate::boot_types::Icon::Linux => "Linux",
        crate::boot_types::Icon::Efi => "EFI",
        crate::boot_types::Icon::Recovery => "Rcvr",
        crate::boot_types::Icon::Network => "Net",
        crate::boot_types::Icon::Tools => "Tool",
    }
}

/// `text` fitted to `max_pixels` of `font`: unchanged when its byte length
/// fits in `max_pixels / width` characters, else its first
/// `max_pixels / width - 3` characters (none when that is negative)
/// followed by `...`.
pub open spec fn fitted(text: &str, max_pixels: usize, w: usize) -> Seq<char> {
    let max_chars = max_pixels / w;
    if text.spec_bytes().len() <= max_chars {
        text@
    } else {
        let keep = if max_chars >= 3 {
            (max_chars - 3) as int
        } else {
            0
        };
        text@.take(if keep < text@.len() { keep } else { text@.len() as int }) + seq!['.', '.', '.']
    }
}

/// Truncate `text` with an ellipsis to fit `max_pixels` of `font`.
pub fn truncate_to_fit(text: &str, max_pixels: usize, font: Font) -> (r: String)
    ensures
        r@ == fitted(text, max_pixels, glyph_width(font)),
{
    let char_w = font.width();
    let max_chars = max_pixels / char_w;
    if text.as_bytes().len() <= max_chars {
        return String::from_str(text);
    }
    let keep = max_chars.saturating_sub(3);
    let v = chars_of(text);
    let take = if keep < v.len() { keep } else { v.len() };
    let mut out = string_of_range(&v, 0, take);
    push_char(&mut out, '.');
    push_char(&mut out, '.');
    push_char(&mut out, '.');
    assert(v@.subrange(0, take as int) =~= text@.take(take as int));
    out
}

} // verus!
