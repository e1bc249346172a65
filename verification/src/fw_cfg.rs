//! The QEMU fw_cfg device: signature check and file-directory decoding.
//!
//! The device is read through I/O ports by the caller; this module decodes
//! what was read. The file directory (selector `0x0019`) is a big-endian
//! `u32` count followed by 64-byte entries: `u32` size, `u16` selector,
//! `u16` reserved, 56 bytes of NUL-padded UTF-8 name.
use vstd::prelude::*;
use vstd::utf8::{decode_utf8, valid_utf8};

use crate::text::{chars_of, str_eq, str_from_utf8, string_of_range};

verus! {

/// Selector of the signature item.
pub const FW_CFG_SIGNATURE: u16 = 0x0000;

/// Selector of the file directory.
pub const FW_CFG_FILE_DIR: u16 = 0x0019;

/// Size of one file-directory entry.
pub const DIR_ENTRY_BYTES: usize = 64;

/// Most directory entries accepted.
pub const MAX_DIR_ENTRIES: u32 = 1000;

/// Whether the 4 signature bytes spell `QEMU`.
pub fn signature_is_qemu(sig: [u8; 4]) -> (r: bool)
    ensures
        r == (sig@ == seq![0x51u8, 0x45u8, 0x4Du8, 0x55u8]),
{
    let r = sig[0] == 0x51 && sig[1] == 0x45 && sig[2] == 0x4D && sig[3] == 0x55;
    proof {
        if r {
            assert(sig@ =~= seq![0x51u8, 0x45u8, 0x4Du8, 0x55u8]);
        } else if sig@ == seq![0x51u8, 0x45u8, 0x4Du8, 0x55u8] {
            assert(sig@[0] == 0x51u8 && sig@[1] == 0x45u8 && sig@[2] == 0x4Du8 && sig@[3] == 0x55u8);
        }
    }
    r
}

/// A big-endian `u16` from two bytes.
pub fn u16_from_be(hi: u8, lo: u8) -> (r: u16)
    ensures
        r == 256 * hi + lo,
{
    (hi as u16) * 256 + (lo as u16)
}

/// A big-endian `u32` from four bytes.
pub fn u32_from_be(b3: u8, b2: u8, b1: u8, b0: u8) -> (r: u32)
    ensures
        r == 16777216 * b3 + 65536 * b2 + 256 * b1 + b0,
{
    (b3 as u32) * 16777216 + (b2 as u32) * 65536 + (b1 as u32) * 256 + (b0 as u32)
}

/// Whether a directory count is plausible: nonzero and at most 1000.
pub fn dir_count_ok(count: u32) -> (r: bool)
    ensures
        r == (count != 0 && count <= MAX_DIR_ENTRIES),
{
    count != 0 && count <= MAX_DIR_ENTRIES
}

pub open spec fn be32_at(b: Seq<u8>, i: int) -> u32 {
    (16777216 * b[i] + 65536 * b[i + 1] + 256 * b[i + 2] + b[i + 3]) as u32
}

pub open spec fn be16_at(b: Seq<u8>, i: int) -> u16 {
    (256 * b[i] + b[i + 1]) as u16
}

/// `s` without its trailing NUL characters.
pub open spec fn trim_nuls(s: Seq<char>) -> Seq<char>
    decreases s.len(),
{
    if s.len() > 0 && s.last() == '\0' {
        trim_nuls(s.drop_last())
    } else {
        s
    }
}

/// The name in a 56-byte name field: its UTF-8 text without trailing NULs,
/// or the empty string when it is not valid UTF-8.
pub open spec fn entry_name(field: Seq<u8>) -> Seq<char> {
    if valid_utf8(field) {
        trim_nuls(decode_utf8(field))
    } else {
        Seq::empty()
    }
}

/// One decoded directory entry.
pub struct FwCfgFile {
    pub name: String,
    pub size: u32,
    pub select: u16,
}

/// The entry of `dir` at index `k`: (name, size, selector).
pub open spec fn dir_entry(dir: Seq<u8>, k: int) -> (Seq<char>, u32, u16) {
    let off = 64 * k;
    (entry_name(dir.subrange(off + 8, off + 64)), be32_at(dir, off), be16_at(dir, off + 4))
}

fn trim_nuls_exec(s: &str) -> (r: String)
    ensures
        r@ == trim_nuls(s@),
{
    let v = chars_of(s);
    let mut end = v.len();
    assert(v@.subrange(0, v@.len() as int) == v@);
    while end > 0 && v[end - 1] == '\0'
        invariant
            v@ == s@,
            end <= v@.len(),
            trim_nuls(s@) == trim_nuls(v@.subrange(0, end as int)),
        decreases end,
    {
        assert(v@.subrange(0, end as int).drop_last() == v@.subrange(0, end - 1));
        end -= 1;
    }
    assert(v@.subrange(0, v@.len() as int) == v@);
    string_of_range(&v, 0, end)
}

/// Decode the directory entry of `dir` at index `k`.
pub fn parse_dir_entry(dir: &[u8], k: usize) -> (r: FwCfgFile)
    requires
        64 * k + 64 <= dir.len(),
    ensures
        (r.name@, r.size, r.select) == dir_entry(dir@, k as int),
{
    let off = 64 * k;
    let size = u32_from_be(dir[off], dir[off + 1], dir[off + 2], dir[off + 3]);
    let select = u16_from_be(dir[off + 4], dir[off + 5]);
    let mut field: Vec<u8> = Vec::new();
    let mut i: usize = off + 8;
    while i < off + 64
        invariant
            off + 8 <= i <= off + 64,
            off + 64 <= dir.len(),
            field@ == dir@.subrange(off + 8, i as int),
        decreases off + 64 - i,
    {
        field.push(dir[i]);
        assert(dir@.subrange(off + 8, i + 1) == dir@.subrange(off + 8, i as int).push(dir@[i as int]));
        i += 1;
    }
    let name = match str_from_utf8(field.as_slice()) {
        Some(s) => trim_nuls_exec(s),
        None => String::new(),
    };
    FwCfgFile { name, size, select }
}

/// The files of a directory of `count` entries: each non-empty name with
/// its size, in directory order.
pub open spec fn listed_files(dir: Seq<u8>, count: int) -> Seq<(Seq<char>, u32)>
    decreases count,
{
    if count <= 0 {
        Seq::empty()
    } else {
        let prev = listed_files(dir, count - 1);
        let e = dir_entry(dir, count - 1);
        if e.0.len() > 0 {
            prev.push((e.0, e.1))
        } else {
            prev
        }
    }
}

/// List the files of a directory of `count` entries (`dir` holds the
/// entries after the count).
pub fn list_files(dir: &[u8], count: u32) -> (r: Vec<(String, u32)>)
    requires
        64 * count <= dir@.len(),
    ensures
        r@.map_values(|p: (String, u32)| (p.0@, p.1)) == listed_files(dir@, count as int),
{
    let mut files: Vec<(String, u32)> = Vec::new();
    let mut k: usize = 0;
    while k < count as usize
        invariant
            k <= count,
            64 * count <= dir@.len(),
            files@.map_values(|p: (String, u32)| (p.0@, p.1)) == listed_files(dir@, k as int),
        decreases count - k,
    {
        let e = parse_dir_entry(dir, k);
        let ghost before = files@;
        if !e.name.as_str().is_empty() {
            files.push((e.name, e.size));
            assert(files@.map_values(|p: (String, u32)| (p.0@, p.1)) =~= before.map_values(
                |p: (String, u32)| (p.0@, p.1),
            ).push((e.name@, e.size)));
        }
        k += 1;
    }
    files
}

/// Index of the first entry, from `k` on among `count`, named `target`;
/// `-1` when none is.
pub open spec fn find_entry(dir: Seq<u8>, count: int, target: Seq<char>, k: int) -> int
    decreases count - k,
{
    if k < 0 || k >= count {
        -1
    } else if dir_entry(dir, k).0 == target {
        k
    } else {
        find_entry(dir, count, target, k + 1)
    }
}

/// The selector and size of the first entry named `target`.
pub fn find_file(dir: &[u8], count: u32, target: &str) -> (r: Option<(u16, u32)>)
    requires
        64 * count <= dir@.len(),
    ensures
        match r {
            Some((sel, size)) => {
                let k = find_entry(dir@, count as int, target@, 0);
                k >= 0 && sel == dir_entry(dir@, k).2 && size == dir_entry(dir@, k).1
            },
            None => find_entry(dir@, count as int, target@, 0) == -1,
        },
{
    let mut k: usize = 0;
    while k < count as usize
        invariant
            k <= count,
            64 * count <= dir@.len(),
            find_entry(dir@, count as int, target@, 0) == find_entry(
                dir@,
                count as int,
                target@,
                k as int,
            ),
        decreases count - k,
    {
        let e = parse_dir_entry(dir, k);
        if str_eq(e.name.as_str(), target) {
            return Some((e.select, e.size));
        }
        k += 1;
    }
    None
}

/// The VM Generation ID: the first 16 bytes of `etc/vmgenid_guid`, when it
/// has that many.
pub fn vmgenid_from(data: &[u8]) -> (r: Option<[u8; 16]>)
    ensures
        match r {
            Some(g) => data@.len() >= 16 && g@ == data@.subrange(0, 16),
            None => data@.len() < 16,
        },
{
    if data.len() < 16 {
        return None;
    }
    let mut guid = [0u8; 16];
    let mut i: usize = 0;
    while i < 16
        invariant
            data@.len() >= 16,
            i <= 16,
            guid@.len() == 16,
            forall|j: int| 0 <= j < i ==> guid@[j] == data@[j],
        decreases 16 - i,
    {
        guid[i] = data[i];
        i += 1;
    }
    assert(guid@ =~= data@.subrange(0, 16));
    Some(guid)
}

} // verus!
