//! Filesystem identification from superblock magic.
//!
//! The first `PROBE_BYTES` of a block source (a logical volume, a partition,
//! an `.iso` region) are read once; the magic numbers below identify the
//! filesystem. Checks are guarded by the number of bytes actually read, so
//! a short source is classified by what it holds.
use vstd::prelude::*;

verus! {

/// Filesystems identified from superblock magic.
#[derive(Debug, Clone, Copy, PartialEq, Eq, Structural)]
pub enum ProbedFs {
    /// ext2/3/4: superblock at byte 1024, magic `0xEF53` at offset 56.
    Ext4,
    /// btrfs: superblock at byte 0x10000, magic `"_BHRfS_M"` at offset 0x40.
    Btrfs,
    /// XFS: magic `"XFSB"` at byte 0.
    Xfs,
    /// FAT12/16/32: `0x55,0xAA` at offset 510 and `"FAT"` at 0x36 or 0x52.
    Fat,
    /// EROFS: magic `0xE0F5E1E2` at byte 1024.
    Erofs,
    /// ISO 9660: `"CD001"` at byte 0x8001.
    Iso9660,
    /// cramfs: magic `0x28CD3D45` at byte 0.
    Cramfs,
    /// romfs: `"-rom1fs-"` at byte 0.
    Romfs,
    /// SquashFS: magic `0x73717368` at byte 0.
    Squashfs,
    /// UDF: Anchor Volume Descriptor Pointer (tag 2) at logical sector 256.
    Udf,
    /// No recognised signature.
    Unknown,
}

/// Bytes read from the start of a source for the probe: enough for the
/// ext4 and btrfs superblocks in one read.
pub const PROBE_BYTES: usize = 69632;

/// Byte offset of the UDF Anchor Volume Descriptor Pointer (sector 256 of
/// 2048-byte sectors), past the probe window.
pub const UDF_ANCHOR_OFFSET: u64 = 524288;

/// Whether `b` holds `m` at offset `off`.
pub open spec fn bytes_at(b: Seq<u8>, off: int, m: Seq<u8>) -> bool {
    off + m.len() <= b.len() && b.subrange(off, off + m.len()) == m
}

pub open spec fn fat_tag() -> Seq<u8> {
    seq![0x46u8, 0x41u8, 0x54u8]
}

/// The filesystem named by the magic in the probed bytes `b`, checked in
/// this order: ext4, btrfs, XFS, EROFS, ISO 9660, cramfs, romfs, SquashFS,
/// FAT. `None` when none matches (UDF is then probed separately).
pub open spec fn classify(b: Seq<u8>) -> Option<ProbedFs> {
    if bytes_at(b, 1080, seq![0x53u8, 0xEFu8]) {
        Some(ProbedFs::Ext4)
    } else if bytes_at(
        b,
        0x10040,
        seq![0x5Fu8, 0x42u8, 0x48u8, 0x52u8, 0x66u8, 0x53u8, 0x5Fu8, 0x4Du8],
    ) {
        Some(ProbedFs::Btrfs)
    } else if bytes_at(b, 0, seq![0x58u8, 0x46u8, 0x53u8, 0x42u8]) {
        Some(ProbedFs::Xfs)
    } else if bytes_at(b, 1024, seq![0xE2u8, 0xE1u8, 0xF5u8, 0xE0u8]) {
        Some(ProbedFs::Erofs)
    } else if bytes_at(b, 0x8001, seq![0x43u8, 0x44u8, 0x30u8, 0x30u8, 0x31u8]) {
        Some(ProbedFs::Iso9660)
    } else if bytes_at(b, 0, seq![0x45u8, 0x3Du8, 0xCDu8, 0x28u8]) {
        Some(ProbedFs::Cramfs)
    } else if bytes_at(
        b,
        0,
        seq![0x2Du8, 0x72u8, 0x6Fu8, 0x6Du8, 0x31u8, 0x66u8, 0x73u8, 0x2Du8],
    ) {
        Some(ProbedFs::Romfs)
    } else if bytes_at(b, 0, seq![0x68u8, 0x73u8, 0x71u8, 0x73u8]) {
        Some(ProbedFs::Squashfs)
    } else if bytes_at(b, 510, seq![0x55u8, 0xAAu8]) && (bytes_at(b, 0x36, fat_tag()) || bytes_at(
        b,
        0x52,
        fat_tag(),
    )) {
        Some(ProbedFs::Fat)
    } else {
        None
    }
}

fn bytes_match(b: &[u8], off: usize, m: &[u8]) -> (r: bool)
    ensures
        r == bytes_at(b@, off as int, m@),
{
    if off > b.len() || m.len() > b.len() - off {
        return false;
    }
    let mut k: usize = 0;
    while k < m.len()
        invariant
            off + m.len() <= b.len(),
            k <= m@.len(),
            forall|j: int| 0 <= j < k ==> b@[off + j] == m@[j],
        decreases m@.len() - k,
    {
        if b[off + k] != m[k] {
            assert(b@.subrange(off as int, off + m@.len())[k as int] != m@[k as int]);
            return false;
        }
        k += 1;
    }
    assert(b@.subrange(off as int, off + m@.len()) =~= m@);
    true
}

/// Identify the filesystem from the bytes read at the start of a source
/// (`probe` holds only the bytes actually read). `None` when no magic in
/// the window matches; the caller then checks the UDF anchor.
pub fn classify_superblock(probe: &[u8]) -> (r: Option<ProbedFs>)
    ensures
        r == classify(probe@),
{
    let ext4 = [0x53u8, 0xEF];
    let btrfs = [0x5Fu8, 0x42, 0x48, 0x52, 0x66, 0x53, 0x5F, 0x4D];
    let xfs = [0x58u8, 0x46, 0x53, 0x42];
    let erofs = [0xE2u8, 0xE1, 0xF5, 0xE0];
    let iso = [0x43u8, 0x44, 0x30, 0x30, 0x31];
    let cramfs = [0x45u8, 0x3D, 0xCD, 0x28];
    let romfs = [0x2Du8, 0x72, 0x6F, 0x6D, 0x31, 0x66, 0x73, 0x2D];
    let squashfs = [0x68u8, 0x73, 0x71, 0x73];
    let boot_sig = [0x55u8, 0xAA];
    let fat = [0x46u8, 0x41, 0x54];
    assert(ext4@ =~= seq![0x53u8, 0xEFu8]);
    assert(btrfs@ =~= seq![0x5Fu8, 0x42u8, 0x48u8, 0x52u8, 0x66u8, 0x53u8, 0x5Fu8, 0x4Du8]);
    assert(xfs@ =~= seq![0x58u8, 0x46u8, 0x53u8, 0x42u8]);
    assert(erofs@ =~= seq![0xE2u8, 0xE1u8, 0xF5u8, 0xE0u8]);
    assert(iso@ =~= seq![0x43u8, 0x44u8, 0x30u8, 0x30u8, 0x31u8]);
    assert(cramfs@ =~= seq![0x45u8, 0x3Du8, 0xCDu8, 0x28u8]);
    assert(romfs@ =~= seq![0x2Du8, 0x72u8, 0x6Fu8, 0x6Du8, 0x31u8, 0x66u8, 0x73u8, 0x2Du8]);
    assert(squashfs@ =~= seq![0x68u8, 0x73u8, 0x71u8, 0x73u8]);
    assert(boot_sig@ =~= seq![0x55u8, 0xAAu8]);
    assert(fat@ =~= fat_tag());
    if bytes_match(probe, 1080, ext4.as_slice()) {
        Some(ProbedFs::Ext4)
    } else if bytes_match(probe, 0x10040, btrfs.as_slice()) {
        Some(ProbedFs::Btrfs)
    } else if bytes_match(probe, 0, xfs.as_slice()) {
        Some(ProbedFs::Xfs)
    } else if bytes_match(probe, 1024, erofs.as_slice()) {
        Some(ProbedFs::Erofs)
    } else if bytes_match(probe, 0x8001, iso.as_slice()) {
        Some(ProbedFs::Iso9660)
    } else if bytes_match(probe, 0, cramfs.as_slice()) {
        Some(ProbedFs::Cramfs)
    } else if bytes_match(probe, 0, romfs.as_slice()) {
        Some(ProbedFs::Romfs)
    } else if bytes_match(probe, 0, squashfs.as_slice()) {
        Some(ProbedFs::Squashfs)
    } else if bytes_match(probe, 510, boot_sig.as_slice()) && (bytes_match(
        probe,
        0x36,
        fat.as_slice(),
    ) || bytes_match(probe, 0x52, fat.as_slice())) {
        Some(ProbedFs::Fat)
    } else {
        None
    }
}

/// Whether the two bytes read at the UDF anchor offset hold the Anchor
/// Volume Descriptor Pointer tag identifier 2 (little-endian).
pub fn is_udf_anchor_tag(tag: [u8; 2]) -> (r: bool)
    ensures
        r == (tag@[0] as int + 256 * (tag@[1] as int) == 2),
{
    tag[0] == 2 && tag[1] == 0
}

/// The filesystem a source holds: the one whose magic the superblock
/// window shows, else UDF when the anchor descriptor tag is 2, else
/// `Unknown`.
pub fn probe_verdict(window: Option<ProbedFs>, udf_tag: Option<[u8; 2]>) -> (r: ProbedFs)
    ensures
        r == match window {
            Some(fs) => fs,
            None => match udf_tag {
                Some(t) => if t@[0] as int + 256 * (t@[1] as int) == 2 {
                    ProbedFs::Udf
                } else {
                    ProbedFs::Unknown
                },
                None => ProbedFs::Unknown,
            },
        },
{
    match window {
        Some(fs) => fs,
        None => match udf_tag {
            Some(t) => if is_udf_anchor_tag(t) {
                ProbedFs::Udf
            } else {
                ProbedFs::Unknown
            },
            None => ProbedFs::Unknown,
        },
    }
}

} // verus!
