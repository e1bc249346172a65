//! ACPI table decoding for IOMMU detection: RSDP, XSDT/RSDT, Intel DMAR
//! (DRHD and RMRR structures with their device scopes) and AMD IVRS.
//!
//! The caller copies each table out of firmware memory; this module
//! decodes the bytes.
use vstd::prelude::*;

use crate::bls::{dec, decimal_chars};
use crate::text::push_char;

verus! {

pub open spec fn le16(d: Seq<u8>, i: int) -> int {
    d[i] + 256 * d[i + 1]
}

pub open spec fn le32(d: Seq<u8>, i: int) -> int {
    le16(d, i) + 65536 * le16(d, i + 2)
}

pub open spec fn le64(d: Seq<u8>, i: int) -> int {
    le32(d, i) + 4294967296 * le32(d, i + 4)
}

fn read_le16(d: &[u8], i: usize) -> (r: u16)
    requires
        i + 2 <= d.len(),
    ensures
        r == le16(d@, i as int),
{
    (d[i] as u16) + 256 * (d[i + 1] as u16)
}

fn read_le32(d: &[u8], i: usize) -> (r: u32)
    requires
        i + 4 <= d.len(),
    ensures
        r == le32(d@, i as int),
{
    (read_le16(d, i) as u32) + 65536 * (read_le16(d, i + 2) as u32)
}

fn read_le64(d: &[u8], i: usize) -> (r: u64)
    requires
        i + 8 <= d.len(),
    ensures
        r == le64(d@, i as int),
{
    (read_le32(d, i) as u64) + 4294967296 * (read_le32(d, i + 4) as u64)
}

/// A PCI device scope within a DRHD or RMRR structure.
#[derive(Debug, Clone)]
pub struct DeviceScope {
    /// 1 = PCI endpoint, 2 = PCI sub-hierarchy, 3 = IOAPIC, 4 = HPET.
    pub scope_type: u8,
    pub enumeration_id: u8,
    pub start_bus: u8,
    /// `(device, function)` pairs forming the PCI path.
    pub path: Vec<(u8, u8)>,
}

/// DMA Remapping Hardware Unit Definition.
#[derive(Debug, Clone)]
pub struct DrhdUnit {
    pub segment: u16,
    pub register_base: u64,
    pub include_pci_all: bool,
    pub device_scopes: Vec<DeviceScope>,
}

/// Reserved Memory Region Reporting structure.
#[derive(Debug, Clone)]
pub struct RmrrRegion {
    pub base_address: u64,
    pub limit_address: u64,
    pub segment: u16,
    pub device_scopes: Vec<DeviceScope>,
}

/// IOMMU information gathered from the ACPI tables.
#[derive(Debug, Clone)]
pub struct IommuInfo {
    pub intel_vt_d: bool,
    pub amd_vi: bool,
    pub drhd_units: Vec<DrhdUnit>,
    pub rmrr_regions: Vec<RmrrRegion>,
}

pub struct ScopeView {
    pub scope_type: u8,
    pub enumeration_id: u8,
    pub start_bus: u8,
    pub path: Seq<(u8, u8)>,
}

pub struct DrhdView {
    pub segment: u16,
    pub register_base: u64,
    pub include_pci_all: bool,
    pub device_scopes: Seq<ScopeView>,
}

pub struct RmrrView {
    pub base_address: u64,
    pub limit_address: u64,
    pub segment: u16,
    pub device_scopes: Seq<ScopeView>,
}

pub open spec fn scope_view(s: DeviceScope) -> ScopeView {
    ScopeView {
        scope_type: s.scope_type,
        enumeration_id: s.enumeration_id,
        start_bus: s.start_bus,
        path: s.path@,
    }
}

pub open spec fn scope_views(v: Seq<DeviceScope>) -> Seq<ScopeView> {
    v.map_values(|s: DeviceScope| scope_view(s))
}

pub open spec fn drhd_view(u: DrhdUnit) -> DrhdView {
    DrhdView {
        segment: u.segment,
        register_base: u.register_base,
        include_pci_all: u.include_pci_all,
        device_scopes: scope_views(u.device_scopes@),
    }
}

pub open spec fn rmrr_view(r: RmrrRegion) -> RmrrView {
    RmrrView {
        base_address: r.base_address,
        limit_address: r.limit_address,
        segment: r.segment,
        device_scopes: scope_views(r.device_scopes@),
    }
}

pub open spec fn drhd_views(v: Seq<DrhdUnit>) -> Seq<DrhdView> {
    v.map_values(|u: DrhdUnit| drhd_view(u))
}

pub open spec fn rmrr_views(v: Seq<RmrrRegion>) -> Seq<RmrrView> {
    v.map_values(|r: RmrrRegion| rmrr_view(r))
}

/// The device scope whose 6-byte header starts at `off` and spans `len`
/// bytes: type, enumeration id, start bus, then `(device, function)` pairs.
pub open spec fn scope_at(d: Seq<u8>, off: int, len: int) -> ScopeView {
    ScopeView {
        scope_type: d[off],
        enumeration_id: d[off + 4],
        start_bus: d[off + 5],
        path: Seq::new(((len - 6) / 2) as nat, |i: int| (d[off + 6 + 2 * i], d[off + 7 + 2 * i])),
    }
}

/// The device scopes of `d` from offset `off` on, until a header does not
/// fit or claims a length below 6 or past the end.
pub open spec fn scopes_from(d: Seq<u8>, off: int) -> Seq<ScopeView>
    decreases d.len() - off,
{
    if off < 0 || off + 6 > d.len() {
        Seq::empty()
    } else {
        let len = d[off + 1] as int;
        if len < 6 || off + len > d.len() {
            Seq::empty()
        } else {
            seq![scope_at(d, off, len)] + scopes_from(d, off + len)
        }
    }
}

/// Parse the device scope entries of a DRHD or RMRR structure's tail.
pub fn parse_device_scopes(data: &[u8]) -> (r: Vec<DeviceScope>)
    ensures
        scope_views(r@) == scopes_from(data@, 0),
{
    let mut scopes: Vec<DeviceScope> = Vec::new();
    let mut offset: usize = 0;
    let n = data.len();
    while n >= 6 && offset <= n - 6
        invariant_except_break
            n == data@.len(),
            offset <= n,
            scopes_from(data@, 0) == scope_views(scopes@) + scopes_from(data@, offset as int),
        ensures
            scopes_from(data@, 0) == scope_views(scopes@),
        decreases n - offset,
    {
        let scope_type = data[offset];
        let scope_length = data[offset + 1] as usize;
        if scope_length < 6 || scope_length > n - offset {
            assert(scopes_from(data@, offset as int) =~= Seq::<ScopeView>::empty());
            assert(scope_views(scopes@) + Seq::<ScopeView>::empty() =~= scope_views(scopes@));
            break;
        }
        let enumeration_id = data[offset + 4];
        let start_bus = data[offset + 5];
        let path_count = (scope_length - 6) / 2;
        let mut path: Vec<(u8, u8)> = Vec::new();
        let mut i: usize = 0;
        while i < path_count
            invariant
                path_count == (scope_length - 6) / 2,
                offset + scope_length <= n,
                n == data@.len(),
                6 <= scope_length,
                i <= path_count,
                path@ == Seq::new(
                    i as nat,
                    |j: int| (data@[offset + 6 + 2 * j], data@[offset + 7 + 2 * j]),
                ),
            decreases path_count - i,
        {
            let p = offset + 6 + i * 2;
            path.push((data[p], data[p + 1]));
            assert(path@ =~= Seq::new(
                (i + 1) as nat,
                |j: int| (data@[offset + 6 + 2 * j], data@[offset + 7 + 2 * j]),
            ));
            i += 1;
        }
        let ghost before = scope_views(scopes@);
        let s = DeviceScope { scope_type, enumeration_id, start_bus, path };
        assert(scope_view(s) == scope_at(data@, offset as int, scope_length as int));
        scopes.push(s);
        assert(scope_views(scopes@) =~= before.push(scope_view(s)));
        assert(before + scopes_from(data@, offset as int) =~= scope_views(scopes@) + scopes_from(
            data@,
            offset + scope_length,
        ));
        offset += scope_length;
    }
    proof {
        if !(n >= 6 && offset <= n - 6) {
        }
    }
    scopes
}

/// The scopes of `d` after its first `k` bytes.
pub open spec fn tail_scopes(d: Seq<u8>, k: int) -> Seq<ScopeView> {
    scopes_from(d.subrange(k, d.len() as int), 0)
}

fn tail_of(data: &[u8], k: usize) -> (r: Vec<u8>)
    requires
        k <= data@.len(),
    ensures
        r@ == data@.subrange(k as int, data@.len() as int),
{
    let mut out: Vec<u8> = Vec::new();
    let mut i = k;
    while i < data.len()
        invariant
            k <= i <= data@.len(),
            out@ == data@.subrange(k as int, i as int),
        decreases data@.len() - i,
    {
        out.push(data[i]);
        assert(data@.subrange(k as int, i + 1) == data@.subrange(k as int, i as int).push(
            data@[i as int],
        ));
        i += 1;
    }
    out
}

/// The DRHD structure in `d`: `None` when shorter than 16 bytes.
pub open spec fn drhd_spec(d: Seq<u8>) -> Option<DrhdView> {
    if d.len() < 16 {
        None
    } else {
        Some(
            DrhdView {
                segment: le16(d, 6) as u16,
                register_base: le64(d, 8) as u64,
                include_pci_all: d[4] % 2 == 1,
                device_scopes: tail_scopes(d, 16),
            },
        )
    }
}

/// The RMRR structure in `d`: `None` when shorter than 24 bytes.
pub open spec fn rmrr_spec(d: Seq<u8>) -> Option<RmrrView> {
    if d.len() < 24 {
        None
    } else {
        Some(
            RmrrView {
                base_address: le64(d, 8) as u64,
                limit_address: le64(d, 16) as u64,
                segment: le16(d, 6) as u16,
                device_scopes: tail_scopes(d, 24),
            },
        )
    }
}

/// Parse a DRHD (DMA Remapping Hardware Unit Definition) structure.
pub fn parse_drhd(data: &[u8]) -> (r: Option<DrhdUnit>)
    ensures
        match r {
            Some(u) => drhd_spec(data@) == Some(drhd_view(u)),
            None => drhd_spec(data@) is None,
        },
{
    if data.len() < 16 {
        return None;
    }
    let flags = data[4];
    let segment = read_le16(data, 6);
    let register_base = read_le64(data, 8);
    let tail = tail_of(data, 16);
    let device_scopes = parse_device_scopes(tail.as_slice());
    Some(DrhdUnit { segment, register_base, include_pci_all: flags % 2 == 1, device_scopes })
}

/// Parse an RMRR (Reserved Memory Region Reporting) structure.
pub fn parse_rmrr(data: &[u8]) -> (r: Option<RmrrRegion>)
    ensures
        match r {
            Some(u) => rmrr_spec(data@) == Some(rmrr_view(u)),
            None => rmrr_spec(data@) is None,
        },
{
    if data.len() < 24 {
        return None;
    }
    let segment = read_le16(data, 6);
    let base_address = read_le64(data, 8);
    let limit_address = read_le64(data, 16);
    let tail = tail_of(data, 24);
    let device_scopes = parse_device_scopes(tail.as_slice());
    Some(RmrrRegion { base_address, limit_address, segment, device_scopes })
}

/// The DRHD units and RMRR regions of the remapping structures of a DMAR
/// table of length `len`, from offset `off` on: each structure's 16-bit
/// type and length; the walk stops at a length below 4 or past the end.
pub open spec fn dmar_walk(t: Seq<u8>, off: int, len: int) -> (Seq<DrhdView>, Seq<RmrrView>)
    decreases len - off,
{
    if off < 0 || off + 4 > len || len > t.len() {
        (Seq::empty(), Seq::empty())
    } else {
        let ty = le16(t, off);
        let sl = le16(t, off + 2);
        if sl < 4 || off + sl > len {
            (Seq::empty(), Seq::empty())
        } else {
            let s = t.subrange(off, off + sl);
            let rest = dmar_walk(t, off + sl, len);
            if ty == 0 {
                match drhd_spec(s) {
                    Some(u) => (seq![u] + rest.0, rest.1),
                    None => rest,
                }
            } else if ty == 1 {
                match rmrr_spec(s) {
                    Some(r) => (rest.0, seq![r] + rest.1),
                    None => rest,
                }
            } else {
                rest
            }
        }
    }
}

/// The IVHD blocks of an IVRS table of length `len`, from `off` on: a
/// block of type 0x10, 0x11 or 0x40 with at least 24 bytes gives a unit
/// with its segment and register base and no scopes.
pub open spec fn ivrs_walk(t: Seq<u8>, off: int, len: int) -> Seq<DrhdView>
    decreases len - off,
{
    if off < 0 || off + 4 > len || len > t.len() {
        Seq::empty()
    } else {
        let ty = t[off];
        let bl = le16(t, off + 2);
        if bl < 4 || off + bl > len {
            Seq::empty()
        } else {
            let rest = ivrs_walk(t, off + bl, len);
            if (ty == 0x10 || ty == 0x11 || ty == 0x40) && bl >= 24 {
                seq![
                    DrhdView {
                        segment: le16(t, off + 8) as u16,
                        register_base: le64(t, off + 16) as u64,
                        include_pci_all: false,
                        device_scopes: Seq::empty(),
                    },
                ] + rest
            } else {
                rest
            }
        }
    }
}

fn copy_range(t: &[u8], lo: usize, hi: usize) -> (r: Vec<u8>)
    requires
        lo <= hi <= t@.len(),
    ensures
        r@ == t@.subrange(lo as int, hi as int),
{
    let mut out: Vec<u8> = Vec::new();
    let mut i = lo;
    while i < hi
        invariant
            lo <= i <= hi <= t@.len(),
            out@ == t@.subrange(lo as int, i as int),
        decreases hi - i,
    {
        out.push(t[i]);
        assert(t@.subrange(lo as int, i + 1) == t@.subrange(lo as int, i as int).push(t@[i as int]));
        i += 1;
    }
    out
}

/// The table length recorded in an SDT header (bytes 4..8).
pub fn sdt_length(header: &[u8]) -> (r: u32)
    requires
        header@.len() >= 8,
    ensures
        r == le32(header@, 4),
{
    read_le32(header, 4)
}

/// Whether a table read for DMAR or IVRS decoding has the shape the
/// caller gives it: at least the 48-byte header, and, when the length
/// field admits a walk, exactly that many bytes.
pub open spec fn table_bytes_ok(t: Seq<u8>) -> bool {
    t.len() >= 48 && (le32(t, 4) >= 48 ==> t.len() == le32(t, 4))
}

impl IommuInfo {
    /// No IOMMU found yet.
    pub fn new() -> (r: IommuInfo)
        ensures
            !r.intel_vt_d,
            !r.amd_vi,
            r.drhd_units@.len() == 0,
            r.rmrr_regions@.len() == 0,
    {
        IommuInfo {
            intel_vt_d: false,
            amd_vi: false,
            drhd_units: Vec::new(),
            rmrr_regions: Vec::new(),
        }
    }
}

/// Decode an Intel DMAR table into `info`: marks VT-d present and appends
/// its DRHD units and RMRR regions. A table whose length field is below 48
/// changes nothing.
pub fn parse_dmar(table: &[u8], info: &mut IommuInfo)
    requires
        table_bytes_ok(table@),
    ensures
        le32(table@, 4) < 48 ==> *final(info) == *old(info),
        le32(table@, 4) >= 48 ==> {
            &&& final(info).intel_vt_d
            &&& final(info).amd_vi == old(info).amd_vi
            &&& drhd_views(final(info).drhd_units@) == drhd_views(old(info).drhd_units@)
                + dmar_walk(table@, 48, le32(table@, 4)).0
            &&& rmrr_views(final(info).rmrr_regions@) == rmrr_views(old(info).rmrr_regions@)
                + dmar_walk(table@, 48, le32(table@, 4)).1
        },
{
    let table_length = read_le32(table, 4) as usize;
    if table_length < 48 {
        return;
    }
    info.intel_vt_d = true;
    let ghost d0 = drhd_views(info.drhd_units@);
    let ghost r0 = rmrr_views(info.rmrr_regions@);
    let ghost total = dmar_walk(table@, 48, table_length as int);
    let mut offset: usize = 48;
    while offset <= table_length - 4
        invariant_except_break
            table_length == table@.len(),
            48 <= offset <= table_length,
            info.intel_vt_d,
            info.amd_vi == old(info).amd_vi,
            drhd_views(info.drhd_units@) + dmar_walk(table@, offset as int, table_length as int).0
                == d0 + total.0,
            rmrr_views(info.rmrr_regions@) + dmar_walk(table@, offset as int, table_length as int).1
                == r0 + total.1,
        ensures
            info.intel_vt_d,
            info.amd_vi == old(info).amd_vi,
            drhd_views(info.drhd_units@) == d0 + total.0,
            rmrr_views(info.rmrr_regions@) == r0 + total.1,
        decreases table_length - offset,
    {
        let struct_type = read_le16(table, offset);
        let struct_length = read_le16(table, offset + 2) as usize;
        if struct_length < 4 || struct_length > table_length - offset {
            assert(drhd_views(info.drhd_units@) + Seq::<DrhdView>::empty() =~= drhd_views(
                info.drhd_units@,
            ));
            assert(rmrr_views(info.rmrr_regions@) + Seq::<RmrrView>::empty() =~= rmrr_views(
                info.rmrr_regions@,
            ));
            break;
        }
        let s = copy_range(table, offset, offset + struct_length);
        let ghost rest = dmar_walk(table@, offset + struct_length, table_length as int);
        let ghost dv = drhd_views(info.drhd_units@);
        let ghost rv = rmrr_views(info.rmrr_regions@);
        if struct_type == 0 {
            if let Some(drhd) = parse_drhd(s.as_slice()) {
                let ghost u = drhd_view(drhd);
                info.drhd_units.push(drhd);
                assert(drhd_views(info.drhd_units@) =~= dv.push(u));
                assert(dv.push(u) + rest.0 =~= dv + (seq![u] + rest.0));
            }
        } else if struct_type == 1 {
            if let Some(rmrr) = parse_rmrr(s.as_slice()) {
                let ghost r = rmrr_view(rmrr);
                info.rmrr_regions.push(rmrr);
                assert(rmrr_views(info.rmrr_regions@) =~= rv.push(r));
                assert(rv.push(r) + rest.1 =~= rv + (seq![r] + rest.1));
            }
        }
        offset += struct_length;
    }
    proof {
        if !(offset <= table_length - 4) {
            assert(dmar_walk(table@, offset as int, table_length as int).0 =~= Seq::<
                DrhdView,
            >::empty());
            assert(drhd_views(info.drhd_units@) + Seq::<DrhdView>::empty() =~= drhd_views(
                info.drhd_units@,
            ));
            assert(rmrr_views(info.rmrr_regions@) + Seq::<RmrrView>::empty() =~= rmrr_views(
                info.rmrr_regions@,
            ));
        }
    }
}

/// Decode an AMD IVRS table into `info`: marks AMD-Vi present and appends
/// one unit per IVHD block. A table whose length field is below 48
/// changes nothing.
pub fn parse_ivrs(table: &[u8], info: &mut IommuInfo)
    requires
        table_bytes_ok(table@),
    ensures
        le32(table@, 4) < 48 ==> *final(info) == *old(info),
        le32(table@, 4) >= 48 ==> {
            &&& final(info).amd_vi
            &&& final(info).intel_vt_d == old(info).intel_vt_d
            &&& drhd_views(final(info).drhd_units@) == drhd_views(old(info).drhd_units@)
                + ivrs_walk(table@, 48, le32(table@, 4))
            &&& final(info).rmrr_regions@ == old(info).rmrr_regions@
        },
{
    let table_length = read_le32(table, 4) as usize;
    if table_length < 48 {
        return;
    }
    info.amd_vi = true;
    let ghost d0 = drhd_views(info.drhd_units@);
    let ghost total = ivrs_walk(table@, 48, table_length as int);
    let mut offset: usize = 48;
    while offset <= table_length - 4
        invariant_except_break
            table_length == table@.len(),
            48 <= offset <= table_length,
            info.amd_vi,
            info.intel_vt_d == old(info).intel_vt_d,
            info.rmrr_regions@ == old(info).rmrr_regions@,
            drhd_views(info.drhd_units@) + ivrs_walk(table@, offset as int, table_length as int)
                == d0 + total,
        ensures
            info.amd_vi,
            info.intel_vt_d == old(info).intel_vt_d,
            info.rmrr_regions@ == old(info).rmrr_regions@,
            drhd_views(info.drhd_units@) == d0 + total,
        decreases table_length - offset,
    {
        let block_type = table[offset];
        let block_length = read_le16(table, offset + 2) as usize;
        if block_length < 4 || block_length > table_length - offset {
            assert(drhd_views(info.drhd_units@) + Seq::<DrhdView>::empty() =~= drhd_views(
                info.drhd_units@,
            ));
            break;
        }
        let ghost rest = ivrs_walk(table@, offset + block_length, table_length as int);
        let ghost dv = drhd_views(info.drhd_units@);
        if (block_type == 0x10 || block_type == 0x11 || block_type == 0x40) && block_length >= 24 {
            let segment = read_le16(table, offset + 8);
            let base = read_le64(table, offset + 16);
            let unit = DrhdUnit {
                segment,
                register_base: base,
                include_pci_all: false,
                device_scopes: Vec::new(),
            };
            let ghost u = drhd_view(unit);
            assert(u.device_scopes =~= Seq::<ScopeView>::empty());
            info.drhd_units.push(unit);
            assert(drhd_views(info.drhd_units@) =~= dv.push(u));
            assert(dv.push(u) + rest =~= dv + (seq![u] + rest));
        }
        offset += block_length;
    }
    proof {
        if !(offset <= table_length - 4) {
            assert(ivrs_walk(table@, offset as int, table_length as int) =~= Seq::<
                DrhdView,
            >::empty());
            assert(drhd_views(info.drhd_units@) + Seq::<DrhdView>::empty() =~= drhd_views(
                info.drhd_units@,
            ));
        }
    }
}


/// Where the RSDP points: the XSDT (64-bit entries) or the RSDT (32-bit).
#[derive(Debug, Clone, Copy, PartialEq, Eq, Structural)]
pub enum SdtRoot {
    Xsdt(u64),
    Rsdt(u32),
}

pub open spec fn rsd_ptr_sig() -> Seq<u8> {
    seq![0x52u8, 0x53u8, 0x44u8, 0x20u8, 0x50u8, 0x54u8, 0x52u8, 0x20u8]
}

/// The root table named by a 36-byte RSDP: the XSDT at offset 24 for
/// revision 2 and later when non-zero, else the RSDT at offset 16 when
/// non-zero; `None` without the `RSD PTR ` signature.
pub open spec fn rsdp_root(r: Seq<u8>) -> Option<SdtRoot> {
    if r.subrange(0, 8) != rsd_ptr_sig() {
        None
    } else if r[15] >= 2 && le64(r, 24) != 0 {
        Some(SdtRoot::Xsdt(le64(r, 24) as u64))
    } else if le32(r, 16) != 0 {
        Some(SdtRoot::Rsdt(le32(r, 16) as u32))
    } else {
        None
    }
}

fn prefix_is(d: &[u8], m: &[u8]) -> (r: bool)
    requires
        m@.len() <= d@.len(),
    ensures
        r == (d@.subrange(0, m@.len() as int) == m@),
{
    let mut k: usize = 0;
    while k < m.len()
        invariant
            m@.len() <= d@.len(),
            k <= m@.len(),
            forall|j: int| 0 <= j < k ==> d@[j] == m@[j],
        decreases m@.len() - k,
    {
        if d[k] != m[k] {
            assert(d@.subrange(0, m@.len() as int)[k as int] != m@[k as int]);
            return false;
        }
        k += 1;
    }
    assert(d@.subrange(0, m@.len() as int) =~= m@);
    true
}

/// Find the root system description table from the RSDP bytes.
pub fn parse_rsdp(rsdp: &[u8]) -> (r: Option<SdtRoot>)
    requires
        rsdp@.len() >= 36,
    ensures
        r == rsdp_root(rsdp@),
{
    let sig = [0x52u8, 0x53, 0x44, 0x20, 0x50, 0x54, 0x52, 0x20];
    assert(sig@ =~= rsd_ptr_sig());
    if !prefix_is(rsdp, sig.as_slice()) {
        return None;
    }
    let revision = rsdp[15];
    if revision >= 2 {
        let xsdt = read_le64(rsdp, 24);
        if xsdt != 0 {
            return Some(SdtRoot::Xsdt(xsdt));
        }
    }
    let rsdt = read_le32(rsdp, 16);
    if rsdt != 0 {
        return Some(SdtRoot::Rsdt(rsdt));
    }
    None
}

/// The non-zero entry addresses of a root table of `width` bytes per
/// entry (8 for the XSDT, 4 for the RSDT), for the entries `0..count` that
/// fit in `t`.
pub open spec fn sdt_entries(t: Seq<u8>, width: int, count: int) -> Seq<u64>
    decreases count,
{
    if count <= 0 {
        Seq::empty()
    } else {
        let prev = sdt_entries(t, width, count - 1);
        let off = 36 + (count - 1) * width;
        if off + width > t.len() {
            prev
        } else {
            let a = if width == 8 {
                le64(t, off)
            } else {
                le32(t, off)
            };
            if a != 0 {
                prev.push(a as u64)
            } else {
                prev
            }
        }
    }
}

/// A root table: `None` without its 4-byte signature or with a length
/// field below 36; else its non-zero entries.
pub open spec fn root_table(t: Seq<u8>, sig: Seq<u8>, width: int) -> Option<Seq<u64>> {
    if t.subrange(0, 4) != sig || le32(t, 4) < 36 {
        None
    } else {
        Some(sdt_entries(t, width, (le32(t, 4) - 36) / width))
    }
}

pub open spec fn xsdt_sig() -> Seq<u8> {
    seq![0x58u8, 0x53u8, 0x44u8, 0x54u8]
}

pub open spec fn rsdt_sig() -> Seq<u8> {
    seq![0x52u8, 0x53u8, 0x44u8, 0x54u8]
}

fn root_entries(table: &[u8], width: usize) -> (r: Vec<u64>)
    requires
        width == 4 || width == 8,
        table@.len() >= 8,
        le32(table@, 4) >= 36,
    ensures
        r@ == sdt_entries(table@, width as int, (le32(table@, 4) - 36) / (width as int)),
{
    let table_length = read_le32(table, 4) as usize;
    let count = (table_length - 36) / width;
    let mut entries: Vec<u64> = Vec::new();
    let mut i: usize = 0;
    while i < count
        invariant
            width == 4 || width == 8,
            count == (le32(table@, 4) - 36) / (width as int),
            i <= count,
            entries@ == sdt_entries(table@, width as int, i as int),
            i < count ==> 36 + i * width <= table_length,
            table_length == le32(table@, 4),
        decreases count - i,
    {
        assert(36 + i * width <= table_length) by (nonlinear_arith)
            requires
                i < count,
                count == (table_length - 36) / (width as int),
                table_length >= 36,
                width > 0,
        ;
        let offset = 36 + i * width;
        if offset <= table.len() && width <= table.len() - offset {
            let a: u64 = if width == 8 {
                read_le64(table, offset)
            } else {
                read_le32(table, offset) as u64
            };
            if a != 0 {
                entries.push(a);
            }
        }
        i += 1;
    }
    entries
}

/// Parse the XSDT: its non-zero 64-bit entry addresses.
pub fn parse_xsdt(table: &[u8]) -> (r: Option<Vec<u64>>)
    requires
        table@.len() >= 36,
    ensures
        match r {
            Some(v) => root_table(table@, xsdt_sig(), 8) == Some(v@),
            None => root_table(table@, xsdt_sig(), 8) is None,
        },
{
    let sig = [0x58u8, 0x53, 0x44, 0x54];
    assert(sig@ =~= xsdt_sig());
    if !prefix_is(table, sig.as_slice()) {
        return None;
    }
    if read_le32(table, 4) < 36 {
        return None;
    }
    Some(root_entries(table, 8))
}

/// Parse the RSDT: its non-zero 32-bit entry addresses.
pub fn parse_rsdt(table: &[u8]) -> (r: Option<Vec<u64>>)
    requires
        table@.len() >= 36,
    ensures
        match r {
            Some(v) => root_table(table@, rsdt_sig(), 4) == Some(v@),
            None => root_table(table@, rsdt_sig(), 4) is None,
        },
{
    let sig = [0x52u8, 0x53, 0x44, 0x54];
    assert(sig@ =~= rsdt_sig());
    if !prefix_is(table, sig.as_slice()) {
        return None;
    }
    if read_le32(table, 4) < 36 {
        return None;
    }
    Some(root_entries(table, 4))
}

/// Which IOMMU table a table signature names.
#[derive(Debug, Clone, Copy, PartialEq, Eq, Structural)]
pub enum IommuTable {
    Dmar,
    Ivrs,
    Other,
}

/// Classify a table by its 4-byte signature (`DMAR`, `IVRS`).
pub fn iommu_table_kind(sig: [u8; 4]) -> (r: IommuTable)
    ensures
        r == if sig@ == seq![0x44u8, 0x4Du8, 0x41u8, 0x52u8] {
            IommuTable::Dmar
        } else if sig@ == seq![0x49u8, 0x56u8, 0x52u8, 0x53u8] {
            IommuTable::Ivrs
        } else {
            IommuTable::Other
        },
{
    let dmar = sig[0] == 0x44 && sig[1] == 0x4D && sig[2] == 0x41 && sig[3] == 0x52;
    let ivrs = sig[0] == 0x49 && sig[1] == 0x56 && sig[2] == 0x52 && sig[3] == 0x53;
    proof {
        if dmar {
            assert(sig@ =~= seq![0x44u8, 0x4Du8, 0x41u8, 0x52u8]);
        } else if sig@ == seq![0x44u8, 0x4Du8, 0x41u8, 0x52u8] {
            assert(sig@[0] == 0x44 && sig@[1] == 0x4D && sig@[2] == 0x41 && sig@[3] == 0x52);
        }
        if ivrs {
            assert(sig@ =~= seq![0x49u8, 0x56u8, 0x52u8, 0x53u8]);
        } else if sig@ == seq![0x49u8, 0x56u8, 0x52u8, 0x53u8] {
            assert(sig@[0] == 0x49 && sig@[1] == 0x56 && sig@[2] == 0x52 && sig@[3] == 0x53);
        }
    }
    if dmar {
        IommuTable::Dmar
    } else if ivrs {
        IommuTable::Ivrs
    } else {
        IommuTable::Other
    }
}

/// Which ACPI configuration-table entry an entry is.
#[derive(Debug, Clone, Copy, PartialEq, Eq, Structural)]
pub enum RsdpKind {
    Acpi2,
    Acpi1,
    Other,
}

/// The RSDP address chosen from the configuration table: the first ACPI
/// 2.0 entry, else the last ACPI 1.0 entry.
pub open spec fn chosen_rsdp(es: Seq<(RsdpKind, u64)>) -> Option<u64>
    decreases es.len(),
{
    if es.len() == 0 {
        None
    } else if es[0].0 == RsdpKind::Acpi2 {
        Some(es[0].1)
    } else {
        match chosen_rsdp(es.drop_first()) {
            Some(a) => Some(a),
            None => if es[0].0 == RsdpKind::Acpi1 {
                Some(es[0].1)
            } else {
                None
            },
        }
    }
}

/// Pick the RSDP from the configuration-table entries, preferring ACPI 2.0.
pub fn find_acpi_rsdp(entries: &[(RsdpKind, u64)]) -> (r: Option<u64>)
    ensures
        r == chosen_rsdp(entries@),
{
    let mut acpi1: Option<u64> = None;
    let mut i: usize = 0;
    assert(entries@.skip(0) =~= entries@);
    while i < entries.len()
        invariant
            i <= entries@.len(),
            forall|j: int| 0 <= j < i ==> entries@[j].0 != RsdpKind::Acpi2,
            chosen_rsdp(entries@) == match chosen_rsdp(entries@.skip(i as int)) {
                Some(a) => Some(a),
                None => acpi1,
            },
        decreases entries@.len() - i,
    {
        let (kind, addr) = entries[i];
        assert(entries@.skip(i as int).drop_first() =~= entries@.skip(i + 1));
        assert(entries@.skip(i as int)[0] == entries@[i as int]);
        if kind == RsdpKind::Acpi2 {
            return Some(addr);
        }
        if kind == RsdpKind::Acpi1 {
            acpi1 = Some(addr);
        }
        i += 1;
    }
    assert(entries@.skip(i as int) =~= Seq::<(RsdpKind, u64)>::empty());
    acpi1
}

/// Upper-case hexadecimal digit.
pub open spec fn hexd(d: int) -> char {
    if d < 10 {
        (48 + d) as char
    } else {
        (55 + d) as char
    }
}

pub open spec fn hex2(b: u8) -> Seq<char> {
    seq![hexd(b as int / 16), hexd(b as int % 16)]
}

/// The PCI address of a device scope's leaf: `BB:DD.F` (bus and device in
/// two upper-case hexadecimal digits, function in decimal), or `BB:??`
/// when the path is empty.
pub open spec fn bdf(s: ScopeView) -> Seq<char> {
    if s.path.len() == 0 {
        hex2(s.start_bus) + seq![':', '?', '?']
    } else {
        hex2(s.start_bus) + seq![':'] + hex2(s.path.last().0) + seq!['.'] + dec(
            s.path.last().1 as nat,
        )
    }
}

fn hex_digit(d: u8) -> (c: char)
    requires
        d < 16,
    ensures
        c == hexd(d as int),
{
    if d < 10 {
        ((48 + d) as u8) as char
    } else {
        ((55 + d) as u8) as char
    }
}

fn push_hex2(out: &mut Vec<char>, b: u8)
    ensures
        final(out)@ == old(out)@ + hex2(b),
{
    out.push(hex_digit(b / 16));
    out.push(hex_digit(b % 16));
    assert(final(out)@ =~= old(out)@ + hex2(b));
}

impl DeviceScope {
    /// The PCI bus/device/function string of the scope's leaf device.
    pub fn bdf_string(&self) -> (r: String)
        ensures
            r@ == bdf(scope_view(*self)),
    {
        let mut out: Vec<char> = Vec::new();
        push_hex2(&mut out, self.start_bus);
        let n = self.path.len();
        if n == 0 {
            out.push(':');
            out.push('?');
            out.push('?');
            assert(out@ =~= bdf(scope_view(*self)));
        } else {
            let (dev, func) = self.path[n - 1];
            out.push(':');
            push_hex2(&mut out, dev);
            out.push('.');
            let ghost base = out@;
            let f = decimal_chars(func as u64);
            let mut k: usize = 0;
            while k < f.len()
                invariant
                    k <= f@.len(),
                    out@ == base + f@.subrange(0, k as int),
                decreases f@.len() - k,
            {
                out.push(f[k]);
                assert(f@.subrange(0, k + 1) == f@.subrange(0, k as int).push(f@[k as int]));
                k += 1;
            }
            assert(f@.subrange(0, f@.len() as int) == f@);
            assert(out@ =~= bdf(scope_view(*self)));
        }
        crate::text::string_of(&out)
    }
}

/// `offs` walks a table of length `len` structure by structure: each
/// structure at `offs[k]` has a length field (16 bits at `offs[k] + 2`) of
/// at least 4 and ends where the next begins, inside the table; the last
/// offset leaves fewer than 4 bytes.
pub open spec fn structure_chain(t: Seq<u8>, offs: Seq<int>, len: int) -> bool {
    &&& offs.len() >= 1
    &&& 0 <= offs[0]
    &&& len <= t.len()
    &&& offs.last() <= len < offs.last() + 4
    &&& forall|k: int| 0 <= k < offs.len() - 1 ==> #[trigger] chain_step(t, offs, k, len)
}

/// The structure at `offs[k]` lies inside the table, has a length field of
/// at least 4, and the next offset is where it ends.
pub open spec fn chain_step(t: Seq<u8>, offs: Seq<int>, k: int, len: int) -> bool {
    &&& offs[k] + 4 <= len
    &&& le16(t, offs[k] + 2) >= 4
    &&& offs[k + 1] == offs[k] + le16(t, offs[k] + 2)
    &&& offs[k + 1] <= len
}

/// Whether the IVRS block at `o` describes an IOMMU (IVHD types 0x10,
/// 0x11 and 0x40, at least 24 bytes long).
pub open spec fn is_ivhd(t: Seq<u8>, o: int) -> bool {
    (t[o] == 0x10 || t[o] == 0x11 || t[o] == 0x40) && le16(t, o + 2) >= 24
}

/// The unit an IVHD block at `o` describes: its segment (bytes 8..9) and
/// register base (bytes 16..23).
pub open spec fn ivhd_unit(t: Seq<u8>, o: int) -> DrhdView {
    DrhdView {
        segment: le16(t, o + 8) as u16,
        register_base: le64(t, o + 16) as u64,
        include_pci_all: false,
        device_scopes: Seq::empty(),
    }
}

/// One unit per IVHD block of the chain, in chain order.
pub open spec fn chain_ivhd_units(t: Seq<u8>, offs: Seq<int>) -> Seq<DrhdView>
    decreases offs.len(),
{
    if offs.len() <= 1 {
        Seq::empty()
    } else {
        (if is_ivhd(t, offs[0]) {
            seq![ivhd_unit(t, offs[0])]
        } else {
            Seq::empty()
        }) + chain_ivhd_units(t, offs.drop_first())
    }
}

proof fn lemma_chain_tail(t: Seq<u8>, offs: Seq<int>, len: int)
    requires
        structure_chain(t, offs, len),
        offs.len() > 1,
    ensures
        structure_chain(t, offs.drop_first(), len),
        offs.drop_first()[0] == offs[0] + le16(t, offs[0] + 2),
{
    assert(chain_step(t, offs, 0, len));
    assert forall|k: int| 0 <= k < offs.drop_first().len() - 1 implies #[trigger] chain_step(
        t,
        offs.drop_first(),
        k,
        len,
    ) by {
        assert(chain_step(t, offs, k + 1, len));
    }
}

/// Every IVHD block of an IVRS table (type 0x10, 0x11 or 0x40, at least
/// 24 bytes) gives exactly one unit with its segment and register base,
/// in table order, and no other block gives one.
pub proof fn ivrs_units_are_its_ivhd_blocks(t: Seq<u8>, offs: Seq<int>, len: int)
    requires
        structure_chain(t, offs, len),
    ensures
        ivrs_walk(t, offs[0], len) == chain_ivhd_units(t, offs),
    decreases offs.len(),
{
    if offs.len() > 1 {
        lemma_chain_tail(t, offs, len);
        ivrs_units_are_its_ivhd_blocks(t, offs.drop_first(), len);
        assert(chain_step(t, offs, 0, len));
    }
}

/// The DRHD unit a remapping structure at `o` of length `sl` gives, when it
/// is one (type 0, at least 16 bytes).
pub open spec fn chain_drhd(t: Seq<u8>, o: int, sl: int) -> Seq<DrhdView> {
    if le16(t, o) == 0 {
        match drhd_spec(t.subrange(o, o + sl)) {
            Some(u) => seq![u],
            None => Seq::empty(),
        }
    } else {
        Seq::empty()
    }
}

/// The RMRR region a remapping structure at `o` of length `sl` gives, when
/// it is one (type 1, at least 24 bytes).
pub open spec fn chain_rmrr(t: Seq<u8>, o: int, sl: int) -> Seq<RmrrView> {
    if le16(t, o) == 1 {
        match rmrr_spec(t.subrange(o, o + sl)) {
            Some(r) => seq![r],
            None => Seq::empty(),
        }
    } else {
        Seq::empty()
    }
}

/// The DRHD units and RMRR regions of the structures of a chain, in order.
pub open spec fn chain_dmar(t: Seq<u8>, offs: Seq<int>) -> (Seq<DrhdView>, Seq<RmrrView>)
    decreases offs.len(),
{
    if offs.len() <= 1 {
        (Seq::empty(), Seq::empty())
    } else {
        let sl = le16(t, offs[0] + 2);
        let rest = chain_dmar(t, offs.drop_first());
        (chain_drhd(t, offs[0], sl) + rest.0, chain_rmrr(t, offs[0], sl) + rest.1)
    }
}

/// Every remapping structure of a DMAR table gives what its own bytes
/// decode to, in table order: a type-0 structure of at least 16 bytes one
/// DRHD unit, a type-1 structure of at least 24 bytes one RMRR region
/// (`parse_drhd` / `parse_rmrr` of its bytes), any other nothing.
pub proof fn dmar_units_are_its_structures(t: Seq<u8>, offs: Seq<int>, len: int)
    requires
        structure_chain(t, offs, len),
    ensures
        dmar_walk(t, offs[0], len) == chain_dmar(t, offs),
    decreases offs.len(),
{
    if offs.len() > 1 {
        lemma_chain_tail(t, offs, len);
        dmar_units_are_its_structures(t, offs.drop_first(), len);
        assert(chain_step(t, offs, 0, len));
        let sl = le16(t, offs[0] + 2);
        let rest = dmar_walk(t, offs[0] + sl, len);
        assert(Seq::<DrhdView>::empty() + rest.0 =~= rest.0);
        assert(Seq::<RmrrView>::empty() + rest.1 =~= rest.1);
    } else {
        assert(Seq::<DrhdView>::empty() + Seq::<DrhdView>::empty() =~= Seq::<DrhdView>::empty());
    }
}

} // verus!
