//! Decisions of the NVRAM self-install and of self-loop detection.
//!
//! The firmware variable reads and writes are made by the caller; this
//! module decides, from what was read, which `Boot####` slot to write and
//! with which bytes, and how `BootOrder` changes.
use vstd::prelude::*;

use crate::boot_entry_pure::{
    boot_order_bytes, boot_order_values, boot_order_with_front, decode_boot_order,
    encode_boot_order, encode_load_option, first_free_boot_number, load_option_bytes,
    load_option_description, load_option_description_roundtrip, order_with_front,
    parse_load_option_description, LOAD_OPTION_ACTIVE,
};
use crate::text::{chars_of, push_char, str_eq};

verus! {

/// Upper bound of the `Boot####` scan and of the free-slot search.
pub const BOOT_SCAN_MAX: u16 = 0x00FF;

/// Outcome of the self-install, for the caller to audit.
#[derive(Debug, Clone, Copy, PartialEq, Eq, Structural)]
pub enum SelfInstall {
    /// Created `Boot####` (number) and front-loaded `BootOrder`.
    Created(u16),
    /// An entry with the same description already existed at `Boot####`.
    AlreadyPresent(u16),
    /// No device path for the running image.
    NoDevicePath,
    /// A firmware variable read or write, or the device-path build, failed.
    Failed,
}

/// What the self-install does once the existing `Boot####` variables are
/// known.
#[derive(Debug, Clone, PartialEq, Eq)]
pub enum InstallPlan {
    /// An entry with the description exists at this slot: write nothing.
    AlreadyPresent(u16),
    /// Write `option` to `Boot####` `num`, then front-load `num`.
    Create { num: u16, option: Vec<u8> },
    /// Every slot in `0..=BOOT_SCAN_MAX` is used.
    NoFreeSlot,
}

/// An install plan as plain values.
pub enum PlanView {
    AlreadyPresent(u16),
    Create(u16, Seq<u8>),
    NoFreeSlot,
}

impl View for InstallPlan {
    type V = PlanView;

    open spec fn view(&self) -> PlanView {
        match self {
            InstallPlan::AlreadyPresent(n) => PlanView::AlreadyPresent(*n),
            InstallPlan::Create { num, option } => PlanView::Create(*num, option@),
            InstallPlan::NoFreeSlot => PlanView::NoFreeSlot,
        }
    }
}

/// A `Boot####` variable found by the scan: its number and its bytes.
pub struct BootSlot {
    pub num: u16,
    pub data: Vec<u8>,
}

pub open spec fn slot_views(slots: Seq<BootSlot>) -> Seq<(u16, Seq<u8>)> {
    slots.map_values(|s: BootSlot| (s.num, s.data@))
}

/// Whether the slot's load option carries `description`.
pub open spec fn names(slot: (u16, Seq<u8>), description: Seq<char>) -> bool {
    load_option_description(slot.1) == Some(description)
}

/// Index of the first slot carrying `description`, from `i` on, or `-1`.
pub open spec fn first_named(slots: Seq<(u16, Seq<u8>)>, description: Seq<char>, i: int) -> int
    decreases slots.len() - i,
{
    if i < 0 || i >= slots.len() {
        -1
    } else if names(slots[i], description) {
        i
    } else {
        first_named(slots, description, i + 1)
    }
}

/// The slot numbers of the scan.
pub open spec fn used_numbers(slots: Seq<(u16, Seq<u8>)>) -> Seq<u16> {
    slots.map_values(|s: (u16, Seq<u8>)| s.0)
}

/// The least number in `0..=BOOT_SCAN_MAX` not among `used`.
pub open spec fn is_first_free(n: u16, used: Seq<u16>) -> bool {
    &&& n <= BOOT_SCAN_MAX
    &&& !used.contains(n)
    &&& forall|m: u16| m < n ==> used.contains(m)
}

/// What `plan_self_install` decides: the first scanned slot that already
/// carries `description`, else a new entry at the lowest free number with
/// an active load option for `description` and `device_path`, else
/// `NoFreeSlot`.
pub open spec fn plan_ok(
    slots: Seq<(u16, Seq<u8>)>,
    description: Seq<char>,
    device_path: Seq<u8>,
    plan: PlanView,
) -> bool {
    let i = first_named(slots, description, 0);
    if i >= 0 {
        plan == PlanView::AlreadyPresent(slots[i].0)
    } else {
        match plan {
            PlanView::Create(n, option) => is_first_free(n, used_numbers(slots)) && option
                == load_option_bytes(LOAD_OPTION_ACTIVE, description, device_path, Seq::empty()),
            PlanView::NoFreeSlot => forall|m: u16|
                m <= BOOT_SCAN_MAX ==> used_numbers(slots).contains(m),
            PlanView::AlreadyPresent(_) => false,
        }
    }
}

proof fn lemma_first_named(slots: Seq<(u16, Seq<u8>)>, description: Seq<char>, i: int)
    requires
        0 <= i,
    ensures
        first_named(slots, description, i) == -1 || (i <= first_named(slots, description, i)
            < slots.len() && names(slots[first_named(slots, description, i)], description)),
        first_named(slots, description, i) == -1 ==> forall|k: int|
            i <= k < slots.len() ==> !names(#[trigger] slots[k], description),
    decreases slots.len() - i,
{
    if i < slots.len() && !names(slots[i], description) {
        lemma_first_named(slots, description, i + 1);
    }
}

/// Decide the self-install from the scanned `Boot####` variables (in scan
/// order), the entry's description and the device path of the binary.
pub fn plan_self_install(slots: &[BootSlot], description: &str, device_path: &[u8]) -> (r:
    InstallPlan)
    ensures
        plan_ok(slot_views(slots@), description@, device_path@, r@),
{
    let ghost sv = slot_views(slots@);
    let mut used: Vec<u16> = Vec::new();
    let mut i: usize = 0;
    while i < slots.len()
        invariant
            i <= slots@.len(),
            sv == slot_views(slots@),
            used@ == used_numbers(sv.subrange(0, i as int)),
            first_named(sv, description@, 0) == first_named(sv, description@, i as int),
        decreases slots@.len() - i,
    {
        let slot = &slots[i];
        assert(sv[i as int] == (slot.num, slot.data@));
        let found = match parse_load_option_description(slot.data.as_slice()) {
            Some(d) => str_eq(d.as_str(), description),
            None => false,
        };
        if found {
            return InstallPlan::AlreadyPresent(slot.num);
        }
        used.push(slot.num);
        assert(used_numbers(sv.subrange(0, i + 1)) =~= used_numbers(sv.subrange(0, i as int)).push(
            slot.num,
        ));
        i += 1;
    }
    assert(sv.subrange(0, slots@.len() as int) =~= sv);
    match first_free_boot_number(used.as_slice(), BOOT_SCAN_MAX) {
        None => InstallPlan::NoFreeSlot,
        Some(num) => {
            let empty: [u8; 0] = [];
            assert(empty@ =~= Seq::<u8>::empty());
            let option = encode_load_option(
                LOAD_OPTION_ACTIVE,
                description,
                device_path,
                empty.as_slice(),
            );
            InstallPlan::Create { num, option }
        },
    }
}

/// The `BootOrder` payload after front-loading `num`: the decoded order
/// with `num` put first unless it is already present.
pub fn front_loaded_boot_order(order_bytes: &[u8], num: u16) -> (r: Vec<u8>)
    ensures
        r@ == boot_order_bytes(order_with_front(boot_order_values(order_bytes@), num)),
{
    let order = decode_boot_order(order_bytes);
    let new_order = boot_order_with_front(order.as_slice(), num);
    encode_boot_order(new_order.as_slice())
}

/// Once the planned entry has been written, planning again finds it: for
/// a description without a NUL character, any later scan that holds the
/// written slot and otherwise only slots of the earlier scan answers
/// `AlreadyPresent` with the number that was created.
pub proof fn self_install_idempotent(
    before: Seq<(u16, Seq<u8>)>,
    after: Seq<(u16, Seq<u8>)>,
    description: Seq<char>,
    device_path: Seq<u8>,
    num: u16,
    option: Seq<u8>,
    again: PlanView,
)
    requires
        forall|i: int| 0 <= i < description.len() ==> description[i] != '\0',
        plan_ok(before, description, device_path, PlanView::Create(num, option)),
        after.contains((num, option)),
        forall|k: int|
            0 <= k < after.len() ==> after[k] == (num, option) || before.contains(
                #[trigger] after[k],
            ),
        plan_ok(after, description, device_path, again),
    ensures
        again == PlanView::AlreadyPresent(num),
{
    lemma_first_named(before, description, 0);
    lemma_first_named(after, description, 0);
    load_option_description_roundtrip(LOAD_OPTION_ACTIVE, description, device_path, Seq::empty());
    assert(names((num, option), description));
    let w = choose|w: int| 0 <= w < after.len() && after[w] == (num, option);
    assert(names(after[w], description));
    let i = first_named(after, description, 0);
    assert(i >= 0);
    if after[i] != (num, option) {
        assert(before.contains(after[i]));
        let j = choose|j: int| 0 <= j < before.len() && before[j] == after[i];
        assert(!names(before[j], description));
    }
}

/// The units of all file-path nodes, in order.
pub open spec fn concat_units(nodes: Seq<Seq<u16>>) -> Seq<u16>
    decreases nodes.len(),
{
    if nodes.len() == 0 {
        Seq::empty()
    } else {
        concat_units(nodes.drop_last()) + nodes.last()
    }
}

pub open spec fn node_views(nodes: Seq<Vec<u16>>) -> Seq<Seq<u16>> {
    nodes.map_values(|n: Vec<u16>| n@)
}

/// The path the running image was loaded from, from the UTF-16 units of
/// its device path's file-path nodes: NUL units and units that are not a
/// character (lone surrogates) are dropped.
pub open spec fn image_path(units: Seq<u16>) -> Seq<char>
    decreases units.len(),
{
    if units.len() == 0 {
        Seq::empty()
    } else {
        let u = units.last();
        let rest = image_path(units.drop_last());
        if u == 0 || (0xD800 <= u <= 0xDFFF) {
            rest
        } else {
            rest.push((u as u32) as char)
        }
    }
}

/// `char::from_u32`: the character with this scalar value, `None` for a
/// surrogate or a value above `0x10FFFF`.
#[verifier::external_body]
fn char_from_u32(u: u32) -> (r: Option<char>)
    ensures
        match r {
            Some(c) => c as u32 == u && !(0xD800 <= u <= 0xDFFF) && u <= 0x10FFFF,
            None => (0xD800 <= u <= 0xDFFF) || u > 0x10FFFF,
        },
{
    char::from_u32(u)
}

/// The path the running image was loaded from, from the units of its
/// device path's file-path nodes; `None` when nothing is left of them.
pub fn running_image_path(nodes: &[Vec<u16>]) -> (r: Option<String>)
    ensures
        match r {
            Some(p) => p@ == image_path(concat_units(node_views(nodes@))) && p@.len() > 0,
            None => image_path(concat_units(node_views(nodes@))).len() == 0,
        },
{
    let mut out = String::new();
    let ghost mut seen: Seq<u16> = Seq::empty();
    let mut i: usize = 0;
    while i < nodes.len()
        invariant
            i <= nodes@.len(),
            seen == concat_units(node_views(nodes@.subrange(0, i as int))),
            out@ == image_path(seen),
        decreases nodes@.len() - i,
    {
        let node = &nodes[i];
        let mut j: usize = 0;
        let ghost base = seen;
        proof {
            assert(node@.subrange(0, 0) =~= Seq::<u16>::empty());
            assert(base + Seq::<u16>::empty() =~= base);
        }
        while j < node.len()
            invariant
                j <= node@.len(),
                seen == base + node@.subrange(0, j as int),
                out@ == image_path(seen),
            decreases node@.len() - j,
        {
            let u = node[j];
            proof {
                let next = seen.push(u);
                assert(next.drop_last() == seen);
                assert(node@.subrange(0, j + 1) == node@.subrange(0, j as int).push(u));
                assert(base + node@.subrange(0, j + 1) == next);
            }
            if u != 0 {
                match char_from_u32(u as u32) {
                    Some(c) => {
                        proof {
                            vstd::utf8::char_u32_cast(c, u as u32);
                        }
                        push_char(&mut out, c);
                    },
                    None => {},
                }
            }
            proof {
                seen = seen.push(u);
            }
            j += 1;
        }
        proof {
            assert(node@.subrange(0, node@.len() as int) == node@);
            let pre = nodes@.subrange(0, i as int);
            let pre1 = nodes@.subrange(0, i + 1);
            assert(pre1 == pre.push(nodes@[i as int]));
            assert(node_views(pre1) =~= node_views(pre).push(node@));
            assert(node_views(pre1).drop_last() =~= node_views(pre));
        }
        i += 1;
    }
    assert(nodes@.subrange(0, nodes@.len() as int) == nodes@);
    if out.as_str().is_empty() {
        None
    } else {
        Some(out)
    }
}

/// Whether `p`, upper-cased in ASCII, ends with `\EFI\BOOT\BOOTX64.EFI` or
/// `/EFI/BOOT/BOOTX64.EFI`: LamBoot was launched from the removable-media
/// fallback path.
pub open spec fn removable_fallback(p: Seq<char>) -> bool {
    let up = ascii_upper(p);
    ends_with(up, fallback_path('\\')) || ends_with(up, fallback_path('/'))
}

/// ASCII upper case of one character.
pub open spec fn upper(c: char) -> char {
    if 'a' <= c <= 'z' {
        ((c as u32) - 32) as char
    } else {
        c
    }
}

pub open spec fn ascii_upper(s: Seq<char>) -> Seq<char> {
    s.map_values(|c: char| upper(c))
}

pub open spec fn ends_with(s: Seq<char>, t: Seq<char>) -> bool {
    t.len() <= s.len() && s.subrange(s.len() - t.len(), s.len() as int) == t
}

/// `<sep>EFI<sep>BOOT<sep>BOOTX64.EFI`.
pub open spec fn fallback_path(sep: char) -> Seq<char> {
    seq![sep, 'E', 'F', 'I', sep, 'B', 'O', 'O', 'T', sep, 'B', 'O', 'O', 'T', 'X', '6', '4', '.', 'E', 'F', 'I']
}

fn upper_char(c: char) -> (r: char)
    ensures
        r == upper(c),
{
    if 'a' <= c && c <= 'z' {
        ((c as u8) - 32) as char
    } else {
        c
    }
}

fn ends_with_path(up: &Vec<char>, sep: char) -> (r: bool)
    ensures
        r == ends_with(up@, fallback_path(sep)),
{
    let t = vec![sep, 'E', 'F', 'I', sep, 'B', 'O', 'O', 'T', sep, 'B', 'O', 'O', 'T', 'X', '6', '4', '.', 'E', 'F', 'I'];
    assert(t@ =~= fallback_path(sep));
    let n = up.len();
    let m = t.len();
    if m > n {
        return false;
    }
    let mut k: usize = 0;
    while k < m
        invariant
            m == t@.len(),
            t@ == fallback_path(sep),
            n == up@.len(),
            m <= n,
            k <= m,
            forall|j: int| 0 <= j < k ==> up@[n - m + j] == t@[j],
        decreases m - k,
    {
        if up[n - m + k] != t[k] {
            assert(up@.subrange(n - m, n as int)[k as int] != t@[k as int]);
            return false;
        }
        k += 1;
    }
    assert(up@.subrange(n - m, n as int) =~= t@);
    true
}

/// Whether the image path is the firmware removable-media fallback path
/// (case-insensitive, either separator).
pub fn is_removable_fallback_path(path: &str) -> (r: bool)
    ensures
        r == removable_fallback(path@),
{
    let v = chars_of(path);
    let mut up: Vec<char> = Vec::new();
    let mut i: usize = 0;
    while i < v.len()
        invariant
            v@ == path@,
            i <= v@.len(),
            up@ == ascii_upper(v@.subrange(0, i as int)),
        decreases v@.len() - i,
    {
        up.push(upper_char(v[i]));
        assert(ascii_upper(v@.subrange(0, i + 1)) =~= ascii_upper(v@.subrange(0, i as int)).push(
            upper(v@[i as int]),
        ));
        i += 1;
    }
    assert(v@.subrange(0, v@.len() as int) == v@);
    ends_with_path(&up, '\\') || ends_with_path(&up, '/')
}

} // verus!
