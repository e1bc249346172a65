//! The entry booted without the menu: the configured fallback, or after a
//! crash loop the first entry that can boot unattended.
use vstd::prelude::*;

use crate::boot_types::{BootEntry, Icon, PreflightStatus};
use crate::console::{id_index, menu_config, MenuConfig, bootable, entry_icons};
use crate::text::str_eq;

verus! {

/// Index of the first entry whose id is `id`, or `-1`.
pub open spec fn entry_with_id(es: Seq<BootEntry>, id: Seq<char>, i: int) -> int
    decreases es.len() - i,
{
    if i < 0 || i >= es.len() {
        -1
    } else if es[i].id@ == id {
        i
    } else {
        entry_with_id(es, id, i + 1)
    }
}

/// The configured fallback: for the first id of `order` that some entry
/// has, the first entry with that id.
pub open spec fn fallback_choice(es: Seq<BootEntry>, order: Seq<Seq<char>>, k: int) -> int
    decreases order.len() - k,
{
    if k < 0 || k >= order.len() {
        -1
    } else if entry_with_id(es, order[k], 0) >= 0 {
        entry_with_id(es, order[k], 0)
    } else {
        fallback_choice(es, order, k + 1)
    }
}

proof fn lemma_entry_with_id(es: Seq<BootEntry>, id: Seq<char>, i: int)
    requires
        0 <= i,
    ensures
        entry_with_id(es, id, i) == -1 || i <= entry_with_id(es, id, i) < es.len(),
    decreases es.len() - i,
{
    if i < es.len() && es[i].id@ != id {
        lemma_entry_with_id(es, id, i + 1);
    }
}

fn find_id(entries: &[BootEntry], id: &String) -> (r: Option<usize>)
    ensures
        match r {
            Some(i) => entry_with_id(entries@, id@, 0) == i && i < entries@.len(),
            None => entry_with_id(entries@, id@, 0) == -1,
        },
{
    let mut i: usize = 0;
    while i < entries.len()
        invariant
            i <= entries@.len(),
            entry_with_id(entries@, id@, 0) == entry_with_id(entries@, id@, i as int),
        decreases entries@.len() - i,
    {
        if str_eq(entries[i].id.as_str(), id.as_str()) {
            return Some(i);
        }
        i += 1;
    }
    None
}

/// Index of the configured fallback entry: the first id of
/// `fallback_order` that an entry has.
pub fn select_fallback(entries: &[BootEntry], fallback_order: &[String]) -> (r: Option<usize>)
    ensures
        match r {
            Some(i) => fallback_choice(entries@, fallback_order@.map_values(|s: String| s@), 0)
                == i && i < entries@.len(),
            None => fallback_choice(entries@, fallback_order@.map_values(|s: String| s@), 0) == -1,
        },
{
    let ghost order = fallback_order@.map_values(|s: String| s@);
    let mut k: usize = 0;
    while k < fallback_order.len()
        invariant
            k <= fallback_order@.len(),
            order == fallback_order@.map_values(|s: String| s@),
            fallback_choice(entries@, order, 0) == fallback_choice(entries@, order, k as int),
        decreases fallback_order@.len() - k,
    {
        assert(order[k as int] == fallback_order@[k as int]@);
        if let Some(i) = find_id(entries, &fallback_order[k]) {
            return Some(i);
        }
        k += 1;
    }
    None
}

/// Whether an entry may be booted unattended after crashes: not a tool.
pub open spec fn bootable_entry(e: BootEntry) -> bool {
    e.icon != Icon::Tools
}

/// Whether an entry is bootable and did not fail preflight.
pub open spec fn clean_entry(e: BootEntry) -> bool {
    e.icon != Icon::Tools && !(e.preflight matches Some(p) && p.status == PreflightStatus::Error)
}

/// Index of the first entry from `i` on that is bootable and passed
/// preflight, or `-1`.
pub open spec fn first_clean(es: Seq<BootEntry>, i: int) -> int
    decreases es.len() - i,
{
    if i < 0 || i >= es.len() {
        -1
    } else if clean_entry(es[i]) {
        i
    } else {
        first_clean(es, i + 1)
    }
}

/// Index of the first bootable entry from `i` on, or `-1`.
pub open spec fn first_bootable(es: Seq<BootEntry>, i: int) -> int
    decreases es.len() - i,
{
    if i < 0 || i >= es.len() {
        -1
    } else if bootable_entry(es[i]) {
        i
    } else {
        first_bootable(es, i + 1)
    }
}

fn is_clean(e: &BootEntry) -> (r: bool)
    ensures
        r == clean_entry(*e),
{
    if e.icon == Icon::Tools {
        return false;
    }
    match &e.preflight {
        Some(p) => p.status != PreflightStatus::Error,
        None => true,
    }
}

/// The crash-loop recovery pick when no fallback is configured: the first
/// non-tool entry that passed preflight, else the first non-tool entry.
pub fn select_crash_recovery_entry(entries: &[BootEntry]) -> (r: Option<usize>)
    ensures
        ({
            let c = first_clean(entries@, 0);
            let b = first_bootable(entries@, 0);
            match r {
                Some(i) => i < entries@.len() && if c >= 0 {
                    i == c
                } else {
                    i == b
                },
                None => c == -1 && b == -1,
            }
        }),
{
    let mut i: usize = 0;
    while i < entries.len()
        invariant
            i <= entries@.len(),
            first_clean(entries@, 0) == first_clean(entries@, i as int),
        decreases entries@.len() - i,
    {
        if is_clean(&entries[i]) {
            return Some(i);
        }
        i += 1;
    }
    let mut j: usize = 0;
    while j < entries.len()
        invariant
            j <= entries@.len(),
            first_clean(entries@, 0) == -1,
            first_bootable(entries@, 0) == first_bootable(entries@, j as int),
        decreases entries@.len() - j,
    {
        if entries[j].icon != Icon::Tools {
            return Some(j);
        }
        j += 1;
    }
    None
}


// ---------------------------------------------------------------------------
// The selection step of the boot loop
// ---------------------------------------------------------------------------

/// Auto-boot timeout of the menu shown after a crash loop with no
/// fallback configured.
pub const CRASH_RECOVERY_TIMEOUT_MS: u32 = 8000;

/// How the boot loop chooses what to boot.
#[derive(Debug, Clone, Copy, PartialEq, Eq, Structural)]
pub enum SelectionPlan {
    /// Boot entry `i` without a menu (the configured fallback, in a crash
    /// loop).
    Direct(usize),
    /// Show the menu with a short timeout and entry `i` (the crash-recovery
    /// pick) as its default.
    RecoveryMenu(usize),
    /// Show the normal menu.
    Menu,
}

/// The plan: outside a crash loop, the menu; in one, the configured
/// fallback when some entry matches it, else a short-timeout menu that
/// defaults to the crash-recovery pick, else the normal menu.
pub open spec fn selection_plan(in_crash_loop: bool, es: Seq<BootEntry>, order: Seq<Seq<char>>) -> SelectionPlan {
    let c = first_clean(es, 0);
    let b = first_bootable(es, 0);
    if !in_crash_loop {
        SelectionPlan::Menu
    } else if fallback_choice(es, order, 0) >= 0 {
        SelectionPlan::Direct(fallback_choice(es, order, 0) as usize)
    } else if c >= 0 {
        SelectionPlan::RecoveryMenu(c as usize)
    } else if b >= 0 {
        SelectionPlan::RecoveryMenu(b as usize)
    } else {
        SelectionPlan::Menu
    }
}

/// Decides how the boot loop picks the entry to boot.
pub fn plan_selection(in_crash_loop: bool, entries: &[BootEntry], fallback_order: &[String]) -> (r:
    SelectionPlan)
    ensures
        r == selection_plan(in_crash_loop, entries@, fallback_order@.map_values(|s: String| s@)),
{
    if !in_crash_loop {
        return SelectionPlan::Menu;
    }
    if let Some(i) = select_fallback(entries, fallback_order) {
        return SelectionPlan::Direct(i);
    }
    match select_crash_recovery_entry(entries) {
        Some(i) => SelectionPlan::RecoveryMenu(i),
        None => SelectionPlan::Menu,
    }
}

/// The menu settings after a crash loop: the crash-recovery timeout, with
/// entry `pick` as the default.
pub fn recovery_menu_config(entries: &[BootEntry], pick: usize) -> (r: MenuConfig)
    requires
        pick < entries@.len(),
    ensures
        r.entries == entries@.len(),
        r.has_bootable == bootable(entry_icons(entries@)),
        r.timeout_ms == (if r.has_bootable {
            CRASH_RECOVERY_TIMEOUT_MS
        } else {
            0
        }),
        r.default_index == Some(id_index(entries@, entries@[pick as int].id@, 0) as usize),
{
    let id = Some(String::from_str(entries[pick].id.as_str()));
    let cfg = menu_config(entries, &id, CRASH_RECOVERY_TIMEOUT_MS);
    proof {
        crate::console::lemma_id_index_found(entries@, entries@[pick as int].id@, 0, pick as int);
    }
    cfg
}

/// The number of entries that boot something (every entry but the tools).
pub open spec fn bootable_count(es: Seq<BootEntry>) -> nat
    decreases es.len(),
{
    if es.len() == 0 {
        0
    } else {
        bootable_count(es.drop_last()) + if es.last().icon != Icon::Tools {
            1nat
        } else {
            0nat
        }
    }
}

/// Counts the entries that boot something; with none the menu is a
/// recovery menu.
pub fn count_bootable(entries: &[BootEntry]) -> (r: usize)
    ensures
        r == bootable_count(entries@),
{
    let mut n: usize = 0;
    let mut i: usize = 0;
    while i < entries.len()
        invariant
            i <= entries@.len(),
            n == bootable_count(entries@.subrange(0, i as int)),
            n <= i,
        decreases entries@.len() - i,
    {
        assert(entries@.subrange(0, i + 1).drop_last() =~= entries@.subrange(0, i as int));
        if entries[i].icon != Icon::Tools {
            n += 1;
        }
        i += 1;
    }
    assert(entries@.subrange(0, entries@.len() as int) =~= entries@);
    n
}

/// What to do with the boot counter of the chosen BLS entry.
#[derive(Debug, Clone, Copy, PartialEq, Eq, Structural)]
pub enum BootCountAction {
    /// The entry counts no tries: nothing to do.
    Untracked,
    /// Rename the entry file to count the try (its volume is writable FAT).
    Decrement,
    /// The entry counts tries but lives on a read-only backend: record that
    /// the counter was skipped.
    SkippedReadOnly,
}

/// The backend tag of the writable FAT driver.
pub const FAT_BACKEND_TAG: &'static str = "fat";

/// Boot counting for the chosen entry: a counted entry is decremented on
/// the FAT backend and skipped (and recorded) on any other.
pub fn boot_count_action(tries_left: Option<u32>, backend_tag: &str) -> (r: BootCountAction)
    ensures
        r == (if tries_left is None {
            BootCountAction::Untracked
        } else if backend_tag@ == FAT_BACKEND_TAG@ {
            BootCountAction::Decrement
        } else {
            BootCountAction::SkippedReadOnly
        }),
{
    if tries_left.is_none() {
        BootCountAction::Untracked
    } else if str_eq(backend_tag, FAT_BACKEND_TAG) {
        BootCountAction::Decrement
    } else {
        BootCountAction::SkippedReadOnly
    }
}

/// The volume that holds the chosen entry's BLS file: its own volume when
/// that index is mounted (0 is the ESP, `i` the `i`-th extra volume), else
/// the ESP.
pub fn entry_volume(source_volume_index: usize, extra_volumes: usize) -> (r: usize)
    ensures
        r == (if source_volume_index == 0 || source_volume_index - 1 < extra_volumes {
            source_volume_index
        } else {
            0
        }),
{
    if source_volume_index == 0 || source_volume_index - 1 < extra_volumes {
        source_volume_index
    } else {
        0
    }
}

} // verus!
