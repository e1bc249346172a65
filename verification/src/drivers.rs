//! Legacy UEFI filesystem drivers: which driver files are loaded and which
//! are skipped because a built-in backend covers their filesystem.
use vstd::prelude::*;

use crate::bls_parse::{has_extension, has_extension_ignore_case};
use crate::text::{str_to_lowercase, unicode_lowercase};
use crate::text::{chars_of, range_starts_with};

verus! {

/// Directory of the driver files on the ESP.
pub const DRIVERS_DIR: &'static str = "/EFI/LamBoot/drivers";

/// Policy on legacy UEFI filesystem drivers.
#[derive(Debug, Clone, Copy, PartialEq, Eq, Structural)]
pub enum DriversLegacyMode {
    /// Load a driver unless a built-in backend covers its filesystem.
    Auto,
    /// Load every driver.
    Always,
    /// Load none.
    Never,
}

/// What happens to one driver file.
#[derive(Debug, Clone, Copy, PartialEq, Eq, Structural)]
pub enum DriverDecision {
    /// Skipped: the policy loads no legacy driver.
    SkipPolicy,
    /// Skipped: a built-in backend covers the filesystem.
    SkipCovered,
    /// Loaded although a built-in backend covers the filesystem.
    LoadRedundant,
    /// Loaded.
    Load,
}

pub open spec fn starts(s: Seq<char>, p: Seq<char>) -> bool {
    p.len() <= s.len() && s.subrange(0, p.len() as int) == p
}

/// Whether a built-in backend covers the filesystem of a driver file: its
/// lower-cased name starts with `ext2_`, `ext3_`, `ext4_`, `fat_` or
/// `vfat_`.
pub open spec fn natively_covered(name: Seq<char>) -> bool {
    let l = unicode_lowercase(name);
    starts(l, "ext4_"@) || starts(l, "ext2_"@) || starts(l, "ext3_"@) || starts(l, "fat_"@)
        || starts(l, "vfat_"@)
}

/// Whether a built-in backend covers the filesystem a driver file is for.
pub fn filesystem_natively_covered(driver_filename: &str) -> (r: bool)
    ensures
        r == natively_covered(driver_filename@),
{
    let lower = str_to_lowercase(driver_filename);
    let v = chars_of(lower.as_str());
    let n = v.len();
    assert(v@.subrange(0, n as int) == v@);
    range_starts_with(&v, 0, n, "ext4_") || range_starts_with(&v, 0, n, "ext2_")
        || range_starts_with(&v, 0, n, "ext3_") || range_starts_with(&v, 0, n, "fat_")
        || range_starts_with(&v, 0, n, "vfat_")
}

/// The decision for one driver file under the policy.
pub open spec fn decision(name: Seq<char>, mode: DriversLegacyMode) -> DriverDecision {
    match mode {
        DriversLegacyMode::Never => DriverDecision::SkipPolicy,
        DriversLegacyMode::Auto => if natively_covered(name) {
            DriverDecision::SkipCovered
        } else {
            DriverDecision::Load
        },
        DriversLegacyMode::Always => if natively_covered(name) {
            DriverDecision::LoadRedundant
        } else {
            DriverDecision::Load
        },
    }
}

/// Decide what to do with one driver file.
pub fn driver_decision(filename: &str, mode: DriversLegacyMode) -> (r: DriverDecision)
    ensures
        r == decision(filename@, mode),
{
    match mode {
        DriversLegacyMode::Never => DriverDecision::SkipPolicy,
        DriversLegacyMode::Auto => if filesystem_natively_covered(filename) {
            DriverDecision::SkipCovered
        } else {
            DriverDecision::Load
        },
        DriversLegacyMode::Always => if filesystem_natively_covered(filename) {
            DriverDecision::LoadRedundant
        } else {
            DriverDecision::Load
        },
    }
}

pub open spec fn efi_files(names: Seq<Seq<char>>) -> Seq<Seq<char>> {
    names.filter(|n: Seq<char>| has_extension(n, "efi"@))
}

/// The driver files of the drivers directory: names ending in `.efi`
/// (any case), in listing order.
pub fn driver_files(names: &[String]) -> (r: Vec<String>)
    ensures
        r@.map_values(|s: String| s@) == efi_files(names@.map_values(|s: String| s@)),
{
    let ghost all = names@.map_values(|s: String| s@);
    let mut out: Vec<String> = Vec::new();
    let mut i: usize = 0;
    while i < names.len()
        invariant
            i <= names@.len(),
            all == names@.map_values(|s: String| s@),
            out@.map_values(|s: String| s@) == efi_files(all.subrange(0, i as int)),
        decreases names@.len() - i,
    {
        proof {
            reveal_strlit("efi");
            assert(all.subrange(0, i + 1) =~= all.subrange(0, i as int).push(all[i as int]));
            all.subrange(0, i as int).lemma_filter_push(
                all[i as int],
                |n: Seq<char>| has_extension(n, "efi"@),
            );
        }
        let ghost before = out@.map_values(|s: String| s@);
        if has_extension_ignore_case(names[i].as_str(), "efi") {
            out.push(String::from_str(names[i].as_str()));
            assert(out@.map_values(|s: String| s@) =~= before.push(all[i as int]));
        }
        i += 1;
    }
    assert(all.subrange(0, all.len() as int) =~= all);
    out
}

/// A trust-log event of the driver loop.
#[derive(Debug, Clone, Copy, PartialEq, Eq, Structural)]
pub enum DriverEvent {
    /// `legacy_driver_skipped_policy`.
    SkippedPolicy,
    /// `native_backend_preferred`.
    NativeBackendPreferred,
    /// `legacy_driver_skipped_covered`.
    SkippedCovered,
    /// `legacy_driver_redundant`.
    Redundant,
    /// `legacy_driver_loaded`.
    Loaded,
    /// `legacy_driver_rejected`.
    Rejected,
}

/// The events recorded for one driver file under decision `d`; `ok` is
/// whether loading it succeeded (unused when it is skipped).
pub open spec fn events_for(d: DriverDecision, ok: bool) -> Seq<DriverEvent> {
    let outcome = if ok {
        DriverEvent::Loaded
    } else {
        DriverEvent::Rejected
    };
    match d {
        DriverDecision::SkipPolicy => seq![DriverEvent::SkippedPolicy],
        DriverDecision::SkipCovered => seq![DriverEvent::NativeBackendPreferred, DriverEvent::SkippedCovered],
        DriverDecision::LoadRedundant => seq![DriverEvent::Redundant, outcome],
        DriverDecision::Load => seq![outcome],
    }
}

/// The events to record for one driver file.
pub fn driver_events(d: DriverDecision, ok: bool) -> (r: Vec<DriverEvent>)
    ensures
        r@ == events_for(d, ok),
{
    let outcome = if ok {
        DriverEvent::Loaded
    } else {
        DriverEvent::Rejected
    };
    let r = match d {
        DriverDecision::SkipPolicy => vec![DriverEvent::SkippedPolicy],
        DriverDecision::SkipCovered => vec![DriverEvent::NativeBackendPreferred, DriverEvent::SkippedCovered],
        DriverDecision::LoadRedundant => vec![DriverEvent::Redundant, outcome],
        DriverDecision::Load => vec![outcome],
    };
    assert(r@ =~= events_for(d, ok));
    r
}

/// The driver loop's counts.
#[derive(Debug, Clone, Copy, PartialEq, Eq, Structural)]
pub struct DriverTally {
    pub loaded: usize,
    pub skipped_covered: usize,
    pub skipped_policy: usize,
}

/// The counts after one more driver file: a successful load counts as
/// loaded, a skip by its reason, a failed load not at all.
pub open spec fn tallied(t: DriverTally, d: DriverDecision, ok: bool) -> DriverTally {
    match d {
        DriverDecision::SkipPolicy => DriverTally { skipped_policy: (t.skipped_policy + 1) as usize, ..t },
        DriverDecision::SkipCovered => DriverTally { skipped_covered: (t.skipped_covered + 1) as usize, ..t },
        _ => if ok {
            DriverTally { loaded: (t.loaded + 1) as usize, ..t }
        } else {
            t
        },
    }
}

/// Count one driver file.
pub fn tally_driver(t: DriverTally, d: DriverDecision, ok: bool) -> (r: DriverTally)
    requires
        t.loaded < usize::MAX,
        t.skipped_covered < usize::MAX,
        t.skipped_policy < usize::MAX,
    ensures
        r == tallied(t, d, ok),
{
    match d {
        DriverDecision::SkipPolicy => DriverTally { skipped_policy: t.skipped_policy + 1, ..t },
        DriverDecision::SkipCovered => DriverTally { skipped_covered: t.skipped_covered + 1, ..t },
        _ => if ok {
            DriverTally { loaded: t.loaded + 1, ..t }
        } else {
            t
        },
    }
}

/// The counts of a whole driver directory: `decisions[i]` is the decision
/// for the `i`-th driver file and `ok[i]` whether loading it succeeded.
pub open spec fn tally_all(decisions: Seq<DriverDecision>, ok: Seq<bool>) -> DriverTally
    decreases decisions.len(),
{
    if decisions.len() == 0 {
        DriverTally { loaded: 0, skipped_covered: 0, skipped_policy: 0 }
    } else {
        tallied(
            tally_all(decisions.drop_last(), ok.drop_last()),
            decisions.last(),
            ok[decisions.len() - 1],
        )
    }
}

/// Controllers are reconnected after the loop exactly when a driver
/// loaded.
pub open spec fn reconnect_needed(t: DriverTally) -> bool {
    t.loaded > 0
}

/// The counts of a whole driver directory, and whether to reconnect the
/// controllers afterwards.
pub fn tally_drivers(decisions: &[DriverDecision], ok: &[bool]) -> (r: (DriverTally, bool))
    requires
        ok@.len() == decisions@.len(),
    ensures
        r.0 == tally_all(decisions@, ok@),
        r.1 == reconnect_needed(r.0),
{
    let mut t = DriverTally { loaded: 0, skipped_covered: 0, skipped_policy: 0 };
    let mut i: usize = 0;
    while i < decisions.len()
        invariant
            i <= decisions@.len(),
            ok@.len() == decisions@.len(),
            t == tally_all(decisions@.subrange(0, i as int), ok@.subrange(0, i as int)),
            t.loaded <= i && t.skipped_covered <= i && t.skipped_policy <= i,
        decreases decisions@.len() - i,
    {
        let ghost ds = decisions@.subrange(0, i + 1);
        let ghost os = ok@.subrange(0, i + 1);
        assert(ds.drop_last() =~= decisions@.subrange(0, i as int));
        assert(os.drop_last() =~= ok@.subrange(0, i as int));
        assert(ds.last() == decisions@[i as int]);
        assert(os[ds.len() - 1] == ok@[i as int]);
        t = tally_driver(t, decisions[i], ok[i]);
        i += 1;
    }
    assert(decisions@.subrange(0, i as int) =~= decisions@);
    assert(ok@.subrange(0, i as int) =~= ok@);
    (t, t.loaded > 0)
}

} // verus!
