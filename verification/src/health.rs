//! Boot health: the crash counter kept in NVRAM across boots.
//!
//! Each boot is marked `Booting` when it starts and `BootedOK` once it hands
//! off successfully.  A boot that finds the previous one still `Booting`
//! knows it never completed and counts a crash; a crash loop is a counter
//! at or over the policy threshold.  A changed VM generation id (a restored
//! snapshot or a clone) starts the history afresh.
//!
//! The variables themselves are read and written by the caller; this module
//! decodes them, computes the next values, and encodes what is written.
use vstd::prelude::*;
use vstd::string::StringSliceAdditionalSpecFns;

verus! {

/// The boot state recorded in NVRAM.
#[derive(Debug, Clone, Copy, PartialEq, Eq, Structural)]
pub enum BootState {
    Fresh,
    Booting,
    BootedOK,
    CrashLoop,
}

/// The stored byte of a state.
pub open spec fn state_byte(s: BootState) -> u8 {
    match s {
        BootState::Fresh => 0,
        BootState::Booting => 1,
        BootState::BootedOK => 2,
        BootState::CrashLoop => 3,
    }
}

/// The state a stored byte stands for; an unknown byte reads as `Fresh`.
pub open spec fn state_of_byte(v: u8) -> BootState {
    if v == 1 {
        BootState::Booting
    } else if v == 2 {
        BootState::BootedOK
    } else if v == 3 {
        BootState::CrashLoop
    } else {
        BootState::Fresh
    }
}

impl BootState {
    /// Decodes a stored state byte.
    pub fn from_u8(v: u8) -> (r: BootState)
        ensures
            r == state_of_byte(v),
    {
        match v {
            1 => BootState::Booting,
            2 => BootState::BootedOK,
            3 => BootState::CrashLoop,
            _ => BootState::Fresh,
        }
    }

    /// The byte a state is stored as.
    pub fn to_u8(self) -> (r: u8)
        ensures
            r == state_byte(self),
    {
        match self {
            BootState::Fresh => 0,
            BootState::Booting => 1,
            BootState::BootedOK => 2,
            BootState::CrashLoop => 3,
        }
    }
}

/// Decoding a state's byte gives the state back.
pub proof fn state_byte_roundtrip(s: BootState)
    ensures
        state_of_byte(state_byte(s)) == s,
{
}

/// The health variables as stored in NVRAM.
#[derive(Debug, Clone, Copy)]
pub struct HealthVars {
    pub state: BootState,
    pub crash_counter: u8,
    pub vmgenid: Option<[u8; 16]>,
}

/// The state read from a variable's bytes: `Fresh` when it is missing or
/// empty.
pub fn state_from_var(data: Option<&[u8]>) -> (r: BootState)
    ensures
        r == match data {
            Some(d) if d@.len() > 0 => state_of_byte(d@[0]),
            _ => BootState::Fresh,
        },
{
    match data {
        Some(d) => {
            if d.len() > 0 {
                BootState::from_u8(d[0])
            } else {
                BootState::Fresh
            }
        },
        None => BootState::Fresh,
    }
}

/// The crash counter read from a variable's bytes: 0 when it is missing or
/// empty.
pub fn counter_from_var(data: Option<&[u8]>) -> (r: u8)
    ensures
        r == match data {
            Some(d) if d@.len() > 0 => d@[0],
            _ => 0u8,
        },
{
    match data {
        Some(d) => {
            if d.len() > 0 {
                d[0]
            } else {
                0
            }
        },
        None => 0,
    }
}

/// The generation id read from a variable's bytes: present only when the
/// variable holds exactly 16 bytes.
pub fn genid_from_var(data: Option<&[u8]>) -> (r: Option<[u8; 16]>)
    ensures
        match r {
            Some(g) => data matches Some(d) && d@.len() == 16 && g@ == d@,
            None => !(data matches Some(d) && d@.len() == 16),
        },
{
    match data {
        Some(d) => {
            if d.len() == 16 {
                let mut g = [0u8; 16];
                let mut i: usize = 0;
                while i < 16
                    invariant
                        i <= 16,
                        d@.len() == 16,
                        forall|k: int| 0 <= k < i ==> g@[k] == d@[k],
                    decreases 16 - i,
                {
                    g[i] = d[i];
                    i += 1;
                }
                assert(g@ =~= d@);
                Some(g)
            } else {
                None
            }
        },
        None => None,
    }
}

/// Whether the VM generation id differs from the stored one: a current id
/// is known and none is stored or the stored one differs.
pub open spec fn genid_changed(stored: Option<[u8; 16]>, current: Option<[u8; 16]>) -> bool {
    match current {
        None => false,
        Some(c) => match stored {
            None => true,
            Some(s) => s@ != c@,
        },
    }
}

/// The counter after the previous boot ended in `prev`: one more (up to
/// 255) when it never completed, zero when it completed or nothing is
/// known, unchanged in a recorded crash loop.
pub open spec fn next_counter(prev: BootState, counter: u8) -> u8 {
    match prev {
        BootState::Booting => if counter < 255 {
            (counter + 1) as u8
        } else {
            255u8
        },
        BootState::BootedOK | BootState::Fresh => 0u8,
        BootState::CrashLoop => counter,
    }
}

/// What a boot's health assessment writes and reports: after a generation
/// change, a fresh history (counter 0, state `Fresh`, the new id stored);
/// otherwise the counter moves on from the previous boot's state and this
/// boot is marked `Booting`.
pub open spec fn assessed(vars: HealthVars, current: Option<[u8; 16]>) -> HealthVars {
    if genid_changed(vars.vmgenid, current) {
        HealthVars { state: BootState::Fresh, crash_counter: 0, vmgenid: current }
    } else {
        HealthVars {
            state: BootState::Booting,
            crash_counter: next_counter(vars.state, vars.crash_counter),
            vmgenid: vars.vmgenid,
        }
    }
}

fn same_genid(a: &[u8; 16], b: &[u8; 16]) -> (r: bool)
    ensures
        r == (a@ == b@),
{
    let mut i: usize = 0;
    while i < 16
        invariant
            i <= 16,
            a@.len() == 16,
            b@.len() == 16,
            forall|k: int| 0 <= k < i ==> a@[k] == b@[k],
        decreases 16 - i,
    {
        if a[i] != b[i] {
            return false;
        }
        i += 1;
    }
    assert(a@ =~= b@);
    true
}

/// Assesses the health of this boot from the stored variables and the
/// current VM generation id (when the machine has one).  Returns the
/// variables to store; their counter is this boot's crash counter.
pub fn assess_boot_health(vars: HealthVars, current_genid: Option<[u8; 16]>) -> (r: HealthVars)
    ensures
        r == assessed(vars, current_genid),
{
    let changed = match current_genid {
        None => false,
        Some(c) => match vars.vmgenid {
            None => true,
            Some(s) => !same_genid(&s, &c),
        },
    };
    if changed {
        return HealthVars { state: BootState::Fresh, crash_counter: 0, vmgenid: current_genid };
    }
    let counter = match vars.state {
        BootState::Booting => if vars.crash_counter < 255 {
            vars.crash_counter + 1
        } else {
            255
        },
        BootState::BootedOK | BootState::Fresh => 0,
        BootState::CrashLoop => vars.crash_counter,
    };
    HealthVars { state: BootState::Booting, crash_counter: counter, vmgenid: vars.vmgenid }
}

/// Whether the crash counter has reached the policy's threshold.
pub fn is_crash_loop(counter: u8, threshold: u8) -> (r: bool)
    ensures
        r == (counter >= threshold),
{
    counter >= threshold
}

/// The variables after a successful handoff: `BootedOK`, counter cleared.
pub open spec fn succeeded(vars: HealthVars) -> HealthVars {
    HealthVars { state: BootState::BootedOK, crash_counter: 0, ..vars }
}

/// Marks this boot successful.
pub fn mark_boot_success(vars: HealthVars) -> (r: HealthVars)
    ensures
        r == succeeded(vars),
{
    HealthVars { state: BootState::BootedOK, crash_counter: 0, vmgenid: vars.vmgenid }
}

/// The variables after `n` boots in a row that start and never complete,
/// all on the same VM generation.
pub open spec fn unfinished_boots(vars: HealthVars, current: Option<[u8; 16]>, n: nat) -> HealthVars
    decreases n,
{
    if n == 0 {
        vars
    } else {
        assessed(unfinished_boots(vars, current, (n - 1) as nat), current)
    }
}

/// After a successful boot, the next boot's counter is zero: a completed
/// boot clears the crash history.
pub proof fn success_clears_counter(vars: HealthVars, current: Option<[u8; 16]>)
    ensures
        assessed(succeeded(vars), current).crash_counter == 0,
{
}

/// Starting after a successful boot, the `n`-th boot in a row that never
/// completes sees a crash counter of `n - 1` (up to 255): every unfinished
/// boot is counted once, so a threshold of `t` is reached on the `t + 1`-th
/// boot.
pub proof fn unfinished_boots_are_counted(vars: HealthVars, current: Option<[u8; 16]>, n: nat)
    requires
        vars.state == BootState::BootedOK,
        !genid_changed(vars.vmgenid, current),
        n >= 1,
    ensures
        unfinished_boots(vars, current, n).crash_counter == (if n - 1 < 255 {
            (n - 1) as int
        } else {
            255
        }),
        unfinished_boots(vars, current, n).state == BootState::Booting,
        unfinished_boots(vars, current, n).vmgenid == vars.vmgenid,
    decreases n,
{
    reveal_with_fuel(unfinished_boots, 2);
    if n > 1 {
        unfinished_boots_are_counted(vars, current, (n - 1) as nat);
    }
}

/// A new VM generation always starts a fresh history, whatever was stored.
pub proof fn new_generation_resets(vars: HealthVars, current: [u8; 16])
    requires
        !(vars.vmgenid matches Some(s) && s@ == current@),
    ensures
        assessed(vars, Some(current)).crash_counter == 0,
        assessed(vars, Some(current)).state == BootState::Fresh,
        assessed(vars, Some(current)).vmgenid == Some(current),
{
}

// ---------------------------------------------------------------------------
// Encodings of the variables written for other tools
// ---------------------------------------------------------------------------

/// The first `max` bytes of `b` (all of them when shorter).
pub open spec fn capped(b: Seq<u8>, max: nat) -> Seq<u8> {
    if b.len() <= max {
        b
    } else {
        b.subrange(0, max as int)
    }
}

/// A byte string widened to UTF-16LE the way the loader-interface variables
/// are written: each byte followed by a zero byte, then a zero terminator
/// unit.
pub open spec fn widened(b: Seq<u8>) -> Seq<u8>
    decreases b.len(),
{
    if b.len() == 0 {
        seq![0u8, 0u8]
    } else {
        seq![b[0], 0u8] + widened(b.drop_first())
    }
}

proof fn lemma_widened_tail(b: Seq<u8>)
    ensures
        widened(b).len() == 2 * b.len() + 2,
        widened(b)[widened(b).len() - 1] == 0,
    decreases b.len(),
{
    if b.len() > 0 {
        lemma_widened_tail(b.drop_first());
    }
}

proof fn lemma_widened_push(b: Seq<u8>, x: u8)
    ensures
        widened(b.push(x)) == widened(b).subrange(0, widened(b).len() - 2) + seq![x, 0u8, 0u8, 0u8],
        widened(b).len() == 2 * b.len() + 2,
    decreases b.len(),
{
    if b.len() == 0 {
        assert(b.push(x).drop_first() =~= b);
        assert(widened(b) =~= seq![0u8, 0u8]);
        assert(widened(b.push(x)) =~= seq![x, 0u8] + widened(b));
    } else {
        assert(b.push(x).drop_first() =~= b.drop_first().push(x));
        lemma_widened_push(b.drop_first(), x);
        assert(b.push(x)[0] == b[0]);
        let w = widened(b.drop_first());
        assert(widened(b.push(x)) =~= seq![b[0], 0u8] + widened(b.drop_first().push(x)));
        assert(widened(b) =~= seq![b[0], 0u8] + w);
        assert(widened(b).subrange(0, widened(b).len() - 2) =~= seq![b[0], 0u8] + w.subrange(
            0,
            w.len() - 2,
        ));
    }
}

/// The value of a loader-interface string variable: the first `max` bytes
/// of `s` in UTF-8, each widened to a 16-bit unit, NUL-terminated.
pub fn loader_string_bytes(s: &str, max: usize) -> (r: Vec<u8>)
    ensures
        r@ == widened(capped(s.spec_bytes(), max as nat)),
{
    let b = s.as_bytes();
    let n = if b.len() < max {
        b.len()
    } else {
        max
    };
    let ghost src = capped(s.spec_bytes(), max as nat);
    assert(src =~= b@.subrange(0, n as int));
    let mut out: Vec<u8> = Vec::new();
    out.push(0);
    out.push(0);
    let mut i: usize = 0;
    proof {
        assert(widened(b@.subrange(0, 0)) =~= seq![0u8, 0u8]);
        assert(out@ =~= seq![0u8, 0u8]);
    }
    while i < n
        invariant
            i <= n <= b@.len(),
            out@ == widened(b@.subrange(0, i as int)),
        decreases n - i,
    {
        proof {
            lemma_widened_tail(b@.subrange(0, i as int));
            lemma_widened_push(b@.subrange(0, i as int), b@[i as int]);
            assert(b@.subrange(0, i + 1) =~= b@.subrange(0, i as int).push(b@[i as int]));
        }
        let ghost w = out@;
        let len = out.len();
        assert(w.len() == 2 * i + 2);
        out.set(len - 2, b[i]);
        assert(out@ == w.update(len - 2, b@[i as int]));
        assert(w[len - 1] == 0);
        out.push(0);
        out.push(0);
        assert(out@ =~= w.subrange(0, w.len() - 2) + seq![b@[i as int], 0u8, 0u8, 0u8]);
        assert(out@ =~= widened(b@.subrange(0, i + 1)));
        i += 1;
    }
    out
}

/// The value of the last-entry variable: the entry id's UTF-8 bytes, at
/// most 128 of them.
pub fn last_entry_bytes(id: &str) -> (r: Vec<u8>)
    ensures
        r@ == capped(id.spec_bytes(), 128),
{
    let b = id.as_bytes();
    let n = if b.len() < 128 {
        b.len()
    } else {
        128
    };
    let mut out: Vec<u8> = Vec::new();
    let mut i: usize = 0;
    while i < n
        invariant
            i <= n <= b@.len(),
            out@ == b@.subrange(0, i as int),
        decreases n - i,
    {
        out.push(b[i]);
        assert(b@.subrange(0, i + 1) == b@.subrange(0, i as int).push(b@[i as int]));
        i += 1;
    }
    assert(capped(id.spec_bytes(), 128) =~= b@.subrange(0, n as int));
    out
}

/// The timestamp variable: year (little-endian), month, day, hour, minute,
/// second, a pad byte; all zero when the clock could not be read.
pub open spec fn timestamp_bytes(t: Option<crate::bootlog::Timestamp>) -> Seq<u8> {
    match t {
        Some(t) => seq![
            (t.year % 256) as u8,
            (t.year / 256) as u8,
            t.month,
            t.day,
            t.hour,
            t.minute,
            t.second,
            0u8,
        ],
        None => seq![0u8, 0u8, 0u8, 0u8, 0u8, 0u8, 0u8, 0u8],
    }
}

/// Encodes the timestamp variable.
pub fn encode_timestamp(t: Option<crate::bootlog::Timestamp>) -> (r: [u8; 8])
    ensures
        r@ == timestamp_bytes(t),
{
    match t {
        Some(t) => {
            let r = [
                (t.year % 256) as u8,
                (t.year / 256) as u8,
                t.month,
                t.day,
                t.hour,
                t.minute,
                t.second,
                0u8,
            ];
            assert(r@ =~= timestamp_bytes(Some(t)));
            r
        },
        None => {
            let r = [0u8; 8];
            assert(r@ =~= timestamp_bytes(None));
            r
        },
    }
}

// ---------------------------------------------------------------------------
// Rebooting into firmware setup
// ---------------------------------------------------------------------------

/// The `OsIndications` bit that asks the firmware to open its setup UI.
pub const BOOT_TO_FW_UI: u64 = 1;

/// `b` read as a little-endian number.
pub open spec fn le_int(b: Seq<u8>) -> int
    decreases b.len(),
{
    if b.len() == 0 {
        0
    } else {
        b[0] + 256 * le_int(b.drop_first())
    }
}

/// `256` to the power `k`.
pub open spec fn pow256(k: nat) -> int
    decreases k,
{
    if k == 0 {
        1
    } else {
        256 * pow256((k - 1) as nat)
    }
}

/// A variable's value as a little-endian `u64`: its first eight bytes,
/// zero-padded when shorter; 0 when it is missing.
pub open spec fn le_value(data: Option<Seq<u8>>) -> int {
    match data {
        None => 0,
        Some(d) => le_int(capped(d, 8)),
    }
}

fn le_value_exec(data: Option<&[u8]>) -> (r: u64)
    ensures
        r as int == le_value(opt_bytes(data)),
{
    match data {
        None => 0,
        Some(d) => {
            let n = if d.len() < 8 {
                d.len()
            } else {
                8
            };
            assert(capped(d@, 8) =~= d@.subrange(0, n as int));
            assert(pow256(8) == 0x1_0000_0000_0000_0000) by {
                reveal_with_fuel(pow256, 9);
            }
            proof {
                lemma_pow256_mono((n as int) as nat, 8);
            }
            let mut acc: u64 = 0;
            let mut i: usize = n;
            assert(d@.subrange(n as int, n as int) =~= Seq::<u8>::empty());
            while i > 0
                invariant
                    i <= n <= 8,
                    n <= d@.len(),
                    pow256(n as nat) <= 0x1_0000_0000_0000_0000,
                    acc as int == le_int(d@.subrange(i as int, n as int)),
                    (acc as int) < pow256((n - i) as nat),
                decreases i,
            {
                let ghost rest = d@.subrange(i as int, n as int);
                let ghost more = d@.subrange(i - 1, n as int);
                assert(more.drop_first() =~= rest);
                assert(more[0] == d@[i - 1]);
                let ghost p = pow256((n - i) as nat);
                assert(pow256((n - i + 1) as nat) == 256 * p);
                proof {
                    lemma_pow256_mono((n - i + 1) as nat, n as nat);
                }
                assert(acc * 256 + 255 < 256 * p) by (nonlinear_arith)
                    requires
                        (acc as int) < p,
                ;
                acc = acc * 256 + d[i - 1] as u64;
                i -= 1;
            }
            assert(d@.subrange(0, n as int) =~= d@.subrange(i as int, n as int));
            acc
        },
    }
}

proof fn lemma_pow256_mono(a: nat, b: nat)
    requires
        a <= b,
    ensures
        1 <= pow256(a) <= pow256(b),
    decreases b,
{
    if b > 0 {
        if a < b {
            lemma_pow256_mono(a, (b - 1) as nat);
        } else {
            lemma_pow256_mono((a - 1) as nat, (b - 1) as nat);
        }
    }
}

/// A variable's bytes as plain values.
pub open spec fn opt_bytes(data: Option<&[u8]>) -> Option<Seq<u8>> {
    match data {
        Some(d) => Some(d@),
        None => None,
    }
}

/// The `OsIndications` value to write before rebooting into firmware setup,
/// given the `OsIndicationsSupported` and current `OsIndications` values:
/// the current value with the setup bit set, when the firmware supports
/// it; `None` when it does not (a plain cold reboot follows).
pub fn firmware_setup_indications(supported: Option<&[u8]>, current: Option<&[u8]>) -> (r: Option<u64>)
    ensures
        r == (if (le_value(opt_bytes(supported)) as u64) & BOOT_TO_FW_UI != 0 {
            Some((le_value(opt_bytes(current)) as u64) | BOOT_TO_FW_UI)
        } else {
            None
        }),
{
    let s = le_value_exec(supported);
    if s & BOOT_TO_FW_UI != 0 {
        Some(le_value_exec(current) | BOOT_TO_FW_UI)
    } else {
        None
    }
}

} // verus!
