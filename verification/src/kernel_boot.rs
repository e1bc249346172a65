//! The control flow of booting a Linux kernel, as a state machine.
//!
//! The caller performs each action (reading the kernel, asking the shim,
//! registering the initrd, loading and starting the image) and feeds back
//! what happened; each step here decides what comes next.  A kernel the
//! verification refuses stops the boot before any initrd is registered or
//! any image is loaded; a native load that fails, or whose loaded image
//! differs from the verified bytes, is never started and falls back to the
//! firmware `LoadImage` path.
use vstd::prelude::*;

use crate::boot_route::{choose_load_path, kernel_verdict, load_path, verdict, LoadRoute, NativePeMode, SbPosture};
use crate::fs_error::{STATUS_LOAD_ERROR, STATUS_NOT_FOUND, STATUS_SECURITY_VIOLATION};

verus! {

/// What loading the verified bytes with the native PE loader gave.
#[derive(Debug, Clone, Copy)]
pub enum NativeLoadEvent {
    /// The loader could not parse or map the image.
    LoadFailed,
    /// The image was loaded; `sha256` is the digest of the bytes it loaded.
    Loaded { sha256: [u8; 32] },
}

/// What to do with a native load.
#[derive(Debug, Clone, Copy, PartialEq, Eq, Structural)]
pub enum NativeLoadAction {
    /// Start the loaded image.
    Start,
    /// Do not start it; report `status` (`LOAD_ERROR` or
    /// `SECURITY_VIOLATION`).
    Fail { status: usize },
}

/// The native load's outcome: start the image only when the bytes it
/// loaded hash to the verified digest; a mismatch is refused with
/// `SECURITY_VIOLATION`, a failed load reports `LOAD_ERROR`.
pub open spec fn native_load_spec(ev: NativeLoadEvent, verified: Seq<u8>) -> NativeLoadAction {
    match ev {
        NativeLoadEvent::LoadFailed => NativeLoadAction::Fail { status: STATUS_LOAD_ERROR },
        NativeLoadEvent::Loaded { sha256 } => if sha256@ == verified {
            NativeLoadAction::Start
        } else {
            NativeLoadAction::Fail { status: STATUS_SECURITY_VIOLATION }
        },
    }
}

fn same_digest(a: &[u8; 32], b: &[u8; 32]) -> (r: bool)
    ensures
        r == (a@ == b@),
{
    let mut i: usize = 0;
    while i < 32
        invariant
            i <= 32,
            a@.len() == 32,
            b@.len() == 32,
            forall|k: int| 0 <= k < i ==> a@[k] == b@[k],
        decreases 32 - i,
    {
        if a[i] != b[i] {
            return false;
        }
        i += 1;
    }
    assert(a@ =~= b@);
    true
}

/// Decide what to do with a native load of bytes whose verified digest is
/// `verified_sha256`.
pub fn native_load_step(ev: NativeLoadEvent, verified_sha256: [u8; 32]) -> (r: NativeLoadAction)
    ensures
        r == native_load_spec(ev, verified_sha256@),
{
    match ev {
        NativeLoadEvent::LoadFailed => NativeLoadAction::Fail { status: STATUS_LOAD_ERROR },
        NativeLoadEvent::Loaded { sha256 } => {
            if same_digest(&sha256, &verified_sha256) {
                NativeLoadAction::Start
            } else {
                NativeLoadAction::Fail { status: STATUS_SECURITY_VIOLATION }
            }
        },
    }
}

/// Where a kernel boot stands.
#[derive(Debug, Clone, Copy, PartialEq, Eq, Structural)]
pub enum BootPhase {
    /// Waiting for the kernel to be found and read.
    Locate,
    /// Waiting for the verification of the kernel bytes.
    Verify,
    /// Waiting for the initrd to be registered.
    Initrd,
    /// Waiting for the native loader's result.
    Native,
    /// Finished: the last action was final.
    Done,
}

/// The state of a kernel boot.
#[derive(Debug, Clone, Copy)]
pub struct BootLinuxState {
    pub phase: BootPhase,
    /// The policy's native-loader setting.
    pub mode: NativePeMode,
    /// Whether the entry names initrds.
    pub has_initrds: bool,
    /// The posture the bytes were verified under (once verified).
    pub posture: SbPosture,
    /// The digest of the verified bytes (once verified).
    pub verified_sha256: [u8; 32],
}

/// What the caller reports.
#[derive(Debug, Clone, Copy)]
pub enum BootLinuxEvent {
    /// The kernel was (or was not) found on a volume and read.
    KernelFound(bool),
    /// The kernel bytes were checked: the effective posture, the shim's
    /// answer (meaningful under `ActiveWithShim`) and the bytes' digest.
    Verified { posture: SbPosture, shim_accepts: bool, sha256: [u8; 32] },
    /// The initrds were combined and registration was attempted (its
    /// result does not change the boot).
    InitrdRegistered,
    /// The native loader's result.
    NativeLoaded(NativeLoadEvent),
}

/// What the caller does next.
#[derive(Debug, Clone, Copy, PartialEq, Eq, Structural)]
pub enum BootLinuxAction {
    /// Verify the kernel bytes (measure, then ask the shim when present).
    VerifyKernel,
    /// Read and combine the initrds and register them.
    RegisterInitrd,
    /// Load the verified bytes with the native PE loader.
    NativeLoad,
    /// Load and start the bytes through firmware `LoadImage` (final).
    FirmwareLoad,
    /// Start the natively loaded image (final).
    StartNative,
    /// Stop the boot with `status` (final).
    Fail { status: usize },
    /// The event does not fit the phase: nothing to do.
    Ignore,
}

/// The state a kernel boot starts in: waiting for the kernel.
pub fn boot_linux_start(mode: NativePeMode, has_initrds: bool) -> (r: BootLinuxState)
    ensures
        r.phase == BootPhase::Locate,
        r.mode == mode,
        r.has_initrds == has_initrds,
        r.posture == SbPosture::Disabled,
        r.verified_sha256@ == Seq::new(32, |i: int| 0u8),
{
    BootLinuxState {
        phase: BootPhase::Locate,
        mode,
        has_initrds,
        posture: SbPosture::Disabled,
        verified_sha256: [0u8; 32],
    }
}

/// `st` in phase `p`.
pub open spec fn in_phase(st: BootLinuxState, p: BootPhase) -> BootLinuxState {
    BootLinuxState { phase: p, ..st }
}

/// Loading verified bytes: native when the load path allows it, else
/// through the firmware.
pub open spec fn route_step(st: BootLinuxState) -> (BootLinuxState, BootLinuxAction) {
    match load_path(st.mode, st.posture) {
        LoadRoute::Native => (in_phase(st, BootPhase::Native), BootLinuxAction::NativeLoad),
        LoadRoute::Firmware => (in_phase(st, BootPhase::Done), BootLinuxAction::FirmwareLoad),
    }
}

/// One step of a kernel boot: a kernel that is not found stops with
/// `NOT_FOUND`; a refused verification stops with `SECURITY_VIOLATION`;
/// accepted bytes go on to the initrd (when there is one) and then to the
/// load path; a native load starts only when `native_load_spec` says so
/// and otherwise falls back to the firmware path.
pub open spec fn boot_linux_spec(st: BootLinuxState, ev: BootLinuxEvent) -> (BootLinuxState, BootLinuxAction) {
    match (st.phase, ev) {
        (BootPhase::Locate, BootLinuxEvent::KernelFound(found)) => if found {
            (in_phase(st, BootPhase::Verify), BootLinuxAction::VerifyKernel)
        } else {
            (in_phase(st, BootPhase::Done), BootLinuxAction::Fail { status: STATUS_NOT_FOUND })
        },
        (BootPhase::Verify, BootLinuxEvent::Verified { posture, shim_accepts, sha256 }) => {
            if !verdict(posture, shim_accepts).accepted {
                (in_phase(st, BootPhase::Done), BootLinuxAction::Fail { status: STATUS_SECURITY_VIOLATION })
            } else {
                let st2 = BootLinuxState { posture, verified_sha256: sha256, ..st };
                if st.has_initrds {
                    (in_phase(st2, BootPhase::Initrd), BootLinuxAction::RegisterInitrd)
                } else {
                    route_step(st2)
                }
            }
        },
        (BootPhase::Initrd, BootLinuxEvent::InitrdRegistered) => route_step(st),
        (BootPhase::Native, BootLinuxEvent::NativeLoaded(nev)) => match native_load_spec(
            nev,
            st.verified_sha256@,
        ) {
            NativeLoadAction::Start => (in_phase(st, BootPhase::Done), BootLinuxAction::StartNative),
            NativeLoadAction::Fail { .. } => (in_phase(st, BootPhase::Done), BootLinuxAction::FirmwareLoad),
        },
        _ => (st, BootLinuxAction::Ignore),
    }
}

fn route(st: BootLinuxState) -> (r: (BootLinuxState, BootLinuxAction))
    ensures
        r == route_step(st),
{
    match choose_load_path(st.mode, st.posture) {
        LoadRoute::Native => (BootLinuxState { phase: BootPhase::Native, ..st }, BootLinuxAction::NativeLoad),
        LoadRoute::Firmware => (BootLinuxState { phase: BootPhase::Done, ..st }, BootLinuxAction::FirmwareLoad),
    }
}

/// One step of a kernel boot.
pub fn boot_linux_step(st: BootLinuxState, ev: BootLinuxEvent) -> (r: (BootLinuxState, BootLinuxAction))
    ensures
        r == boot_linux_spec(st, ev),
{
    match (st.phase, ev) {
        (BootPhase::Locate, BootLinuxEvent::KernelFound(found)) => {
            if found {
                (BootLinuxState { phase: BootPhase::Verify, ..st }, BootLinuxAction::VerifyKernel)
            } else {
                (
                    BootLinuxState { phase: BootPhase::Done, ..st },
                    BootLinuxAction::Fail { status: STATUS_NOT_FOUND },
                )
            }
        },
        (BootPhase::Verify, BootLinuxEvent::Verified { posture, shim_accepts, sha256 }) => {
            let v = kernel_verdict(posture, shim_accepts);
            if !v.accepted {
                (
                    BootLinuxState { phase: BootPhase::Done, ..st },
                    BootLinuxAction::Fail { status: STATUS_SECURITY_VIOLATION },
                )
            } else {
                let st2 = BootLinuxState { posture, verified_sha256: sha256, ..st };
                if st.has_initrds {
                    (BootLinuxState { phase: BootPhase::Initrd, ..st2 }, BootLinuxAction::RegisterInitrd)
                } else {
                    route(st2)
                }
            }
        },
        (BootPhase::Initrd, BootLinuxEvent::InitrdRegistered) => route(st),
        (BootPhase::Native, BootLinuxEvent::NativeLoaded(nev)) => {
            match native_load_step(nev, st.verified_sha256) {
                NativeLoadAction::Start => (BootLinuxState { phase: BootPhase::Done, ..st }, BootLinuxAction::StartNative),
                NativeLoadAction::Fail { .. } => (
                    BootLinuxState { phase: BootPhase::Done, ..st },
                    BootLinuxAction::FirmwareLoad,
                ),
            }
        },
        _ => (st, BootLinuxAction::Ignore),
    }
}

/// The actions a boot in state `st` takes on the events `evs`, in order.
pub open spec fn boot_linux_run(st: BootLinuxState, evs: Seq<BootLinuxEvent>) -> Seq<BootLinuxAction>
    decreases evs.len(),
{
    if evs.len() == 0 {
        Seq::empty()
    } else {
        let (next, a) = boot_linux_spec(st, evs[0]);
        seq![a] + boot_linux_run(next, evs.drop_first())
    }
}

/// Whether an action registers an initrd or loads or starts an image.
pub open spec fn loads(a: BootLinuxAction) -> bool {
    a == BootLinuxAction::RegisterInitrd || a == BootLinuxAction::NativeLoad
        || a == BootLinuxAction::FirmwareLoad || a == BootLinuxAction::StartNative
}

proof fn lemma_done_is_final(st: BootLinuxState, evs: Seq<BootLinuxEvent>)
    requires
        st.phase == BootPhase::Done,
    ensures
        forall|i: int| 0 <= i < evs.len() ==> #[trigger] boot_linux_run(st, evs)[i] == BootLinuxAction::Ignore,
        boot_linux_run(st, evs).len() == evs.len(),
    decreases evs.len(),
{
    if evs.len() > 0 {
        lemma_done_is_final(st, evs.drop_first());
        let r = boot_linux_run(st, evs);
        let rest = boot_linux_run(st, evs.drop_first());
        assert(r == seq![BootLinuxAction::Ignore] + rest);
        assert forall|i: int| 0 <= i < evs.len() implies #[trigger] r[i] == BootLinuxAction::Ignore by {
            if i > 0 {
                assert(r[i] == rest[i - 1]);
            }
        }
    }
}

/// A kernel the verification refuses stops the boot with
/// `SECURITY_VIOLATION`, and whatever the caller reports afterwards no
/// initrd is registered and no image is loaded or started.
pub proof fn no_load_after_refusal(
    st: BootLinuxState,
    posture: SbPosture,
    shim_accepts: bool,
    sha256: [u8; 32],
    later: Seq<BootLinuxEvent>,
)
    requires
        st.phase == BootPhase::Verify,
        !verdict(posture, shim_accepts).accepted,
    ensures
        ({
            let acts = boot_linux_run(
                st,
                seq![BootLinuxEvent::Verified { posture, shim_accepts, sha256 }] + later,
            );
            &&& acts[0] == BootLinuxAction::Fail { status: STATUS_SECURITY_VIOLATION }
            &&& forall|i: int| 0 <= i < acts.len() ==> !loads(#[trigger] acts[i])
        }),
{
    let ev = BootLinuxEvent::Verified { posture, shim_accepts, sha256 };
    let evs = seq![ev] + later;
    assert(evs[0] == ev);
    assert(evs.drop_first() =~= later);
    let done = in_phase(st, BootPhase::Done);
    lemma_done_is_final(done, later);
    let acts = boot_linux_run(st, evs);
    let rest = boot_linux_run(done, later);
    assert(acts == seq![BootLinuxAction::Fail { status: STATUS_SECURITY_VIOLATION }] + rest);
    assert forall|i: int| 0 <= i < acts.len() implies !loads(#[trigger] acts[i]) by {
        if i > 0 {
            assert(acts[i] == rest[i - 1]);
        }
    }
}

/// The natively loaded image is started only when the bytes it loaded
/// hash to the verified digest; any other native outcome falls back to
/// the firmware load path.
pub proof fn native_start_only_on_match(st: BootLinuxState, nev: NativeLoadEvent)
    requires
        st.phase == BootPhase::Native,
    ensures
        ({
            let a = boot_linux_spec(st, BootLinuxEvent::NativeLoaded(nev)).1;
            &&& a == BootLinuxAction::StartNative <==> (nev matches NativeLoadEvent::Loaded { sha256 }
                && sha256@ == st.verified_sha256@)
            &&& a != BootLinuxAction::StartNative ==> a == BootLinuxAction::FirmwareLoad
        }),
{
}

/// Under Secure Boot without a shim the kernel is never loaded natively,
/// whatever the policy says.
pub proof fn active_direct_loads_through_firmware(st: BootLinuxState)
    requires
        st.posture == SbPosture::ActiveDirect,
    ensures
        route_step(st).1 == BootLinuxAction::FirmwareLoad,
{
}

} // verus!
