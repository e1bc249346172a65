use vstd::prelude::*;

verus! {

/// The operator's `native_pe` policy setting.
#[derive(Debug, Clone, Copy, PartialEq, Eq, Structural)]
pub enum NativePeMode {
    Auto,
    Always,
    Never,
}

/// The Secure Boot posture the kernel bytes were verified under.
#[derive(Debug, Clone, Copy, PartialEq, Eq, Structural)]
pub enum SbPosture {
    Disabled,
    ActiveWithShim,
    ActiveDirect,
}

/// The chosen image-load path.
#[derive(Debug, Clone, Copy, PartialEq, Eq, Structural)]
pub enum LoadRoute {
    /// The native PE loader (bypasses firmware `LoadImage`).
    Native,
    /// Firmware `LoadImage`, which runs the `db` signature check.
    Firmware,
}

/// The load route for a policy and Secure Boot posture.
///
/// `Never` always routes through firmware, `Always` (an explicit operator
/// trust assertion) always routes native, and `Auto` routes native except
/// under `ActiveDirect` (Secure Boot on, no shim), where only the firmware
/// path authenticates the kernel.  The kernel path itself applies
/// `load_path` on top of this.
pub open spec fn load_route(mode: NativePeMode, posture: SbPosture) -> LoadRoute {
    match mode {
        NativePeMode::Never => LoadRoute::Firmware,
        NativePeMode::Always => LoadRoute::Native,
        NativePeMode::Auto => if posture == SbPosture::ActiveDirect {
            LoadRoute::Firmware
        } else {
            LoadRoute::Native
        },
    }
}

/// Decide the load route from policy and Secure Boot posture.
pub fn decide_load_route(mode: NativePeMode, posture: SbPosture) -> (r: LoadRoute)
    ensures
        r == load_route(mode, posture),
{
    match mode {
        NativePeMode::Never => LoadRoute::Firmware,
        NativePeMode::Always => LoadRoute::Native,
        NativePeMode::Auto => {
            if matches!(posture, SbPosture::ActiveDirect) {
                LoadRoute::Firmware
            } else {
                LoadRoute::Native
            }
        },
    }
}


/// The path the kernel load actually takes: the policy's route, except that
/// under `ActiveDirect` (Secure Boot on, no shim) nothing has checked the
/// bytes against the firmware `db`, so the firmware `LoadImage` path runs
/// whatever the policy says (`Always` cannot override it).
pub open spec fn load_path(mode: NativePeMode, posture: SbPosture) -> LoadRoute {
    if posture == SbPosture::ActiveDirect {
        LoadRoute::Firmware
    } else {
        load_route(mode, posture)
    }
}

/// Choose the kernel load path from the policy and the posture the bytes
/// were verified under.
pub fn choose_load_path(mode: NativePeMode, posture: SbPosture) -> (r: LoadRoute)
    ensures
        r == load_path(mode, posture),
{
    match posture {
        SbPosture::ActiveDirect => LoadRoute::Firmware,
        _ => decide_load_route(mode, posture),
    }
}

/// The native loader, which checks nothing itself, never runs bytes under
/// Secure Boot that no signature check accepted: whatever the policy, an
/// unauthenticated load under Secure Boot goes through the firmware.
pub proof fn native_path_only_when_trusted(mode: NativePeMode, posture: SbPosture, shim_accepts: bool)
    ensures
        ({
            let v = verdict(posture, shim_accepts);
            v.accepted && load_path(mode, posture) == LoadRoute::Native
                ==> v.status == VerifyStatus::Pass || posture == SbPosture::Disabled
        }),
{
}

/// The Secure Boot posture at verification time.  The posture is detected
/// once early in the boot; if the shim's verification protocol has vanished
/// since (an old shim uninstalls it after first use), a shim posture degrades
/// to `ActiveDirect` so that the firmware `db` path takes over.
pub fn effective_posture(posture: SbPosture, shim_present: bool) -> (r: SbPosture)
    ensures
        r == (if posture == SbPosture::ActiveWithShim && !shim_present {
            SbPosture::ActiveDirect
        } else {
            posture
        }),
{
    match posture {
        SbPosture::ActiveWithShim => {
            if shim_present {
                SbPosture::ActiveWithShim
            } else {
                SbPosture::ActiveDirect
            }
        },
        other => other,
    }
}

/// How the kernel bytes came to be trusted, as recorded in the trust log.
#[derive(Debug, Clone, Copy, PartialEq, Eq, Structural)]
pub enum VerifiedVia {
    /// The shim accepted the signature (against its own keys or MOK).
    ShimMok,
    /// The shim refused the signature.
    ShimRejected,
    /// Secure Boot is off: nothing to verify.
    DegradedSbOff,
    /// Secure Boot is on without a shim: the firmware `db` check runs later,
    /// on the firmware load path.
    DegradedSbDirect,
}

/// The status recorded with the verification event.
#[derive(Debug, Clone, Copy, PartialEq, Eq, Structural)]
pub enum VerifyStatus {
    /// A signature was validated.
    Pass,
    /// A signature was refused.
    Rejected,
    /// Nothing to validate (Secure Boot off).
    Skipped,
    /// Validation left to the firmware load path.
    Deferred,
}

/// The outcome of the kernel verification step.
#[derive(Debug, Clone, Copy, PartialEq, Eq, Structural)]
pub struct KernelVerdict {
    pub via: VerifiedVia,
    pub status: VerifyStatus,
    /// Whether the bytes may go on to be loaded.
    pub accepted: bool,
}

/// The verdict for kernel bytes under a posture, given the shim's answer.
pub open spec fn verdict(posture: SbPosture, shim_accepts: bool) -> KernelVerdict {
    match posture {
        SbPosture::Disabled => KernelVerdict {
            via: VerifiedVia::DegradedSbOff,
            status: VerifyStatus::Skipped,
            accepted: true,
        },
        SbPosture::ActiveDirect => KernelVerdict {
            via: VerifiedVia::DegradedSbDirect,
            status: VerifyStatus::Deferred,
            accepted: true,
        },
        SbPosture::ActiveWithShim => if shim_accepts {
            KernelVerdict { via: VerifiedVia::ShimMok, status: VerifyStatus::Pass, accepted: true }
        } else {
            KernelVerdict {
                via: VerifiedVia::ShimRejected,
                status: VerifyStatus::Rejected,
                accepted: false,
            }
        },
    }
}

/// The verdict for kernel bytes under the (effective) posture.  Only under
/// `ActiveWithShim` is a signature checked, and `shim_accepts` is the shim's
/// answer; the other postures accept without a check and say so in a
/// status distinct from a validated one.
pub fn kernel_verdict(posture: SbPosture, shim_accepts: bool) -> (r: KernelVerdict)
    ensures
        r == verdict(posture, shim_accepts),
{
    match posture {
        SbPosture::Disabled => KernelVerdict {
            via: VerifiedVia::DegradedSbOff,
            status: VerifyStatus::Skipped,
            accepted: true,
        },
        SbPosture::ActiveDirect => KernelVerdict {
            via: VerifiedVia::DegradedSbDirect,
            status: VerifyStatus::Deferred,
            accepted: true,
        },
        SbPosture::ActiveWithShim => {
            if shim_accepts {
                KernelVerdict { via: VerifiedVia::ShimMok, status: VerifyStatus::Pass, accepted: true }
            } else {
                KernelVerdict {
                    via: VerifiedVia::ShimRejected,
                    status: VerifyStatus::Rejected,
                    accepted: false,
                }
            }
        },
    }
}

/// The status word written to the trust log.
pub fn status_text(s: VerifyStatus) -> (r: &'static str)
    ensures
        r@ == (match s {
            VerifyStatus::Pass => "SUCCESS"@,
            VerifyStatus::Rejected => "REJECTED"@,
            VerifyStatus::Skipped => "SKIPPED"@,
            VerifyStatus::Deferred => "DEFERRED"@,
        }),
{
    match s {
        VerifyStatus::Pass => "SUCCESS",
        VerifyStatus::Rejected => "REJECTED",
        VerifyStatus::Skipped => "SKIPPED",
        VerifyStatus::Deferred => "DEFERRED",
    }
}

/// Only a validated signature records success: the status is `Pass`
/// exactly when the shim was asked and accepted.
pub proof fn success_only_when_validated(posture: SbPosture, shim_accepts: bool, v: KernelVerdict)
    requires
        v == verdict(posture, shim_accepts),
    ensures
        (v.status == VerifyStatus::Pass) <==> (posture == SbPosture::ActiveWithShim && shim_accepts),
        v.accepted <==> !(posture == SbPosture::ActiveWithShim && !shim_accepts),
{
}

/// Under the default policy the native loader (which checks nothing itself)
/// only ever runs accepted bytes whose signature was validated, or bytes
/// booted with Secure Boot off: unauthenticated bytes under Secure Boot
/// always go through the firmware `db` check.
pub proof fn auto_native_only_when_trusted(posture: SbPosture, shim_accepts: bool)
    ensures
        ({
            let v = verdict(posture, shim_accepts);
            v.accepted && load_route(NativePeMode::Auto, posture) == LoadRoute::Native
                ==> v.status == VerifyStatus::Pass || posture == SbPosture::Disabled
        }),
{
}

} // verus!
