use lamboot_core::boot_route::{NativePeMode, SbPosture};
use lamboot_core::fs_error::{STATUS_LOAD_ERROR, STATUS_NOT_FOUND, STATUS_SECURITY_VIOLATION};
use lamboot_core::kernel_boot::{
    boot_linux_start, boot_linux_step, native_load_step, BootLinuxAction, BootLinuxEvent, BootPhase,
    NativeLoadAction, NativeLoadEvent,
};

const H: [u8; 32] = [7u8; 32];

#[test]
fn native_load_refuses_digest_mismatch() {
    assert_eq!(native_load_step(NativeLoadEvent::Loaded { sha256: H }, H), NativeLoadAction::Start);
    let mut other = H;
    other[31] = 8;
    assert_eq!(
        native_load_step(NativeLoadEvent::Loaded { sha256: other }, H),
        NativeLoadAction::Fail { status: STATUS_SECURITY_VIOLATION }
    );
    assert_eq!(
        native_load_step(NativeLoadEvent::LoadFailed, H),
        NativeLoadAction::Fail { status: STATUS_LOAD_ERROR }
    );
}

#[test]
fn missing_kernel_stops() {
    let st = boot_linux_start(NativePeMode::Auto, false);
    let (st, a) = boot_linux_step(st, BootLinuxEvent::KernelFound(false));
    assert_eq!(a, BootLinuxAction::Fail { status: STATUS_NOT_FOUND });
    assert_eq!(st.phase, BootPhase::Done);
}

#[test]
fn refused_kernel_never_loads() {
    let st = boot_linux_start(NativePeMode::Always, true);
    let (st, a) = boot_linux_step(st, BootLinuxEvent::KernelFound(true));
    assert_eq!(a, BootLinuxAction::VerifyKernel);
    let (st, a) = boot_linux_step(
        st,
        BootLinuxEvent::Verified { posture: SbPosture::ActiveWithShim, shim_accepts: false, sha256: H },
    );
    assert_eq!(a, BootLinuxAction::Fail { status: STATUS_SECURITY_VIOLATION });
    // Nothing the caller reports afterwards registers or loads anything.
    let (st, a) = boot_linux_step(st, BootLinuxEvent::InitrdRegistered);
    assert_eq!(a, BootLinuxAction::Ignore);
    let (_, a) = boot_linux_step(st, BootLinuxEvent::NativeLoaded(NativeLoadEvent::Loaded { sha256: H }));
    assert_eq!(a, BootLinuxAction::Ignore);
}

#[test]
fn accepted_kernel_registers_initrd_then_loads_natively() {
    let st = boot_linux_start(NativePeMode::Auto, true);
    let (st, _) = boot_linux_step(st, BootLinuxEvent::KernelFound(true));
    let (st, a) = boot_linux_step(
        st,
        BootLinuxEvent::Verified { posture: SbPosture::ActiveWithShim, shim_accepts: true, sha256: H },
    );
    assert_eq!(a, BootLinuxAction::RegisterInitrd);
    let (st, a) = boot_linux_step(st, BootLinuxEvent::InitrdRegistered);
    assert_eq!(a, BootLinuxAction::NativeLoad);
    let (_, a) = boot_linux_step(st, BootLinuxEvent::NativeLoaded(NativeLoadEvent::Loaded { sha256: H }));
    assert_eq!(a, BootLinuxAction::StartNative);
}

#[test]
fn native_failure_and_mismatch_fall_back_to_firmware() {
    for nev in [NativeLoadEvent::LoadFailed, NativeLoadEvent::Loaded { sha256: [0u8; 32] }] {
        let st = boot_linux_start(NativePeMode::Always, false);
        let (st, _) = boot_linux_step(st, BootLinuxEvent::KernelFound(true));
        let (st, a) = boot_linux_step(
            st,
            BootLinuxEvent::Verified { posture: SbPosture::Disabled, shim_accepts: false, sha256: H },
        );
        assert_eq!(a, BootLinuxAction::NativeLoad);
        let (_, a) = boot_linux_step(st, BootLinuxEvent::NativeLoaded(nev));
        assert_eq!(a, BootLinuxAction::FirmwareLoad);
    }
}

#[test]
fn active_direct_always_uses_firmware() {
    let st = boot_linux_start(NativePeMode::Always, false);
    let (st, _) = boot_linux_step(st, BootLinuxEvent::KernelFound(true));
    let (st, a) = boot_linux_step(
        st,
        BootLinuxEvent::Verified { posture: SbPosture::ActiveDirect, shim_accepts: false, sha256: H },
    );
    assert_eq!(a, BootLinuxAction::FirmwareLoad);
    assert_eq!(st.phase, BootPhase::Done);
}
