# lamboot_core

The decision logic of the LamBoot UEFI boot manager, written in Verus: every
function carries a `requires`/`ensures` contract that Verus proves.

The firmware-facing parts of a boot (protocol calls, NVRAM and file I/O,
showing a frame on screen, starting images) are left to the caller; the
library takes what they read as plain values and returns what is to be
written or done.

Layout of `src/`:

- Boot Loader Specification entries: `bls_parse` (parsing, UAPI.10 version
  order, menu order), `bls_sort`, `bls` (entry files, boot counting, menu
  entries, per-volume scan), `version`.
- Discovery and the menu: `discovery` (de-duplication, module manifest,
  menu assembly), `esp_scan` (Windows, other loaders, UKIs, systemd-boot
  style kernel directories, tools), `discovery_pure`, `autodiscovery`
  (initrd auto-discovery), `fallback` (fallback and crash-recovery picks,
  boot-counter action), `console` (text menu state machine and text),
  `gui_menu` (graphical menu state machine, layout, hit testing), `pointer`.
- Drawing the graphical menu: `framebuffer` (the off-screen frame, clipped
  rectangles, bitmap-font text, the run-length coded logo), `gui_screen`
  (header, tiles, columns, footer, cursor and full-screen messages, each
  specified as the layers it paints).
- Booting: `boot_route` (load route and path, Secure Boot verdicts),
  `kernel_boot` (the kernel boot and native load as state machines),
  `kernel_load`,
  `iso_boot`, `distro_iso`, `loopback_cfg`, `drivers`.
- Firmware data: `boot_entry_pure` / `boot_entry` (`Boot####` load options,
  `BootOrder`, self-install), `health` (crash counter), `fw_cfg`,
  `fw_cfg_config`, `acpi` (RSDP/XSDT/RSDT, DMAR/IVRS), `platform`
  (hypervisor, firmware quirks, btrfs/ZFS helpers, fonts).
- Files: `fs_types` (canonical paths, UUIDs, metadata), `fs_error`,
  `fs` (read cache, globs),
  `fs_probe` (superblock signatures), `block_source` (seek and block
  alignment arithmetic).
- Logs: `bootlog`, `diag`.
- Shared: `text`, `boot_types`.

The tests under `tests/` exercise the library on concrete values.
