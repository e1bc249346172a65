use vstd::prelude::*;

pub mod boot_route;
pub mod text;
pub mod version;
pub mod bls_parse;
pub mod bls_sort;
pub mod boot_entry_pure;
pub mod distro_iso;
pub mod fw_cfg_config;
pub mod loopback_cfg;
pub mod discovery_pure;
pub mod partition_classify_pure;
pub mod fs_probe;
pub mod boot_entry;
pub mod fw_cfg;
pub mod fs_types;
pub mod fs;
pub mod boot_types;
pub mod bls;
pub mod discovery;
pub mod console;
pub mod acpi;
pub mod block_source;
pub mod platform;
pub mod autodiscovery;
pub mod drivers;
pub mod fallback;
pub mod bootlog;
pub mod diag;
pub mod iso_boot;
pub mod esp_scan;
pub mod kernel_load;
pub mod health;
pub mod pointer;
pub mod gui_menu;
pub mod framebuffer;
pub mod gui_screen;
pub mod fs_error;
pub mod kernel_boot;

verus! {
}
