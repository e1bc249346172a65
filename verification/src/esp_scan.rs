//! Boot entries found at the ESP's conventional paths: Windows Boot
//! Manager, other boot loaders to chainload, Linux unified kernel images
//! under `\EFI\Linux`, systemd-boot style `\EFI\<distro>-<uuid>` kernel
//! directories, and LamBoot's diagnostic modules.
//!
//! The caller looks at the ESP (which files exist, what the policy allows,
//! what a UKI's sections say) and hands the answers in; this module builds
//! the entries from them.
use vstd::prelude::*;

use crate::bls::{dec, decimal_chars};
use crate::boot_types::{entry_views, kind_view, BootEntry, BootEntryView, EntryKind, EntryKindView, Icon};
use crate::bls_sort::{adjacent_sorted, lemma_insert_sorted};
use crate::discovery::{extract_filename, extract_uki_version, last_segment, trim_efi, uki_version};
use crate::version::{version_order, version_order_antisymmetric, Order3};
use vstd::utf8::encode_utf8;
use crate::discovery_pure::{
    distro_uuid_dir, forward_to_backslash, looks_like_distro_uuid_dir, pretty_name,
    pretty_name_from_distro_uuid_dir,
};
use crate::text::{chars_of, concat_str, replace_all, string_of, string_of_range, trim, trim_range};

verus! {

/// An entry found on the ESP (volume 0), with no BLS source and no
/// preflight result yet.
pub open spec fn esp_entry(id: Seq<char>, name: Seq<char>, kind: EntryKindView, icon: Icon) -> BootEntryView {
    BootEntryView {
        id,
        name,
        kind,
        icon,
        bls_filename: None,
        source_volume_index: 0,
        source_backend_tag: ""@,
    }
}

/// No entry carries a preflight result.
pub open spec fn unchecked(v: Seq<BootEntry>) -> bool {
    forall|i: int| 0 <= i < v.len() ==> (#[trigger] v[i]).preflight is None
}

fn new_entry(id: String, name: String, kind: EntryKind, icon: Icon) -> (r: BootEntry)
    ensures
        r@ == esp_entry(id@, name@, kind_view(kind), icon),
        r.preflight is None,
{
    BootEntry {
        id,
        name,
        kind,
        icon,
        bls_filename: None,
        preflight: None,
        source_volume_index: 0,
        source_backend_tag: "",
    }
}

fn own(s: &str) -> (r: String)
    ensures
        r@ == s@,
{
    String::from_str(s)
}

// ---------------------------------------------------------------------------
// Windows Boot Manager
// ---------------------------------------------------------------------------

/// Where Windows Boot Manager lives on the ESP.
pub const WINDOWS_BOOT_PATH: &'static str = "\\EFI\\Microsoft\\Boot\\bootmgfw.efi";

/// The Windows Boot Manager entry.
pub open spec fn windows_entry() -> BootEntryView {
    esp_entry(
        "windows"@,
        "Windows Boot Manager"@,
        EntryKindView::Chainload(WINDOWS_BOOT_PATH@),
        Icon::Windows,
    )
}

/// The Windows Boot Manager entry when its file is present on the ESP and
/// the policy allows it (`found`), else nothing.
pub fn discover_windows(found: bool) -> (r: Vec<BootEntry>)
    ensures
        entry_views(r@) == (if found {
            seq![windows_entry()]
        } else {
            Seq::<BootEntryView>::empty()
        }),
        unchecked(r@),
{
    let mut entries: Vec<BootEntry> = Vec::new();
    if found {
        entries.push(
            new_entry(
                own("windows"),
                own("Windows Boot Manager"),
                EntryKind::Chainload { path: own(WINDOWS_BOOT_PATH) },
                Icon::Windows,
            ),
        );
        assert(entry_views(entries@) =~= seq![windows_entry()]);
    } else {
        assert(entry_views(entries@) =~= Seq::<BootEntryView>::empty());
    }
    entries
}

// ---------------------------------------------------------------------------
// Other boot loaders
// ---------------------------------------------------------------------------

/// Where GRUB lives on the ESP.
pub const GRUB_PATH: &'static str = "\\EFI\\grub\\grubx64.efi";

/// Where rEFInd lives on the ESP.
pub const REFIND_PATH: &'static str = "\\EFI\\refind\\refind_x64.efi";

/// The removable-media fallback loader.
pub const FALLBACK_PATH: &'static str = "\\EFI\\BOOT\\BOOTX64.EFI";

/// A chainload entry for another boot loader.
pub open spec fn loader_entry(path: Seq<char>, id: Seq<char>, name: Seq<char>) -> BootEntryView {
    esp_entry(id, name, EntryKindView::Chainload(path), Icon::Efi)
}

/// The loader entries, in table order: GRUB, rEFInd, then the EFI
/// fallback loader, each when it is present and allowed; the fallback is
/// left out when it is LamBoot itself (chainloading it would loop back).
pub open spec fn other_loaders(grub: bool, refind: bool, fallback: bool, fallback_is_self: bool) -> Seq<
    BootEntryView,
> {
    (if grub {
        seq![loader_entry(GRUB_PATH@, "grub"@, "GRUB Bootloader"@)]
    } else {
        seq![]
    }) + (if refind {
        seq![loader_entry(REFIND_PATH@, "refind"@, "rEFInd Boot Manager"@)]
    } else {
        seq![]
    }) + (if fallback && !fallback_is_self {
        seq![loader_entry(FALLBACK_PATH@, "fallback"@, "EFI Fallback"@)]
    } else {
        seq![]
    })
}

/// Chainload entries for the other boot loaders on the ESP.  `grub`,
/// `refind` and `fallback` say whether each loader's file is present and
/// allowed; `fallback_is_self` whether the fallback loader's bytes hash to
/// the running LamBoot image.
pub fn discover_other_loaders(grub: bool, refind: bool, fallback: bool, fallback_is_self: bool) -> (r:
    Vec<BootEntry>)
    ensures
        entry_views(r@) == other_loaders(grub, refind, fallback, fallback_is_self),
        unchecked(r@),
{
    let mut entries: Vec<BootEntry> = Vec::new();
    let ghost mut expect: Seq<BootEntryView> = seq![];
    if grub {
        entries.push(
            new_entry(
                own("grub"),
                own("GRUB Bootloader"),
                EntryKind::Chainload { path: own(GRUB_PATH) },
                Icon::Efi,
            ),
        );
    }
    let ghost e1 = entry_views(entries@);
    assert(e1 =~= (if grub {
        seq![loader_entry(GRUB_PATH@, "grub"@, "GRUB Bootloader"@)]
    } else {
        seq![]
    }));
    if refind {
        entries.push(
            new_entry(
                own("refind"),
                own("rEFInd Boot Manager"),
                EntryKind::Chainload { path: own(REFIND_PATH) },
                Icon::Efi,
            ),
        );
        assert(entry_views(entries@) =~= e1.push(
            loader_entry(REFIND_PATH@, "refind"@, "rEFInd Boot Manager"@),
        ));
    }
    let ghost e2 = entry_views(entries@);
    if fallback && !fallback_is_self {
        entries.push(
            new_entry(
                own("fallback"),
                own("EFI Fallback"),
                EntryKind::Chainload { path: own(FALLBACK_PATH) },
                Icon::Efi,
            ),
        );
        assert(entry_views(entries@) =~= e2.push(
            loader_entry(FALLBACK_PATH@, "fallback"@, "EFI Fallback"@),
        ));
    }
    assert(entry_views(entries@) =~= other_loaders(grub, refind, fallback, fallback_is_self));
    entries
}

// ---------------------------------------------------------------------------
// Diagnostic modules
// ---------------------------------------------------------------------------

/// The module name of a tool path: its file name without `.efi`.
pub open spec fn tool_file(path: Seq<char>) -> Seq<char> {
    trim_efi(last_segment(path))
}

/// The display name the manifest gives `id`: the name of its first entry
/// with that id, else `Tool: <id>`.
pub open spec fn tool_name(id: Seq<char>, manifest: Seq<(Seq<char>, Seq<char>)>) -> Seq<char>
    decreases manifest.len(),
{
    if manifest.len() == 0 {
        "Tool: "@ + id
    } else if manifest[0].0 == id {
        manifest[0].1
    } else {
        tool_name(id, manifest.drop_first())
    }
}

/// The entry of one diagnostic module.
pub open spec fn tool_entry(path: Seq<char>, manifest: Seq<(Seq<char>, Seq<char>)>) -> BootEntryView {
    esp_entry(
        "tool-"@ + tool_file(path),
        tool_name(tool_file(path), manifest),
        EntryKindView::Chainload(path),
        Icon::Tools,
    )
}

/// The manifest as plain values.
pub open spec fn manifest_view(m: Seq<(String, String)>) -> Seq<(Seq<char>, Seq<char>)> {
    m.map_values(|p: (String, String)| (p.0@, p.1@))
}

/// The strings of a slice as plain values.
pub open spec fn path_views(v: Seq<String>) -> Seq<Seq<char>> {
    v.map_values(|s: String| s@)
}

fn lookup_tool_name(id: &str, manifest: &[(String, String)]) -> (r: String)
    ensures
        r@ == tool_name(id@, manifest_view(manifest@)),
{
    let ghost m = manifest_view(manifest@);
    assert(m.subrange(0, m.len() as int) =~= m);
    let mut k: usize = 0;
    while k < manifest.len()
        invariant
            k <= manifest@.len(),
            m == manifest_view(manifest@),
            tool_name(id@, m) == tool_name(id@, m.subrange(k as int, m.len() as int)),
        decreases manifest@.len() - k,
    {
        let ghost rest = m.subrange(k as int, m.len() as int);
        assert(rest[0] == m[k as int]);
        assert(rest.drop_first() =~= m.subrange(k + 1, m.len() as int));
        if crate::text::str_eq(manifest[k].0.as_str(), id) {
            return own(manifest[k].1.as_str());
        }
        k += 1;
    }
    concat_str("Tool: ", id)
}

/// Entries for LamBoot's diagnostic modules, in the order given: none when
/// modules are disabled by policy; otherwise one chainload entry per module
/// path the policy allows, named from the module manifest.
pub fn discover_tools(modules_enabled: bool, module_paths: &[String], manifest: &[(String, String)]) -> (r:
    Vec<BootEntry>)
    ensures
        !modules_enabled ==> r@.len() == 0,
        modules_enabled ==> entry_views(r@) == path_views(module_paths@).map_values(
            |p: Seq<char>| tool_entry(p, manifest_view(manifest@)),
        ),
        unchecked(r@),
{
    let mut entries: Vec<BootEntry> = Vec::new();
    if !modules_enabled {
        return entries;
    }
    let ghost want = path_views(module_paths@).map_values(
        |p: Seq<char>| tool_entry(p, manifest_view(manifest@)),
    );
    let mut k: usize = 0;
    while k < module_paths.len()
        invariant
            k <= module_paths@.len(),
            want == path_views(module_paths@).map_values(
                |p: Seq<char>| tool_entry(p, manifest_view(manifest@)),
            ),
            entry_views(entries@) == want.subrange(0, k as int),
            unchecked(entries@),
        decreases module_paths@.len() - k,
    {
        let path = module_paths[k].as_str();
        let file = match extract_filename(path) {
            Some(f) => f,
            None => own("tool"),
        };
        let name = lookup_tool_name(file.as_str(), manifest);
        let id = concat_str("tool-", file.as_str());
        let e = new_entry(id, name, EntryKind::Chainload { path: own(path) }, Icon::Tools);
        assert(path@ == path_views(module_paths@)[k as int]);
        assert(file@ == tool_file(path@));
        assert(e@ == want[k as int]);
        let ghost before = entries@;
        entries.push(e);
        assert(entry_views(entries@) =~= entry_views(before).push(want[k as int]));
        assert(entry_views(entries@) =~= want.subrange(0, k + 1));
        k += 1;
    }
    assert(want.subrange(0, module_paths@.len() as int) =~= want);
    entries
}


// ---------------------------------------------------------------------------
// systemd-boot style kernel directories
// ---------------------------------------------------------------------------

/// `/EFI/<name>` followed by `file`.
pub open spec fn sdboot_path(name: Seq<char>, file: Seq<char>) -> Seq<char> {
    "/EFI/"@ + name + file
}

/// A forward-slash path written with backslashes.
pub open spec fn backslashed(p: Seq<char>) -> Seq<char> {
    replace_all(p, seq!['/'], seq!['\\'])
}

/// The files of a `/EFI/<distro>-<uuid>` directory, forward-slash form.
pub struct SdBootPaths {
    pub kernel: String,
    pub cmdline: String,
    pub initrd: String,
    pub previous_kernel: String,
    pub previous_initrd: String,
}

/// The files to look for in the directory `name` under `/EFI`: the kernel
/// `vmlinuz.efi`, its `cmdline` and `initrd.img`, and the last-known-good
/// `vmlinuz-previous.efi` with `initrd.img-previous`.
pub fn sdboot_paths(name: &str) -> (r: SdBootPaths)
    ensures
        r.kernel@ == sdboot_path(name@, "/vmlinuz.efi"@),
        r.cmdline@ == sdboot_path(name@, "/cmdline"@),
        r.initrd@ == sdboot_path(name@, "/initrd.img"@),
        r.previous_kernel@ == sdboot_path(name@, "/vmlinuz-previous.efi"@),
        r.previous_initrd@ == sdboot_path(name@, "/initrd.img-previous"@),
{
    let dir = concat_str("/EFI/", name);
    SdBootPaths {
        kernel: concat_str(dir.as_str(), "/vmlinuz.efi"),
        cmdline: concat_str(dir.as_str(), "/cmdline"),
        initrd: concat_str(dir.as_str(), "/initrd.img"),
        previous_kernel: concat_str(dir.as_str(), "/vmlinuz-previous.efi"),
        previous_initrd: concat_str(dir.as_str(), "/initrd.img-previous"),
    }
}

/// What the caller found for one entry of `/EFI`.
pub struct SdBootDir {
    /// The entry's name.
    pub name: String,
    /// Whether the entry is a directory.
    pub is_dir: bool,
    /// Whether `vmlinuz.efi` exists in it.
    pub kernel_present: bool,
    /// Whether the policy allows the kernel's backslash path.
    pub kernel_allowed: bool,
    /// The text of `cmdline`, when it could be read.
    pub cmdline: Option<String>,
    /// Whether `initrd.img` exists.
    pub initrd_present: bool,
    /// Whether `vmlinuz-previous.efi` exists.
    pub previous_present: bool,
    /// Whether the policy allows the previous kernel's backslash path.
    pub previous_allowed: bool,
    /// Whether `initrd.img-previous` exists.
    pub previous_initrd_present: bool,
}

/// The entries of one `/EFI` directory entry: nothing unless it is a
/// directory named `<distro>-<uuid>` holding an allowed kernel; then the
/// kernel's entry, and a second one for the previous kernel when that is
/// present and allowed.  Both boot with the trimmed `cmdline` text (empty
/// when unreadable) and with their initrd when it exists.
pub open spec fn sdboot_entries(d: SdBootDir) -> Seq<BootEntryView> {
    let n = d.name@;
    let options = trim(
        match d.cmdline {
            Some(c) => c@,
            None => Seq::<char>::empty(),
        },
    );
    let shown = pretty_name(n);
    let main = esp_entry(
        "sdboot-"@ + n,
        shown,
        EntryKindView::LinuxLegacy(
            backslashed(sdboot_path(n, "/vmlinuz.efi"@)),
            if d.initrd_present {
                seq![backslashed(sdboot_path(n, "/initrd.img"@))]
            } else {
                seq![]
            },
            options,
        ),
        Icon::Linux,
    );
    let previous = esp_entry(
        "sdboot-"@ + n + "-previous"@,
        shown + " (previous kernel)"@,
        EntryKindView::LinuxLegacy(
            backslashed(sdboot_path(n, "/vmlinuz-previous.efi"@)),
            if d.previous_initrd_present {
                seq![backslashed(sdboot_path(n, "/initrd.img-previous"@))]
            } else {
                seq![]
            },
            options,
        ),
        Icon::Linux,
    );
    if !(d.is_dir && distro_uuid_dir(n) && d.kernel_present && d.kernel_allowed) {
        seq![]
    } else if d.previous_present && d.previous_allowed {
        seq![main, previous]
    } else {
        seq![main]
    }
}

fn trimmed(s: &str) -> (r: String)
    ensures
        r@ == trim(s@),
{
    let v = chars_of(s);
    let (a, b) = trim_range(&v, 0, v.len());
    assert(v@.subrange(0, v@.len() as int) == v@);
    string_of_range(&v, a, b)
}

fn initrd_list(present: bool, path: &str) -> (r: Vec<String>)
    ensures
        crate::bls_parse::strings_view(r@) == (if present {
            seq![backslashed(path@)]
        } else {
            Seq::<Seq<char>>::empty()
        }),
{
    let mut v: Vec<String> = Vec::new();
    if present {
        v.push(forward_to_backslash(path));
        assert(crate::bls_parse::strings_view(v@) =~= seq![backslashed(path@)]);
    } else {
        assert(crate::bls_parse::strings_view(v@) =~= Seq::<Seq<char>>::empty());
    }
    v
}

fn sdboot_dir_entries(d: &SdBootDir, out: &mut Vec<BootEntry>)
    ensures
        entry_views(final(out)@) == entry_views(old(out)@) + sdboot_entries(*d),
        unchecked(old(out)@) ==> unchecked(final(out)@),
{
    if !(d.is_dir && looks_like_distro_uuid_dir(d.name.as_str()) && d.kernel_present
        && d.kernel_allowed) {
        assert(entry_views(out@) + sdboot_entries(*d) =~= entry_views(out@));
        return;
    }
    let name = d.name.as_str();
    let paths = sdboot_paths(name);
    let options = match &d.cmdline {
        Some(c) => trimmed(c.as_str()),
        None => String::new(),
    };
    let shown = pretty_name_from_distro_uuid_dir(name);
    let ghost before = entry_views(out@);
    let main = new_entry(
        concat_str("sdboot-", name),
        shown.clone(),
        EntryKind::LinuxLegacy {
            kernel_path: forward_to_backslash(paths.kernel.as_str()),
            initrd_paths: initrd_list(d.initrd_present, paths.initrd.as_str()),
            options: options.clone(),
        },
        Icon::Linux,
    );
    out.push(main);
    if d.previous_present && d.previous_allowed {
        let id = concat_str(concat_str("sdboot-", name).as_str(), "-previous");
        let prev = new_entry(
            id,
            concat_str(shown.as_str(), " (previous kernel)"),
            EntryKind::LinuxLegacy {
                kernel_path: forward_to_backslash(paths.previous_kernel.as_str()),
                initrd_paths: initrd_list(d.previous_initrd_present, paths.previous_initrd.as_str()),
                options,
            },
            Icon::Linux,
        );
        out.push(prev);
    }
    assert(entry_views(out@) =~= before + sdboot_entries(*d));
}

/// Entries for the systemd-boot style kernel directories among the
/// entries of `/EFI`, in listing order.
pub fn discover_systemd_boot_dir_style(dirs: &[SdBootDir]) -> (r: Vec<BootEntry>)
    ensures
        entry_views(r@) == sdboot_all(dirs@),
        unchecked(r@),
{
    let mut out: Vec<BootEntry> = Vec::new();
    let mut k: usize = 0;
    while k < dirs.len()
        invariant
            k <= dirs@.len(),
            entry_views(out@) == sdboot_all(dirs@.subrange(0, k as int)),
            unchecked(out@),
        decreases dirs@.len() - k,
    {
        sdboot_dir_entries(&dirs[k], &mut out);
        assert(dirs@.subrange(0, k + 1).drop_last() =~= dirs@.subrange(0, k as int));
        k += 1;
    }
    assert(dirs@.subrange(0, dirs@.len() as int) =~= dirs@);
    out
}

/// The entries of all the directories, in order.
pub open spec fn sdboot_all(dirs: Seq<SdBootDir>) -> Seq<BootEntryView>
    decreases dirs.len(),
{
    if dirs.len() == 0 {
        seq![]
    } else {
        sdboot_all(dirs.drop_last()) + sdboot_entries(dirs.last())
    }
}


// ---------------------------------------------------------------------------
// Unified kernel images
// ---------------------------------------------------------------------------

/// What a UKI's PE sections say: the OS name from `.osrel`, the kernel
/// version from `.uname`, the embedded command line from `.cmdline`.
pub struct UkiMetadata {
    pub os_name: Option<String>,
    pub kernel_version: Option<String>,
    pub cmdline: Option<String>,
}

pub struct UkiMetadataView {
    pub os_name: Option<Seq<char>>,
    pub kernel_version: Option<Seq<char>>,
    pub cmdline: Option<Seq<char>>,
}

impl View for UkiMetadata {
    type V = UkiMetadataView;

    open spec fn view(&self) -> UkiMetadataView {
        UkiMetadataView {
            os_name: crate::bls_parse::opt_view(self.os_name),
            kernel_version: crate::bls_parse::opt_view(self.kernel_version),
            cmdline: crate::bls_parse::opt_view(self.cmdline),
        }
    }
}

/// A UKI found on the ESP: its path and, when its sections could be read,
/// their metadata.
pub struct FoundUki {
    pub path: String,
    pub metadata: Option<UkiMetadata>,
}

/// The menu name of a UKI: `OS (version)` or `OS` from its metadata when it
/// names the OS, else `Linux (<file name>)`.
pub open spec fn uki_name(path: Seq<char>, meta: Option<UkiMetadataView>) -> Seq<char> {
    match meta {
        Some(m) if m.os_name is Some => match m.kernel_version {
            Some(kv) => m.os_name->0 + " ("@ + kv + ")"@,
            None => m.os_name->0,
        },
        _ => "Linux ("@ + tool_file(path) + ")"@,
    }
}

/// The `i`-th UKI's entry, before sorting.
pub open spec fn uki_entry(i: nat, path: Seq<char>, meta: Option<UkiMetadataView>) -> BootEntryView {
    esp_entry(
        "uki-"@ + dec(i),
        uki_name(path, meta),
        EntryKindView::Uki(
            path,
            match meta {
                Some(m) => match m.cmdline {
                    Some(c) => c,
                    None => Seq::<char>::empty(),
                },
                None => Seq::<char>::empty(),
            },
        ),
        Icon::Linux,
    )
}

/// The metadata as plain values.
pub open spec fn meta_view(m: Option<UkiMetadata>) -> Option<UkiMetadataView> {
    match m {
        Some(x) => Some(x@),
        None => None,
    }
}

/// The entries of the found UKIs, in the order found.
pub open spec fn uki_entries(found: Seq<FoundUki>) -> Seq<BootEntryView> {
    Seq::new(found.len(), |i: int| uki_entry(i as nat, found[i].path@, meta_view(found[i].metadata)))
}

/// Newest kernel first: `a` comes before `b` when its version (from its
/// name's last parentheses, else its id) is greater in the UAPI.10 order.
pub open spec fn uki_order(a: BootEntryView, b: BootEntryView) -> Order3 {
    version_order(encode_utf8(uki_version(b.name, b.id)), encode_utf8(uki_version(a.name, a.id)))
}

fn opt_text(o: &Option<String>) -> (r: String)
    ensures
        r@ == match o {
            Some(s) => s@,
            None => Seq::<char>::empty(),
        },
{
    match o {
        Some(s) => own(s.as_str()),
        None => String::new(),
    }
}

fn uki_display_name(path: &str, meta: &Option<UkiMetadata>) -> (r: String)
    ensures
        r@ == uki_name(path@, meta_view(*meta)),
{
    match meta {
        Some(m) => match &m.os_name {
            Some(os) => {
                return match &m.kernel_version {
                    Some(kv) => {
                        let a = concat_str(os.as_str(), " (");
                        let b = concat_str(a.as_str(), kv.as_str());
                        concat_str(b.as_str(), ")")
                    },
                    None => own(os.as_str()),
                };
            },
            None => {},
        },
        None => {},
    }
    let file = match extract_filename(path) {
        Some(f) => f,
        None => own("Linux"),
    };
    let a = concat_str("Linux (", file.as_str());
    concat_str(a.as_str(), ")")
}

fn uki_compare(a: &BootEntry, b: &BootEntry) -> (o: Order3)
    ensures
        o == uki_order(a@, b@),
{
    let av = extract_uki_version(a);
    let bv = extract_uki_version(b);
    crate::version::version_order_bytes(bv.as_str().as_bytes(), av.as_str().as_bytes())
}

/// `out` is `input` rearranged by `idx` (`out[k]` is `input[idx[k]]`,
/// each input position used once), and entries with equal versions keep
/// their input order.
pub open spec fn uki_rearrangement(out: Seq<BootEntryView>, input: Seq<BootEntryView>, idx: Seq<int>) -> bool {
    &&& idx.len() == out.len()
    &&& out.len() == input.len()
    &&& forall|k: int| 0 <= k < idx.len() ==> 0 <= #[trigger] idx[k] < input.len() && out[k] == input[idx[k]]
    &&& forall|k1: int, k2: int| 0 <= k1 < k2 < idx.len() ==> #[trigger] idx[k1] != #[trigger] idx[k2]
    &&& forall|k1: int, k2: int|
        0 <= k1 < k2 < idx.len() && uki_order(#[trigger] out[k1], #[trigger] out[k2]) == Order3::Equal
            ==> idx[k1] < idx[k2]
}

proof fn lemma_insert_stable(
    ov: Seq<BootEntryView>,
    all: Seq<BootEntryView>,
    idx: Seq<int>,
    j: int,
    x: BootEntryView,
    i: int,
)
    requires
        0 <= j <= ov.len(),
        idx.len() == ov.len(),
        0 <= i < all.len(),
        all[i] == x,
        forall|k: int| 0 <= k < idx.len() ==> 0 <= #[trigger] idx[k] < i && ov[k] == all[idx[k]],
        forall|k1: int, k2: int| 0 <= k1 < k2 < idx.len() ==> #[trigger] idx[k1] != #[trigger] idx[k2],
        forall|k1: int, k2: int|
            0 <= k1 < k2 < idx.len() && uki_order(#[trigger] ov[k1], #[trigger] ov[k2]) == Order3::Equal
                ==> idx[k1] < idx[k2],
        forall|k: int| j <= k < ov.len() ==> uki_order(#[trigger] ov[k], x) == Order3::Greater,
    ensures
        ({
            let nv = ov.insert(j, x);
            let nidx = idx.insert(j, i);
            &&& forall|k: int| 0 <= k < nidx.len() ==> 0 <= #[trigger] nidx[k] < i + 1 && nv[k]
                == all[nidx[k]]
            &&& forall|k1: int, k2: int| 0 <= k1 < k2 < nidx.len() ==> #[trigger] nidx[k1]
                != #[trigger] nidx[k2]
            &&& forall|k1: int, k2: int|
                0 <= k1 < k2 < nidx.len() && uki_order(#[trigger] nv[k1], #[trigger] nv[k2])
                    == Order3::Equal ==> nidx[k1] < nidx[k2]
        }),
{
    let nv = ov.insert(j, x);
    let nidx = idx.insert(j, i);
    assert forall|k: int| 0 <= k < nidx.len() implies 0 <= #[trigger] nidx[k] < i + 1 && nv[k]
        == all[nidx[k]] by {
        if k < j {
            assert(nidx[k] == idx[k] && nv[k] == ov[k]);
        } else if k > j {
            assert(nidx[k] == idx[k - 1] && nv[k] == ov[k - 1]);
        }
    }
    assert forall|k1: int, k2: int| 0 <= k1 < k2 < nidx.len() implies #[trigger] nidx[k1]
        != #[trigger] nidx[k2] by {
        if k1 < j && k2 < j {
            assert(nidx[k1] == idx[k1] && nidx[k2] == idx[k2]);
        } else if k1 < j && k2 == j {
            assert(nidx[k1] == idx[k1]);
        } else if k1 < j {
            assert(nidx[k1] == idx[k1] && nidx[k2] == idx[k2 - 1]);
        } else if k1 == j {
            assert(nidx[k2] == idx[k2 - 1]);
        } else {
            assert(nidx[k1] == idx[k1 - 1] && nidx[k2] == idx[k2 - 1]);
        }
    }
    assert forall|k1: int, k2: int|
        0 <= k1 < k2 < nidx.len() && uki_order(#[trigger] nv[k1], #[trigger] nv[k2]) == Order3::Equal
            implies nidx[k1] < nidx[k2] by {
        if k1 < j && k2 < j {
            assert(nidx[k1] == idx[k1] && nidx[k2] == idx[k2]);
            assert(nv[k1] == ov[k1] && nv[k2] == ov[k2]);
        } else if k1 < j && k2 == j {
            assert(nidx[k1] == idx[k1]);
        } else if k1 < j {
            assert(nidx[k1] == idx[k1] && nidx[k2] == idx[k2 - 1]);
            assert(nv[k1] == ov[k1] && nv[k2] == ov[k2 - 1]);
        } else if k1 == j {
            assert(nv[k1] == x && nv[k2] == ov[k2 - 1]);
            assert(uki_order(ov[k2 - 1], x) == Order3::Greater);
            version_order_antisymmetric(
                encode_utf8(uki_version(x.name, x.id)),
                encode_utf8(uki_version(ov[k2 - 1].name, ov[k2 - 1].id)),
            );
        } else {
            assert(nidx[k1] == idx[k1 - 1] && nidx[k2] == idx[k2 - 1]);
            assert(nv[k1] == ov[k1 - 1] && nv[k2] == ov[k2 - 1]);
        }
    }
}

/// Sorts UKI entries newest kernel first (a stable insertion sort).
#[verifier::rlimit(60)]
pub fn sort_uki_entries(entries: Vec<BootEntry>) -> (r: Vec<BootEntry>)
    ensures
        entry_views(r@).to_multiset() == entry_views(entries@).to_multiset(),
        adjacent_sorted(entry_views(r@), |a: BootEntryView, b: BootEntryView| uki_order(a, b)),
        exists|idx: Seq<int>| uki_rearrangement(entry_views(r@), entry_views(entries@), idx),
        unchecked(entries@) ==> unchecked(r@),
{
    let ghost all = entry_views(entries@);
    let ghost n = all.len();
    let ghost fresh = unchecked(entries@);
    let mut rest = entries;
    let mut out: Vec<BootEntry> = Vec::new();
    let ghost mut i: int = 0;
    let ghost mut idx: Seq<int> = Seq::empty();
    assert(entry_views(out@) =~= all.subrange(0, 0));
    assert(entry_views(rest@) =~= all.subrange(0, n as int));
    while rest.len() > 0
        invariant
            0 <= i <= n,
            n == all.len(),
            entry_views(rest@) == all.subrange(i, n as int),
            entry_views(out@).to_multiset() == all.subrange(0, i).to_multiset(),
            adjacent_sorted(entry_views(out@), |a: BootEntryView, b: BootEntryView| uki_order(a, b)),
            fresh ==> unchecked(rest@) && unchecked(out@),
            idx.len() == out@.len() == i,
            forall|k: int| 0 <= k < idx.len() ==> 0 <= #[trigger] idx[k] < i && entry_views(out@)[k]
                == all[idx[k]],
            forall|k1: int, k2: int| 0 <= k1 < k2 < idx.len() ==> #[trigger] idx[k1] != #[trigger] idx[k2],
            forall|k1: int, k2: int|
                0 <= k1 < k2 < idx.len() && uki_order(
                    #[trigger] entry_views(out@)[k1],
                    #[trigger] entry_views(out@)[k2],
                ) == Order3::Equal ==> idx[k1] < idx[k2],
        decreases rest@.len(),
    {
        let ghost rv = entry_views(rest@);
        let ghost old_rest = rest@;
        let x = rest.remove(0);
        assert(rest@ == old_rest.remove(0));
        assert(x@ == rv[0]);
        assert(rv == all.subrange(i, n as int));
        assert(rv.len() > 0);
        assert(all.subrange(i, n as int)[0] == all[i]);
        assert(rv[0] == all[i]);
        assert(x@ == all[i]);
        assert(fresh ==> x.preflight is None) by {
            if fresh {
                assert(old_rest[0] == x);
            }
        }
        assert forall|k: int| 0 <= k < rest@.len() implies entry_views(rest@)[k] == all[i + 1 + k] by {
            assert(rest@[k] == old_rest[k + 1]);
            assert(rv[k + 1] == all.subrange(i, n as int)[k + 1]);
            assert(rv[k + 1] == all[i + 1 + k]);
        }
        assert(entry_views(rest@) =~= all.subrange(i + 1, n as int));
        assert(fresh ==> unchecked(rest@)) by {
            if fresh {
                assert forall|k: int| 0 <= k < rest@.len() implies (#[trigger] rest@[k]).preflight is None by {
                    assert(rest@[k] == old_rest[k + 1]);
                }
            }
        }
        let mut j = out.len();
        while j > 0 && uki_compare(&out[j - 1], &x) == Order3::Greater
            invariant
                j <= out@.len(),
                forall|k: int| j <= k < out@.len() ==> uki_order(#[trigger] out@[k]@, x@)
                    == Order3::Greater,
            decreases j,
        {
            j -= 1;
        }
        let ghost ov = entry_views(out@);
        let ghost old_out = out@;
        proof {
            if j < out@.len() {
                version_order_antisymmetric(
                    encode_utf8(uki_version(x@.name, x@.id)),
                    encode_utf8(uki_version(ov[j as int].name, ov[j as int].id)),
                );
                assert(uki_order(x@, ov[j as int]) == Order3::Less);
            }
            if j > 0 {
                assert(uki_order(ov[j - 1], x@) != Order3::Greater);
            }
        }
        out.insert(j, x);
        proof {
            let nv = entry_views(out@);
            assert(nv =~= ov.insert(j as int, x@));
            vstd::seq_lib::to_multiset_insert(ov, j as int, x@);
            assert(all.subrange(0, i + 1) =~= all.subrange(0, i).push(all[i]));
            vstd::seq_lib::to_multiset_build(all.subrange(0, i), all[i]);
            lemma_insert_sorted(ov, j as int, x@, |a: BootEntryView, b: BootEntryView| uki_order(a, b));
            let nidx = idx.insert(j as int, i);
            lemma_insert_stable(ov, all, idx, j as int, x@, i);
            idx = nidx;
            if fresh {
                assert forall|k: int| 0 <= k < out@.len() implies (#[trigger] out@[k]).preflight is None by {
                    if k < j {
                        assert(out@[k] == old_out[k]);
                    } else if k > j {
                        assert(out@[k] == old_out[k - 1]);
                    }
                }
            }
            i = i + 1;
        }
    }
    assert(all.subrange(0, n as int) == all);
    assert(uki_rearrangement(entry_views(out@), all, idx));
    out
}

/// Entries for the unified kernel images under `\EFI\Linux` that the policy
/// allows, in the order found: `uki-<n>` ids in that order, names from the
/// image metadata, the embedded command line (or none); then sorted newest
/// kernel first.
pub fn discover_linux_uki(found: &[FoundUki]) -> (r: Vec<BootEntry>)
    ensures
        entry_views(r@).to_multiset() == uki_entries(found@).to_multiset(),
        adjacent_sorted(entry_views(r@), |a: BootEntryView, b: BootEntryView| uki_order(a, b)),
        exists|idx: Seq<int>| uki_rearrangement(entry_views(r@), uki_entries(found@), idx),
        unchecked(r@),
{
    let ghost want = uki_entries(found@);
    let mut entries: Vec<BootEntry> = Vec::new();
    let mut k: usize = 0;
    while k < found.len()
        invariant
            k <= found@.len(),
            want == uki_entries(found@),
            entry_views(entries@) == want.subrange(0, k as int),
            unchecked(entries@),
        decreases found@.len() - k,
    {
        let f = &found[k];
        let path = f.path.as_str();
        let name = uki_display_name(path, &f.metadata);
        let options = match &f.metadata {
            Some(m) => opt_text(&m.cmdline),
            None => String::new(),
        };
        let digits = decimal_chars(k as u64);
        let id = concat_str("uki-", string_of(&digits).as_str());
        let e = new_entry(id, name, EntryKind::Uki { path: own(path), options }, Icon::Linux);
        assert(e@ == want[k as int]);
        let ghost before = entries@;
        entries.push(e);
        assert(entry_views(entries@) =~= entry_views(before).push(want[k as int]));
        assert(entry_views(entries@) =~= want.subrange(0, k + 1));
        k += 1;
    }
    assert(want.subrange(0, found@.len() as int) =~= want);
    sort_uki_entries(entries)
}

} // verus!
