//! Distro-family recipes for booting a Linux ISO that carries no usable
//! `loopback.cfg`.
//!
//! A family is recognised by marker paths on the mounted ISO; its recipe
//! names the kernel and initrd candidates and two command-line shapes: one
//! for a disc booted directly (`{label}` is the volume label) and one for an
//! ISO loop-booted from a file (`{iso}` is the file's path).
use vstd::prelude::*;
use vstd::string::StrSliceExecFns;
use vstd::string::StringSliceAdditionalSpecFns;

use crate::text::{chars_of, last_index, replace_all, replace_str, rfind_char, str_eq};
use crate::version::{Order3, lemma_lex_flip, lemma_lex_same, lemma_lex_trans, lex, str_order};

verus! {

/// A distro family's boot recipe.
#[derive(Debug, Clone)]
pub struct DistroRecipe {
    /// Stable family id (`"arch"`, `"ubuntu-casper"`).
    pub family: &'static str,
    /// Marker paths that must all exist for the recipe to match.
    pub markers: Vec<&'static str>,
    /// Kernel path candidates; the first that resolves is the kernel. A
    /// trailing `*` makes a candidate a prefix glob within its directory.
    pub kernel: Vec<&'static str>,
    /// Initrd path candidates; every one that resolves is loaded, in order.
    pub initrd: Vec<&'static str>,
    /// Command line for a disc booted directly; `{label}` is the volume label.
    pub media_cmdline: &'static str,
    /// Command line for an ISO loop-booted from a file; `{iso}` is its path.
    pub file_cmdline: &'static str,
}

/// A recipe as plain values.
pub struct RecipeView {
    pub family: &'static str,
    pub markers: Seq<&'static str>,
    pub kernel: Seq<&'static str>,
    pub initrd: Seq<&'static str>,
    pub media_cmdline: &'static str,
    pub file_cmdline: &'static str,
}

impl View for DistroRecipe {
    type V = RecipeView;

    open spec fn view(&self) -> RecipeView {
        RecipeView {
            family: self.family,
            markers: self.markers@,
            kernel: self.kernel@,
            initrd: self.initrd@,
            media_cmdline: self.media_cmdline,
            file_cmdline: self.file_cmdline,
        }
    }
}

/// The recipe table, most specific marker first.
pub open spec fn recipe_table() -> Seq<RecipeView> {
    seq![
        RecipeView {
            family: "arch",
            markers: seq!["/arch/boot"],
            kernel: seq!["/arch/boot/x86_64/vmlinuz-linux", "/arch/boot/vmlinuz-linux"],
            initrd: seq![
                "/arch/boot/intel-ucode.img",
                "/arch/boot/amd-ucode.img",
                "/arch/boot/x86_64/initramfs-linux.img",
            ],
            media_cmdline: "archisobasedir=arch archisolabel={label}",
            file_cmdline: "archisobasedir=arch img_loop={iso} earlymodules=loop",
        },
        RecipeView {
            family: "ubuntu-casper",
            markers: seq!["/casper"],
            kernel: seq!["/casper/vmlinuz", "/casper/vmlinuz.efi"],
            initrd: seq!["/casper/initrd", "/casper/initrd.lz", "/casper/initrd.gz"],
            media_cmdline: "boot=casper",
            file_cmdline: "boot=casper iso-scan/filename={iso}",
        },
        RecipeView {
            family: "debian-live",
            markers: seq!["/live"],
            kernel: seq!["/live/vmlinuz*", "/live/vmlinuz"],
            initrd: seq!["/live/initrd.img*", "/live/initrd.img"],
            media_cmdline: "boot=live components",
            file_cmdline: "boot=live components findiso={iso}",
        },
        RecipeView {
            family: "fedora",
            markers: seq!["/LiveOS/squashfs.img"],
            kernel: seq!["/images/pxeboot/vmlinuz", "/boot/x86_64/loader/linux", "/isolinux/vmlinuz"],
            initrd: seq![
                "/images/pxeboot/initrd.img",
                "/boot/x86_64/loader/initrd",
                "/isolinux/initrd.img",
            ],
            media_cmdline: "root=live:CDLABEL={label} rd.live.image",
            file_cmdline: "root=live:CDLABEL={label} rd.live.image iso-scan/filename={iso}",
        },
        RecipeView {
            family: "opensuse",
            markers: seq!["/boot/x86_64/loader"],
            kernel: seq!["/boot/x86_64/loader/linux"],
            initrd: seq!["/boot/x86_64/loader/initrd"],
            media_cmdline: "root=live:CDLABEL={label}",
            file_cmdline: "root=live:CDLABEL={label} iso-scan/filename={iso}",
        },
        RecipeView {
            family: "alpine",
            markers: seq!["/apks"],
            kernel: seq!["/boot/vmlinuz-lts", "/boot/vmlinuz-virt"],
            initrd: seq!["/boot/initramfs-lts", "/boot/initramfs-virt"],
            media_cmdline: "alpine_dev=cdrom:iso9660 modules=loop,squashfs,sd-mod,usb-storage quiet",
            file_cmdline: "modules=loop,squashfs,sd-mod,usb-storage quiet",
        },
    ]
}

/// Row `i` of the recipe table.
pub fn recipe(i: usize) -> (r: DistroRecipe)
    requires
        i < recipe_table().len(),
    ensures
        r@ == recipe_table()[i as int],
{
    let r = if i == 0 {
        DistroRecipe {
            family: "arch",
            markers: vec!["/arch/boot"],
            kernel: vec!["/arch/boot/x86_64/vmlinuz-linux", "/arch/boot/vmlinuz-linux"],
            initrd: vec![
                "/arch/boot/intel-ucode.img",
                "/arch/boot/amd-ucode.img",
                "/arch/boot/x86_64/initramfs-linux.img",
            ],
            media_cmdline: "archisobasedir=arch archisolabel={label}",
            file_cmdline: "archisobasedir=arch img_loop={iso} earlymodules=loop",
        }
    } else if i == 1 {
        DistroRecipe {
            family: "ubuntu-casper",
            markers: vec!["/casper"],
            kernel: vec!["/casper/vmlinuz", "/casper/vmlinuz.efi"],
            initrd: vec!["/casper/initrd", "/casper/initrd.lz", "/casper/initrd.gz"],
            media_cmdline: "boot=casper",
            file_cmdline: "boot=casper iso-scan/filename={iso}",
        }
    } else if i == 2 {
        DistroRecipe {
            family: "debian-live",
            markers: vec!["/live"],
            kernel: vec!["/live/vmlinuz*", "/live/vmlinuz"],
            initrd: vec!["/live/initrd.img*", "/live/initrd.img"],
            media_cmdline: "boot=live components",
            file_cmdline: "boot=live components findiso={iso}",
        }
    } else if i == 3 {
        DistroRecipe {
            family: "fedora",
            markers: vec!["/LiveOS/squashfs.img"],
            kernel: vec!["/images/pxeboot/vmlinuz", "/boot/x86_64/loader/linux", "/isolinux/vmlinuz"],
            initrd: vec![
                "/images/pxeboot/initrd.img",
                "/boot/x86_64/loader/initrd",
                "/isolinux/initrd.img",
            ],
            media_cmdline: "root=live:CDLABEL={label} rd.live.image",
            file_cmdline: "root=live:CDLABEL={label} rd.live.image iso-scan/filename={iso}",
        }
    } else if i == 4 {
        DistroRecipe {
            family: "opensuse",
            markers: vec!["/boot/x86_64/loader"],
            kernel: vec!["/boot/x86_64/loader/linux"],
            initrd: vec!["/boot/x86_64/loader/initrd"],
            media_cmdline: "root=live:CDLABEL={label}",
            file_cmdline: "root=live:CDLABEL={label} iso-scan/filename={iso}",
        }
    } else {
        DistroRecipe {
            family: "alpine",
            markers: vec!["/apks"],
            kernel: vec!["/boot/vmlinuz-lts", "/boot/vmlinuz-virt"],
            initrd: vec!["/boot/initramfs-lts", "/boot/initramfs-virt"],
            media_cmdline: "alpine_dev=cdrom:iso9660 modules=loop,squashfs,sd-mod,usb-storage quiet",
            file_cmdline: "modules=loop,squashfs,sd-mod,usb-storage quiet",
        }
    };
    assert(r.markers@ =~= recipe_table()[i as int].markers);
    assert(r.kernel@ =~= recipe_table()[i as int].kernel);
    assert(r.initrd@ =~= recipe_table()[i as int].initrd);
    r
}


/// Whether `path` is one of the `present` paths.
pub open spec fn present_in(path: &str, present: Seq<&str>) -> bool {
    exists|j: int| 0 <= j < present.len() && (#[trigger] present[j])@ == path@
}

/// Whether every marker is among the `present` paths.
pub open spec fn markers_present(markers: Seq<&'static str>, present: Seq<&str>) -> bool {
    forall|k: int| 0 <= k < markers.len() ==> present_in(#[trigger] markers[k], present)
}

/// The first recipe at or after row `i` whose markers are all present.
pub open spec fn first_match(present: Seq<&str>, i: int) -> Option<RecipeView>
    decreases recipe_table().len() - i,
{
    if i < 0 || i >= recipe_table().len() {
        None
    } else if markers_present(recipe_table()[i].markers, present) {
        Some(recipe_table()[i])
    } else {
        first_match(present, i + 1)
    }
}

/// What `fingerprint` returns: the first recipe of the table whose markers
/// are all present.
pub open spec fn fingerprint_spec(present: Seq<&str>) -> Option<RecipeView> {
    first_match(present, 0)
}

fn contains_str(present: &[&str], path: &str) -> (b: bool)
    ensures
        b == present_in(path, present@),
{
    let mut j: usize = 0;
    while j < present.len()
        invariant
            j <= present@.len(),
            forall|m: int| 0 <= m < j ==> present@[m]@ != path@,
        decreases present@.len() - j,
    {
        if str_eq(present[j], path) {
            assert(present@[j as int]@ == path@);
            return true;
        }
        j += 1;
    }
    false
}

fn all_present(markers: &Vec<&'static str>, present: &[&str]) -> (b: bool)
    ensures
        b == markers_present(markers@, present@),
{
    let mut k: usize = 0;
    while k < markers.len()
        invariant
            k <= markers@.len(),
            forall|m: int| 0 <= m < k ==> present_in(#[trigger] markers@[m], present@),
        decreases markers@.len() - k,
    {
        if !contains_str(present, markers[k]) {
            return false;
        }
        k += 1;
    }
    true
}

/// Identify the distro family of a mounted ISO from the paths found on it:
/// the first recipe of the table whose marker paths are all `present`.
pub fn fingerprint(present: &[&str]) -> (r: Option<DistroRecipe>)
    ensures
        match r {
            Some(x) => fingerprint_spec(present@) == Some(x@),
            None => fingerprint_spec(present@) is None,
        },
{
    let n: usize = 6;
    let mut i: usize = 0;
    while i < n
        invariant
            n == recipe_table().len(),
            i <= n,
            fingerprint_spec(present@) == first_match(present@, i as int),
        decreases n - i,
    {
        let r = recipe(i);
        if all_present(&r.markers, present) {
            return Some(r);
        }
        i += 1;
    }
    None
}

/// What `split_glob` returns: for a candidate ending in `*` whose rest holds
/// a `/`, the text before the last `/` and the text after it.
pub open spec fn split_glob_spec(c: Seq<char>) -> Option<(Seq<char>, Seq<char>)> {
    if c.len() == 0 || c.last() != '*' {
        None
    } else {
        let stripped = c.drop_last();
        let slash = last_index(stripped, '/');
        if slash < 0 {
            None
        } else {
            Some((stripped.subrange(0, slash), stripped.subrange(slash + 1, stripped.len() as int)))
        }
    }
}

/// Split a trailing-`*` prefix glob into its directory and its name prefix
/// (`/live/vmlinuz*` gives `("/live", "vmlinuz")`); `None` for an exact path
/// or a glob without a `/`.
pub fn split_glob(candidate: &str) -> (r: Option<(&str, &str)>)
    ensures
        match r {
            Some((d, p)) => split_glob_spec(candidate@) == Some((d@, p@)),
            None => split_glob_spec(candidate@) is None,
        },
{
    let v = chars_of(candidate);
    let n = v.len();
    if n == 0 || v[n - 1] != '*' {
        return None;
    }
    assert(v@.subrange(0, n - 1) == candidate@.drop_last());
    match rfind_char(&v, 0, n - 1, '/') {
        None => None,
        Some(slash) => {
            proof {
                crate::text::lemma_last_index(candidate@.drop_last(), '/');
            }
            let dir = candidate.substring_char(0, slash);
            let prefix = candidate.substring_char(slash + 1, n - 1);
            assert(dir@ == candidate@.drop_last().subrange(0, slash as int));
            assert(prefix@ == candidate@.drop_last().subrange(slash + 1, n - 1));
            Some((dir, prefix))
        }
    }
}

/// Whether `s` begins with `p`.
pub open spec fn starts_with(s: Seq<char>, p: Seq<char>) -> bool {
    p.len() <= s.len() && s.subrange(0, p.len() as int) == p
}

fn str_starts_with(s: &str, p: &str) -> (b: bool)
    ensures
        b == starts_with(s@, p@),
{
    let v = chars_of(s);
    crate::text::range_starts_with(&v, 0, v.len(), p)
}

/// `n` is one of `names`, starts with `prefix`, and no name starting with
/// `prefix` sorts after it (by bytes).
pub open spec fn is_glob_pick(names: Seq<&str>, prefix: Seq<char>, n: &str) -> bool {
    &&& exists|i: int| 0 <= i < names.len() && names[i] == n
    &&& starts_with(n@, prefix)
    &&& forall|j: int|
        0 <= j < names.len() && starts_with((#[trigger] names[j])@, prefix) ==> lex(
            names[j].spec_bytes(),
            n.spec_bytes(),
        ) != Order3::Greater
}

/// No name starts with `prefix`.
pub open spec fn no_glob_match(names: Seq<&str>, prefix: Seq<char>) -> bool {
    forall|j: int| 0 <= j < names.len() ==> !starts_with((#[trigger] names[j])@, prefix)
}

/// Pick the lexicographically greatest name starting with `prefix` (the
/// newest version-stamped kernel or initrd when several are present);
/// `None` when no name matches.
pub fn glob_pick<'a>(names: &[&'a str], prefix: &str) -> (r: Option<&'a str>)
    ensures
        match r {
            Some(n) => is_glob_pick(names@, prefix@, n),
            None => no_glob_match(names@, prefix@),
        },
{
    let mut best: Option<&'a str> = None;
    let mut i: usize = 0;
    while i < names.len()
        invariant
            i <= names@.len(),
            match best {
                Some(n) => {
                    &&& exists|k: int| 0 <= k < i && names@[k] == n
                    &&& starts_with(n@, prefix@)
                    &&& forall|j: int|
                        0 <= j < i && starts_with((#[trigger] names@[j])@, prefix@) ==> lex(
                            names@[j].spec_bytes(),
                            n.spec_bytes(),
                        ) != Order3::Greater
                },
                None => forall|j: int| 0 <= j < i ==> !starts_with((#[trigger] names@[j])@, prefix@),
            },
        decreases names@.len() - i,
    {
        let cand = names[i];
        if str_starts_with(cand, prefix) {
            match best {
                None => {
                    proof {
                        lemma_lex_same(cand.spec_bytes());
                    }
                    best = Some(cand);
                },
                Some(b) => {
                    let o = str_order(b, cand);
                    if o != Order3::Greater {
                        proof {
                            lemma_lex_same(cand.spec_bytes());
                            assert forall|j: int|
                                0 <= j < i + 1 && starts_with(
                                    (#[trigger] names@[j])@,
                                    prefix@,
                                ) implies lex(names@[j].spec_bytes(), cand.spec_bytes())
                                != Order3::Greater by {
                                if j < i {
                                    lemma_lex_trans(
                                        names@[j].spec_bytes(),
                                        b.spec_bytes(),
                                        cand.spec_bytes(),
                                    );
                                }
                            }
                        }
                        best = Some(cand);
                    } else {
                        proof {
                            lemma_lex_flip(b.spec_bytes(), cand.spec_bytes());
                        }
                    }
                },
            }
        }
        i += 1;
    }
    best
}

/// A volume label escaped for a kernel `CDLABEL=` token: each space becomes
/// `\x20`.
pub open spec fn escaped_label(label: Seq<char>) -> Seq<char> {
    replace_all(label, seq![' '], seq!['\\', 'x', '2', '0'])
}

/// What `render_cmdline` returns: `{iso}` replaced by the ISO path, then
/// `{label}` replaced by the escaped label.
pub open spec fn rendered_cmdline(template: Seq<char>, iso: Seq<char>, label: Seq<char>) -> Seq<
    char,
> {
    replace_all(
        replace_all(template, seq!['{', 'i', 's', 'o', '}'], iso),
        seq!['{', 'l', 'a', 'b', 'e', 'l', '}'],
        escaped_label(label),
    )
}

/// Escape a volume label for a kernel `CDLABEL=`/`archisolabel=` token.
pub fn escape_label(label: &str) -> (r: String)
    ensures
        r@ == escaped_label(label@),
{
    proof {
        reveal_strlit(" ");
        reveal_strlit("\\x20");
        assert(" "@ =~= seq![' ']);
        assert("\\x20"@ =~= seq!['\\', 'x', '2', '0']);
    }
    replace_str(label, " ", "\\x20")
}

/// Render a recipe command-line template: `{iso}` becomes the ISO file
/// path, then `{label}` the escaped volume label.
pub fn render_cmdline(template: &str, iso_path: &str, label: &str) -> (r: String)
    ensures
        r@ == rendered_cmdline(template@, iso_path@, label@),
{
    proof {
        reveal_strlit("{iso}");
        reveal_strlit("{label}");
        assert("{iso}"@ =~= seq!['{', 'i', 's', 'o', '}']);
        assert("{label}"@ =~= seq!['{', 'l', 'a', 'b', 'e', 'l', '}']);
    }
    let step = replace_str(template, "{iso}", iso_path);
    let esc = escape_label(label);
    replace_str(step.as_str(), "{label}", esc.as_str())
}

} // verus!
