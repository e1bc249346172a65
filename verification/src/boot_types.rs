//! Boot-entry and preflight data types shared by discovery, the menus and
//! the boot layer.
use vstd::prelude::*;

use crate::bls_parse::{opt_view, strings_view};

verus! {

/// Where the ISO9660 bytes of an ISO entry come from.
#[derive(Debug, Clone)]
pub enum IsoSource {
    /// An `.iso` file on the entry's source volume.
    File { iso_path: String },
    /// A physical optical drive: `handle` is the firmware's opaque token for
    /// its block device, `label` the volume label of its ISO9660 image.
    Optical { handle: usize, label: String },
}

/// What a `BootEntry` boots.
#[derive(Debug, Clone)]
pub enum EntryKind {
    Chainload { path: String },
    Uki { path: String, options: String },
    LinuxLegacy { kernel_path: String, initrd_paths: Vec<String>, options: String },
    Iso { source: IsoSource },
}

/// Menu icon hint.
#[derive(Debug, Clone, Copy, PartialEq, Eq, Structural)]
pub enum Icon {
    Windows,
    Linux,
    Efi,
    Recovery,
    Network,
    Tools,
}

/// Severity of one preflight check.
#[derive(Debug, Clone, Copy, PartialEq, Eq, Structural)]
pub enum Severity {
    Pass,
    Warning,
    Error,
}

/// Aggregate preflight status.
#[derive(Debug, Clone, Copy, PartialEq, Eq, Structural)]
pub enum PreflightStatus {
    Pass,
    Warning,
    Error,
}

/// One preflight check.
#[derive(Debug, Clone)]
pub struct CheckResult {
    pub severity: Severity,
    pub message: String,
}

/// Aggregate preflight result of a boot entry; advisory only.
#[derive(Debug, Clone)]
pub struct PreflightResult {
    pub status: PreflightStatus,
    pub checks: Vec<CheckResult>,
}

/// A bootable entry: what the menu shows and the boot layer consumes.
#[derive(Debug, Clone)]
pub struct BootEntry {
    pub id: String,
    pub name: String,
    pub kind: EntryKind,
    pub icon: Icon,
    /// BLS source filename, for boot counting.
    pub bls_filename: Option<String>,
    /// Preflight result, once run.
    pub preflight: Option<PreflightResult>,
    /// Index of the volume the entry came from.
    pub source_volume_index: usize,
    /// Backend tag of that volume.
    pub source_backend_tag: &'static str,
}

pub enum IsoSourceView {
    File(Seq<char>),
    Optical(usize, Seq<char>),
}

pub enum EntryKindView {
    Chainload(Seq<char>),
    Uki(Seq<char>, Seq<char>),
    LinuxLegacy(Seq<char>, Seq<Seq<char>>, Seq<char>),
    Iso(IsoSourceView),
}

pub open spec fn kind_view(k: EntryKind) -> EntryKindView {
    match k {
        EntryKind::Chainload { path } => EntryKindView::Chainload(path@),
        EntryKind::Uki { path, options } => EntryKindView::Uki(path@, options@),
        EntryKind::LinuxLegacy { kernel_path, initrd_paths, options } => EntryKindView::LinuxLegacy(
            kernel_path@,
            strings_view(initrd_paths@),
            options@,
        ),
        EntryKind::Iso { source } => EntryKindView::Iso(
            match source {
                IsoSource::File { iso_path } => IsoSourceView::File(iso_path@),
                IsoSource::Optical { handle, label } => IsoSourceView::Optical(handle, label@),
            },
        ),
    }
}

/// A boot entry as plain values (its preflight result aside).
pub struct BootEntryView {
    pub id: Seq<char>,
    pub name: Seq<char>,
    pub kind: EntryKindView,
    pub icon: Icon,
    pub bls_filename: Option<Seq<char>>,
    pub source_volume_index: usize,
    pub source_backend_tag: Seq<char>,
}

impl View for BootEntry {
    type V = BootEntryView;

    open spec fn view(&self) -> BootEntryView {
        BootEntryView {
            id: self.id@,
            name: self.name@,
            kind: kind_view(self.kind),
            icon: self.icon,
            bls_filename: opt_view(self.bls_filename),
            source_volume_index: self.source_volume_index,
            source_backend_tag: self.source_backend_tag@,
        }
    }
}

/// The aggregate status of a list of check severities: `Error` if any is
/// an error, else `Warning` if any is a warning, else `Pass`.
/// The views of a vector of entries.
pub open spec fn entry_views(v: Seq<BootEntry>) -> Seq<BootEntryView> {
    v.map_values(|e: BootEntry| e@)
}

pub open spec fn aggregate(sev: Seq<Severity>) -> PreflightStatus {
    if exists|i: int| 0 <= i < sev.len() && sev[i] == Severity::Error {
        PreflightStatus::Error
    } else if exists|i: int| 0 <= i < sev.len() && sev[i] == Severity::Warning {
        PreflightStatus::Warning
    } else {
        PreflightStatus::Pass
    }
}

pub open spec fn severities(checks: Seq<CheckResult>) -> Seq<Severity> {
    checks.map_values(|c: CheckResult| c.severity)
}

/// Index of the first check that is not `Pass`, or `-1`.
pub open spec fn first_issue_index(sev: Seq<Severity>, i: int) -> int
    decreases sev.len() - i,
{
    if i < 0 || i >= sev.len() {
        -1
    } else if sev[i] != Severity::Pass {
        i
    } else {
        first_issue_index(sev, i + 1)
    }
}

impl PreflightResult {
    /// Aggregate a list of checks: the worst severity decides the status.
    pub fn from_checks(checks: Vec<CheckResult>) -> (r: PreflightResult)
        ensures
            r.status == aggregate(severities(checks@)),
            r.checks@ == checks@,
    {
        let ghost sev = severities(checks@);
        let mut any_error = false;
        let mut any_warning = false;
        let mut i: usize = 0;
        while i < checks.len()
            invariant
                i <= checks@.len(),
                sev == severities(checks@),
                any_error == exists|j: int| 0 <= j < i && sev[j] == Severity::Error,
                any_warning == exists|j: int| 0 <= j < i && sev[j] == Severity::Warning,
            decreases checks@.len() - i,
        {
            assert(sev[i as int] == checks@[i as int].severity);
            match checks[i].severity {
                Severity::Error => {
                    any_error = true;
                },
                Severity::Warning => {
                    any_warning = true;
                },
                Severity::Pass => {},
            }
            i += 1;
        }
        let status = if any_error {
            PreflightStatus::Error
        } else if any_warning {
            PreflightStatus::Warning
        } else {
            PreflightStatus::Pass
        };
        PreflightResult { status, checks }
    }

    /// The first check that is not `Pass`.
    pub fn first_issue(&self) -> (r: Option<&CheckResult>)
        ensures
            match r {
                Some(c) => {
                    let k = first_issue_index(severities(self.checks@), 0);
                    k >= 0 && *c == self.checks@[k]
                },
                None => first_issue_index(severities(self.checks@), 0) == -1,
            },
    {
        let ghost sev = severities(self.checks@);
        let mut i: usize = 0;
        while i < self.checks.len()
            invariant
                i <= self.checks@.len(),
                sev == severities(self.checks@),
                first_issue_index(sev, 0) == first_issue_index(sev, i as int),
            decreases self.checks@.len() - i,
        {
            assert(sev[i as int] == self.checks@[i as int].severity);
            if self.checks[i].severity != Severity::Pass {
                return Some(&self.checks[i]);
            }
            i += 1;
        }
        None
    }
}

} // verus!
