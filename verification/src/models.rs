//! The data the cleaner works on: disk figures, cleanup entries, installed
//! applications and the events that the scanners and the deleter report.
use vstd::prelude::*;

use crate::text::owned;

verus! {

/// Total and available bytes of a volume.
#[derive(Clone, Copy, PartialEq, Eq, Structural, Debug)]
pub struct DiskSpace {
    pub total_bytes: u64,
    pub available_bytes: u64,
}

/// How sure the orphan detector is that a directory belongs to no installed app.
#[derive(Clone, Copy, Debug, PartialEq, Eq, Structural)]
pub enum OrphanConfidence {
    High,
    Medium,
    Low,
}

/// One item that can be selected for removal.
#[derive(Clone, Debug)]
pub struct CleanupEntry {
    pub id: usize,
    pub section: String,
    pub label: String,
    pub path: String,
    pub size_bytes: u64,
    pub selected: bool,
    pub orphan_confidence: Option<OrphanConfidence>,
}

/// An application bundle found on disk.
#[derive(Clone, Debug)]
pub struct InstalledApp {
    pub id: usize,
    pub name: String,
    pub bundle_id: String,
    pub app_path: String,
    pub size_bytes: u64,
}

/// What the system scan reports, in order.
pub enum ScanEvent {
    Entry(CleanupEntry),
    Warning(String),
    Progress(String),
    Done,
}

/// What the installed-application scan reports, in order.
pub enum AppScanEvent {
    Entry(InstalledApp),
    Progress(()),
    Done,
}

/// What the deleter reports for each item, then `Done`.
pub enum DeletionResult {
    Deleted(String, usize),
    Error(String),
    DryRunPreview(String),
    Done,
}

/// The views that the sidebar switches between.
#[derive(Clone, Copy, PartialEq, Eq, Structural, Debug)]
pub enum AppView {
    Dashboard,
    Cleanup,
    Applications,
    LargeFiles,
}

/// The id of the first entry that an application uninstall lists; scan
/// entries count up from zero and stay below it.
pub const APP_TRACE_ID_OFFSET: usize = 1_000_000;

impl CleanupEntry {
    /// A copy of this entry, field by field.
    pub fn duplicate(&self) -> (r: CleanupEntry)
        ensures
            r == *self,
    {
        CleanupEntry {
            id: self.id,
            section: self.section.clone(),
            label: self.label.clone(),
            path: self.path.clone(),
            size_bytes: self.size_bytes,
            selected: self.selected,
            orphan_confidence: self.orphan_confidence,
        }
    }
}

impl InstalledApp {
    /// A copy of this application record, field by field.
    pub fn duplicate(&self) -> (r: InstalledApp)
        ensures
            r == *self,
    {
        InstalledApp {
            id: self.id,
            name: self.name.clone(),
            bundle_id: self.bundle_id.clone(),
            app_path: self.app_path.clone(),
            size_bytes: self.size_bytes,
        }
    }
}

/// A new, unselected entry that no orphan detection produced.
pub fn entry(id: usize, section: &str, label: &str, path: &str, size_bytes: u64) -> (r:
    CleanupEntry)
    ensures
        r.id == id,
        r.section@ == section@,
        r.label@ == label@,
        r.path@ == path@,
        r.size_bytes == size_bytes,
        !r.selected,
        r.orphan_confidence is None,
{
    CleanupEntry {
        id,
        section: owned(section),
        label: owned(label),
        path: owned(path),
        size_bytes,
        selected: false,
        orphan_confidence: None,
    }
}

/// A new, unselected entry for orphaned application data, with the
/// detector's confidence.
pub fn orphan_entry(
    id: usize,
    section: &str,
    label: &str,
    path: &str,
    size_bytes: u64,
    confidence: OrphanConfidence,
) -> (r: CleanupEntry)
    ensures
        r.id == id,
        r.section@ == section@,
        r.label@ == label@,
        r.path@ == path@,
        r.size_bytes == size_bytes,
        !r.selected,
        r.orphan_confidence == Some(confidence),
{
    CleanupEntry {
        id,
        section: owned(section),
        label: owned(label),
        path: owned(path),
        size_bytes,
        selected: false,
        orphan_confidence: Some(confidence),
    }
}

} // verus!
