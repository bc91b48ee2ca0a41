//! The cleaner's state between frames and how the scanners' and the
//! deleter's reports change it.
use vstd::prelude::*;

use crate::models::{AppScanEvent, AppView, CleanupEntry, DeletionResult, InstalledApp, ScanEvent};
use crate::panels::{has_app_id, ApplicationsPanel, DangerDialog, Sidebar, ToastMessage};
use crate::selection::EntryFilter;
use crate::text::{chars_of, owned, push_chars, push_str, string_from_chars};

verus! {

/// The characters of each string.
pub open spec fn views(v: Seq<String>) -> Seq<Seq<char>> {
    Seq::new(v.len(), |i: int| v[i]@)
}

/// `s` without the entries whose id is in `ids`, in order.
pub open spec fn without_ids(s: Seq<CleanupEntry>, ids: Seq<usize>) -> Seq<CleanupEntry>
    decreases s.len(),
{
    if s.len() == 0 {
        s
    } else if ids.contains(s.last().id) {
        without_ids(s.drop_last(), ids)
    } else {
        without_ids(s.drop_last(), ids).push(s.last())
    }
}

/// `s` without the applications whose bundle path is in `paths`, in order.
pub open spec fn without_paths(s: Seq<InstalledApp>, paths: Seq<Seq<char>>) -> Seq<InstalledApp>
    decreases s.len(),
{
    if s.len() == 0 {
        s
    } else if paths.contains(s.last().app_path@) {
        without_paths(s.drop_last(), paths)
    } else {
        without_paths(s.drop_last(), paths).push(s.last())
    }
}

/// The log line for one deleter report, if it has one.
pub open spec fn report_line(r: DeletionResult) -> Option<Seq<char>> {
    match r {
        DeletionResult::Deleted(path, _) => Some("✅ Deleted: "@ + path@),
        DeletionResult::Error(e) => Some("❌ "@ + e@),
        DeletionResult::DryRunPreview(msg) => Some(msg@),
        DeletionResult::Done => None,
    }
}

/// The log lines of a batch of deleter reports, in order.
pub open spec fn report_lines(rs: Seq<DeletionResult>) -> Seq<Seq<char>>
    decreases rs.len(),
{
    if rs.len() == 0 {
        Seq::empty()
    } else {
        match report_line(rs.last()) {
            Some(l) => report_lines(rs.drop_last()).push(l),
            None => report_lines(rs.drop_last()),
        }
    }
}

/// The ids that a batch of reports says were removed, in order.
pub open spec fn removed_ids(rs: Seq<DeletionResult>) -> Seq<usize>
    decreases rs.len(),
{
    if rs.len() == 0 {
        Seq::empty()
    } else {
        match rs.last() {
            DeletionResult::Deleted(_, id) => removed_ids(rs.drop_last()).push(id),
            _ => removed_ids(rs.drop_last()),
        }
    }
}

/// The non-empty paths that a batch of reports says were removed, in order.
pub open spec fn removed_paths(rs: Seq<DeletionResult>) -> Seq<Seq<char>>
    decreases rs.len(),
{
    if rs.len() == 0 {
        Seq::empty()
    } else {
        match rs.last() {
            DeletionResult::Deleted(p, _) => if p@.len() > 0 {
                removed_paths(rs.drop_last()).push(p@)
            } else {
                removed_paths(rs.drop_last())
            },
            _ => removed_paths(rs.drop_last()),
        }
    }
}

/// Some report of the batch is an error.
pub open spec fn reports_error(rs: Seq<DeletionResult>) -> bool {
    exists|i: int| 0 <= i < rs.len() && (#[trigger] rs[i]) is Error
}

/// Some report of the batch opens the log: an error or a dry-run preview.
pub open spec fn reports_shown(rs: Seq<DeletionResult>) -> bool {
    exists|i: int| 0 <= i < rs.len() && ((#[trigger] rs[i]) is Error || rs[i] is DryRunPreview)
}

/// Some report of the batch says the deleter finished.
pub open spec fn reports_done(rs: Seq<DeletionResult>) -> bool {
    exists|i: int| 0 <= i < rs.len() && (#[trigger] rs[i]) is Done
}

/// The notice shown when a removal finishes.
pub open spec fn finish_notice(had_error: bool) -> Seq<char> {
    if had_error {
        "Cleanup finished with some errors — check the log."@
    } else {
        "Cleanup complete!"@
    }
}

/// What the cleaner keeps between frames: the found entries, the progress of
/// the scan and of a removal, the log, and the state of the views.
pub struct CleanupSession {
    pub entries: Vec<CleanupEntry>,
    pub scanning: bool,
    pub scan_progress: String,
    pub done: bool,
    pub deleting: bool,
    pub dry_run: bool,
    pub log_messages: Vec<String>,
    pub show_log: bool,
    pub toast: Option<ToastMessage>,
    pub show_sidebar: bool,
    pub sidebar: Sidebar,
    pub filter: EntryFilter,
    pub applications_panel: ApplicationsPanel,
    pub confirm: DangerDialog,
}

fn remove_ids(s: &Vec<CleanupEntry>, ids: &Vec<usize>) -> (r: Vec<CleanupEntry>)
    ensures
        r@ == without_ids(s@, ids@),
{
    let mut out: Vec<CleanupEntry> = Vec::new();
    let mut i: usize = 0;
    while i < s.len()
        invariant
            0 <= i <= s.len(),
            out@ == without_ids(s@.subrange(0, i as int), ids@),
        decreases s.len() - i,
    {
        assert(s@.subrange(0, i + 1).drop_last() == s@.subrange(0, i as int));
        let id = s[i].id;
        let mut hit = false;
        let mut k: usize = 0;
        while k < ids.len()
            invariant
                0 <= k <= ids.len(),
                hit == exists|m: int| 0 <= m < k && ids@[m] == id,
            decreases ids.len() - k,
        {
            if ids[k] == id {
                hit = true;
            }
            k = k + 1;
        }
        if !hit {
            out.push(s[i].duplicate());
        }
        i = i + 1;
    }
    assert(s@.subrange(0, s.len() as int) == s@);
    out
}

fn remove_paths(s: &Vec<InstalledApp>, paths: &Vec<String>) -> (r: Vec<InstalledApp>)
    ensures
        r@ == without_paths(s@, views(paths@)),
{
    let mut out: Vec<InstalledApp> = Vec::new();
    let mut i: usize = 0;
    while i < s.len()
        invariant
            0 <= i <= s.len(),
            out@ == without_paths(s@.subrange(0, i as int), views(paths@)),
        decreases s.len() - i,
    {
        assert(s@.subrange(0, i + 1).drop_last() == s@.subrange(0, i as int));
        let mut hit = false;
        let mut k: usize = 0;
        while k < paths.len()
            invariant
                0 <= k <= paths.len(),
                i < s.len(),
                hit == exists|m: int| 0 <= m < k && views(paths@)[m] == s@[i as int].app_path@,
            decreases paths.len() - k,
        {
            assert(views(paths@)[k as int] == paths@[k as int]@);
            if paths[k] == s[i].app_path {
                hit = true;
            }
            k = k + 1;
        }
        proof {
            if hit {
                let m = choose|m: int| 0 <= m < k && views(paths@)[m] == s@[i as int].app_path@;
                assert(views(paths@).contains(s@[i as int].app_path@));
            }
        }
        if !hit {
            out.push(s[i].duplicate());
        }
        i = i + 1;
    }
    assert(s@.subrange(0, s.len() as int) == s@);
    out
}

fn line_with(prefix: &str, text: &String) -> (r: String)
    ensures
        r@ == prefix@ + text@,
{
    let mut out: Vec<char> = Vec::new();
    push_str(&mut out, prefix);
    push_chars(&mut out, &chars_of(text.as_str()));
    string_from_chars(&out)
}

impl CleanupSession {
    /// The state before the first scan: nothing found, nothing running,
    /// the dashboard in front and the sidebar shown.
    pub fn new() -> (r: CleanupSession)
        ensures
            r.entries@ == Seq::<CleanupEntry>::empty(),
            !r.scanning && !r.done && !r.deleting && !r.dry_run && !r.show_log,
            r.scan_progress@ == Seq::<char>::empty(),
            r.log_messages@ == Seq::<String>::empty(),
            r.toast is None,
            r.show_sidebar,
            !r.confirm.show,
            r.confirm.items@ == Seq::<CleanupEntry>::empty(),
            r.applications_panel.installed() == Seq::<InstalledApp>::empty(),
            r.applications_panel.app_traces@ == Seq::<CleanupEntry>::empty(),
            r.applications_panel.target() is None,
            !r.applications_panel.scanning,
            r.applications_panel.target_listed(),
            r.sidebar.selected_view == AppView::Dashboard,
            r.filter.search@ == Seq::<char>::empty(),
            r.filter.min_bytes == 0,
    {
        CleanupSession {
            entries: Vec::new(),
            scanning: false,
            scan_progress: String::new(),
            done: false,
            deleting: false,
            dry_run: false,
            log_messages: Vec::new(),
            show_log: false,
            toast: None,
            show_sidebar: true,
            sidebar: Sidebar::new(),
            filter: EntryFilter::new(),
            applications_panel: ApplicationsPanel::new(),
            confirm: DangerDialog::new(),
        }
    }

    /// Prepares a new scan: forgets what was found and logged and the notice,
    /// and marks the scan as running.
    pub fn restart(&mut self)
        ensures
            final(self).entries@ == Seq::<CleanupEntry>::empty(),
            final(self).scanning,
            !final(self).done,
            !final(self).deleting,
            final(self).scan_progress@ == "Starting scan..."@,
            final(self).log_messages@ == Seq::<String>::empty(),
            final(self).toast is None,
            final(self).dry_run == old(self).dry_run,
            final(self).show_log == old(self).show_log,
            final(self).show_sidebar == old(self).show_sidebar,
            final(self).sidebar == old(self).sidebar,
            final(self).filter == old(self).filter,
            final(self).applications_panel == old(self).applications_panel,
            final(self).confirm == old(self).confirm,
    {
        self.entries = Vec::new();
        self.scanning = true;
        self.done = false;
        self.scan_progress = owned("Starting scan...");
        self.deleting = false;
        self.log_messages = Vec::new();
        self.toast = None;
    }

    /// Takes in one report of the system scan; `true` when it says the scan
    /// is complete.
    pub fn apply_scan_event(&mut self, event: ScanEvent) -> (finished: bool)
        ensures
            finished == (event is Done),
            match event {
                ScanEvent::Progress(m) => final(self).scan_progress == m && final(self).entries
                    == old(self).entries && final(self).log_messages == old(self).log_messages
                    && final(self).scanning == old(self).scanning && final(self).done == old(
                    self,
                ).done,
                ScanEvent::Entry(e) => final(self).entries@ == old(self).entries@.push(e)
                    && final(self).scan_progress == old(self).scan_progress
                    && final(self).log_messages == old(self).log_messages
                    && final(self).scanning == old(self).scanning && final(self).done == old(
                    self,
                ).done,
                ScanEvent::Warning(w) => views(final(self).log_messages@) == views(
                    old(self).log_messages@,
                ).push("⚠️  "@ + w@) && final(self).entries == old(self).entries
                    && final(self).scan_progress == old(self).scan_progress
                    && final(self).scanning == old(self).scanning && final(self).done == old(
                    self,
                ).done,
                ScanEvent::Done => !final(self).scanning && final(self).done
                    && final(self).scan_progress@ == "Scan complete."@ && final(self).entries
                    == old(self).entries && final(self).log_messages == old(self).log_messages,
            },
            final(self).deleting == old(self).deleting,
            final(self).show_log == old(self).show_log,
            final(self).dry_run == old(self).dry_run,
            final(self).toast == old(self).toast,
            final(self).show_sidebar == old(self).show_sidebar,
            final(self).sidebar == old(self).sidebar,
            final(self).filter == old(self).filter,
            final(self).applications_panel == old(self).applications_panel,
            final(self).confirm == old(self).confirm,
    {
        match event {
            ScanEvent::Progress(m) => {
                self.scan_progress = m;
                false
            },
            ScanEvent::Entry(e) => {
                self.entries.push(e);
                false
            },
            ScanEvent::Warning(w) => {
                let line = line_with("⚠️  ", &w);
                let ghost before = self.log_messages@;
                self.log_messages.push(line);
                assert(views(self.log_messages@) =~= views(before).push("⚠️  "@ + w@));
                false
            },
            ScanEvent::Done => {
                self.scanning = false;
                self.done = true;
                self.scan_progress = owned("Scan complete.");
                true
            },
        }
    }

    /// Takes in one report of the application scan.
    pub fn apply_app_scan_event(&mut self, event: AppScanEvent)
        ensures
            match event {
                AppScanEvent::Entry(a) => final(self).applications_panel.installed() == old(
                    self,
                ).applications_panel.installed().push(a)
                    && final(self).applications_panel.scanning == old(
                    self,
                ).applications_panel.scanning,
                AppScanEvent::Progress(_) => final(self).applications_panel.installed() == old(
                    self,
                ).applications_panel.installed()
                    && final(self).applications_panel.scanning == old(
                    self,
                ).applications_panel.scanning,
                AppScanEvent::Done => final(self).applications_panel.installed() == old(
                    self,
                ).applications_panel.installed() && !final(self).applications_panel.scanning,
            },
            final(self).applications_panel.app_traces == old(self).applications_panel.app_traces,
            final(self).applications_panel.target() == old(
                self,
            ).applications_panel.target(),
            final(self).entries == old(self).entries,
            old(self).applications_panel.target_listed()
                ==> final(self).applications_panel.target_listed(),
    {
        match event {
            AppScanEvent::Progress(_) => {},
            AppScanEvent::Entry(a) => {
                self.applications_panel.listing.add(a);
            },
            AppScanEvent::Done => {
                self.applications_panel.scanning = false;
            },
        }
    }

    /// Shows a notice.
    pub fn set_toast(&mut self, text: &str, is_error: bool)
        ensures
            final(self).toast matches Some(t) && t.text@ == text@ && t.is_error == is_error,
            final(self).entries == old(self).entries,
    {
        self.toast = Some(ToastMessage::new(text, is_error));
    }

    /// Takes in the deleter's reports that arrived since the last frame:
    /// logs them, drops the removed entries, leftovers and applications,
    /// forgets an uninstall target that is gone, and, once the deleter says it
    /// is done, ends the removal with a notice. Returns whether it is done.
    pub fn apply_deletion_results(&mut self, results: Vec<DeletionResult>) -> (done: bool)
        ensures
            done == reports_done(results@),
            views(final(self).log_messages@) == views(old(self).log_messages@) + report_lines(
                results@,
            ),
            final(self).show_log == (old(self).show_log || reports_shown(results@)),
            final(self).entries@ == without_ids(old(self).entries@, removed_ids(results@)),
            forall|k: int, i: int|
                0 <= k < results.len() && 0 <= i < final(self).entries.len() ==> match #[trigger] results@[k] {
                    DeletionResult::Deleted(_, id) => (#[trigger] final(self).entries@[i]).id != id,
                    _ => true,
                },
            final(self).applications_panel.installed() == without_paths(
                old(self).applications_panel.installed(),
                removed_paths(results@),
            ),
            ({
                let traces = without_ids(
                    old(self).applications_panel.app_traces@,
                    removed_ids(results@),
                );
                let target = old(self).applications_panel.target();
                if removed_paths(results@).len() > 0 && target is Some && !has_app_id(
                    final(self).applications_panel.installed(),
                    target->0,
                ) {
                    final(self).applications_panel.target() is None
                        && final(self).applications_panel.app_traces@ == Seq::<
                        CleanupEntry,
                    >::empty()
                } else {
                    final(self).applications_panel.target() == target
                        && final(self).applications_panel.app_traces@ == traces
                }
            }),
            done ==> !final(self).deleting && (final(self).toast matches Some(t) && t.text@
                == finish_notice(reports_error(results@)) && t.is_error == reports_error(
                results@,
            )),
            !done ==> final(self).deleting == old(self).deleting && final(self).toast == old(
                self,
            ).toast,
            final(self).scanning == old(self).scanning,
            final(self).done == old(self).done,
            final(self).dry_run == old(self).dry_run,
            final(self).show_sidebar == old(self).show_sidebar,
            final(self).sidebar == old(self).sidebar,
            final(self).filter == old(self).filter,
            final(self).confirm == old(self).confirm,
            old(self).applications_panel.target_listed()
                ==> final(self).applications_panel.target_listed(),
    {
        let mut finished = false;
        let mut ids: Vec<usize> = Vec::new();
        let mut paths: Vec<String> = Vec::new();
        let mut had_error = false;
        let ghost old_log = views(self.log_messages@);
        let ghost old_show = self.show_log;
        let mut i: usize = 0;
        while i < results.len()
            invariant
                0 <= i <= results.len(),
                views(self.log_messages@) == old_log + report_lines(results@.subrange(0, i as int)),
                ids@ == removed_ids(results@.subrange(0, i as int)),
                views(paths@) == removed_paths(results@.subrange(0, i as int)),
                had_error == reports_error(results@.subrange(0, i as int)),
                finished == reports_done(results@.subrange(0, i as int)),
                self.show_log == (old_show || reports_shown(results@.subrange(0, i as int))),
                self.entries == old(self).entries,
                self.applications_panel == old(self).applications_panel,
                self.deleting == old(self).deleting,
                self.toast == old(self).toast,
                self.scanning == old(self).scanning,
                self.done == old(self).done,
                self.dry_run == old(self).dry_run,
                self.show_sidebar == old(self).show_sidebar,
                self.sidebar == old(self).sidebar,
                self.filter == old(self).filter,
                self.confirm == old(self).confirm,
            decreases results.len() - i,
        {
            let ghost pre = results@.subrange(0, i as int);
            let ghost nxt = results@.subrange(0, i + 1);
            assert(nxt.drop_last() == pre);
            assert(nxt.last() == results@[i as int]);
            let ghost before_log = self.log_messages@;
            let ghost before_paths = paths@;
            match &results[i] {
                DeletionResult::Deleted(path, id) => {
                    self.log_messages.push(line_with("✅ Deleted: ", path));
                    ids.push(*id);
                    if !path.as_str().is_empty() {
                        paths.push(path.clone());
                        assert(views(paths@) =~= views(before_paths).push(path@));
                    }
                },
                DeletionResult::Error(e) => {
                    self.log_messages.push(line_with("❌ ", e));
                    self.show_log = true;
                    had_error = true;
                },
                DeletionResult::DryRunPreview(msg) => {
                    self.log_messages.push(msg.clone());
                    self.show_log = true;
                },
                DeletionResult::Done => {
                    finished = true;
                },
            }
            proof {
                assert(views(self.log_messages@) =~= old_log + report_lines(nxt)) by {
                    if report_line(nxt.last()) is Some {
                        assert(views(self.log_messages@) =~= views(before_log).push(
                            report_line(nxt.last())->0,
                        ));
                    } else {
                        assert(self.log_messages@ == before_log);
                    }
                }
                assert(reports_error(nxt) == (reports_error(pre) || nxt.last() is Error)) by {
                    if reports_error(nxt) {
                        let w = choose|w: int| 0 <= w < nxt.len() && (#[trigger] nxt[w]) is Error;
                        if w < pre.len() {
                            assert(pre[w] == nxt[w]);
                        }
                    }
                    if reports_error(pre) {
                        let w = choose|w: int| 0 <= w < pre.len() && (#[trigger] pre[w]) is Error;
                        assert(pre[w] == nxt[w]);
                    }
                }
                assert(reports_done(nxt) == (reports_done(pre) || nxt.last() is Done)) by {
                    if reports_done(nxt) {
                        let w = choose|w: int| 0 <= w < nxt.len() && (#[trigger] nxt[w]) is Done;
                        if w < pre.len() {
                            assert(pre[w] == nxt[w]);
                        }
                    }
                    if reports_done(pre) {
                        let w = choose|w: int| 0 <= w < pre.len() && (#[trigger] pre[w]) is Done;
                        assert(pre[w] == nxt[w]);
                    }
                }
                assert(reports_shown(nxt) == (reports_shown(pre) || nxt.last() is Error
                    || nxt.last() is DryRunPreview)) by {
                    if reports_shown(nxt) {
                        let w = choose|w: int|
                            0 <= w < nxt.len() && ((#[trigger] nxt[w]) is Error
                                || nxt[w] is DryRunPreview);
                        if w < pre.len() {
                            assert(pre[w] == nxt[w]);
                        }
                    }
                    if reports_shown(pre) {
                        let w = choose|w: int|
                            0 <= w < pre.len() && ((#[trigger] pre[w]) is Error
                                || pre[w] is DryRunPreview);
                        assert(pre[w] == nxt[w]);
                    }
                }
            }
            i = i + 1;
        }
        assert(results@.subrange(0, results.len() as int) == results@);
        let kept = remove_ids(&self.entries, &ids);
        self.entries = kept;
        let traces = remove_ids(&self.applications_panel.app_traces, &ids);
        self.applications_panel.app_traces = traces;
        if paths.len() > 0 {
            let apps = remove_paths(self.applications_panel.listing.listed(), &paths);
            if !self.applications_panel.listing.replace_apps(apps) {
                self.applications_panel.app_traces = Vec::new();
            }
        } else {
            proof {
                lemma_without_no_paths(self.applications_panel.installed(), views(paths@));
            }
        }
        if finished {
            self.deleting = false;
            if had_error {
                self.toast = Some(
                    ToastMessage::new("Cleanup finished with some errors — check the log.", true),
                );
            } else {
                self.toast = Some(ToastMessage::new("Cleanup complete!", false));
            }
        }
        proof {
            law_deleted_reports_drop_their_entries(old(self).entries@, results@);
        }
        finished
    }
}

proof fn lemma_without_no_paths(s: Seq<InstalledApp>, paths: Seq<Seq<char>>)
    requires
        paths.len() == 0,
    ensures
        without_paths(s, paths) == s,
    decreases s.len(),
{
    if s.len() > 0 {
        lemma_without_no_paths(s.drop_last(), paths);
        assert(s.drop_last().push(s.last()) =~= s);
    }
}

/// An entry stays after a removal exactly when its id was not reported
/// removed; the survivors keep their order.
pub proof fn law_removed_entries_gone(s: Seq<CleanupEntry>, ids: Seq<usize>)
    ensures
        forall|k: int|
            0 <= k < without_ids(s, ids).len() ==> !ids.contains(
                (#[trigger] without_ids(s, ids)[k]).id,
            ),
        forall|e: CleanupEntry| s.contains(e) && !ids.contains(e.id) ==> #[trigger] without_ids(
            s,
            ids,
        ).contains(e),
        forall|e: CleanupEntry| #[trigger] without_ids(s, ids).contains(e) ==> s.contains(e),
    decreases s.len(),
{
    if s.len() > 0 {
        let t = s.drop_last();
        law_removed_entries_gone(t, ids);
        let w = without_ids(s, ids);
        let wt = without_ids(t, ids);
        assert forall|e: CleanupEntry| s.contains(e) && !ids.contains(e.id) implies #[trigger] w.contains(e) by {
            let j = choose|j: int| 0 <= j < s.len() && s[j] == e;
            if j < s.len() - 1 {
                assert(t[j] == e);
                assert(t.contains(e));
                assert(wt.contains(e));
                let m = choose|m: int| 0 <= m < wt.len() && wt[m] == e;
                if !ids.contains(s.last().id) {
                    assert(w[m] == e);
                }
            } else {
                assert(w[w.len() - 1] == e);
            }
        }
        assert forall|e: CleanupEntry| #[trigger] w.contains(e) implies s.contains(e) by {
            let m = choose|m: int| 0 <= m < w.len() && w[m] == e;
            if ids.contains(s.last().id) || m < wt.len() {
                assert(wt[m] == e);
                assert(wt.contains(e));
                let j = choose|j: int| 0 <= j < t.len() && t[j] == e;
                assert(s[j] == e);
            } else {
                assert(s[s.len() - 1] == e);
            }
        }
        assert forall|k: int| 0 <= k < w.len() implies !ids.contains((#[trigger] w[k]).id) by {
            if k < wt.len() {
                assert(w[k] == wt[k]);
            }
        }
    }
}

proof fn lemma_deleted_ids_removed(rs: Seq<DeletionResult>)
    ensures
        forall|k: int|
            0 <= k < rs.len() ==> match #[trigger] rs[k] {
                DeletionResult::Deleted(_, id) => removed_ids(rs).contains(id),
                _ => true,
            },
    decreases rs.len(),
{
    if rs.len() > 0 {
        let p = rs.drop_last();
        lemma_deleted_ids_removed(p);
        assert forall|k: int|
            0 <= k < rs.len() implies match #[trigger] rs[k] {
                DeletionResult::Deleted(_, id) => removed_ids(rs).contains(id),
                _ => true,
            } by {
            if k < p.len() {
                assert(rs[k] == p[k]);
                if let DeletionResult::Deleted(_, id) = rs[k] {
                    assert(removed_ids(p).contains(id));
                    let w = choose|w: int| 0 <= w < removed_ids(p).len() && removed_ids(p)[w] == id;
                    if let DeletionResult::Deleted(_, last) = rs.last() {
                        assert(removed_ids(rs) == removed_ids(p).push(last));
                        assert(removed_ids(rs)[w] == id);
                    } else {
                        assert(removed_ids(rs) == removed_ids(p));
                    }
                }
            } else {
                if let DeletionResult::Deleted(_, id) = rs[k] {
                    assert(removed_ids(rs) == removed_ids(p).push(id));
                    assert(removed_ids(rs)[removed_ids(p).len() as int] == id);
                }
            }
        }
    }
}

/// Every entry that a report says was deleted leaves the list, whether its
/// path is empty (the Docker prune) or not: the report's id is among the
/// removed ids, and no entry left has it.
pub proof fn law_deleted_reports_drop_their_entries(s: Seq<CleanupEntry>, rs: Seq<DeletionResult>)
    ensures
        forall|k: int|
            0 <= k < rs.len() ==> match #[trigger] rs[k] {
                DeletionResult::Deleted(_, id) => removed_ids(rs).contains(id),
                _ => true,
            },
        forall|k: int, i: int|
            0 <= k < rs.len() && 0 <= i < without_ids(s, removed_ids(rs)).len() ==> match #[trigger] rs[k] {
                DeletionResult::Deleted(_, id) => (#[trigger] without_ids(s, removed_ids(rs))[i]).id != id,
                _ => true,
            },
{
    lemma_deleted_ids_removed(rs);
    law_removed_entries_gone(s, removed_ids(rs));
    assert forall|k: int, i: int|
        0 <= k < rs.len() && 0 <= i < without_ids(s, removed_ids(rs)).len() implies match #[trigger] rs[k] {
            DeletionResult::Deleted(_, id) => (#[trigger] without_ids(s, removed_ids(rs))[i]).id != id,
            _ => true,
        } by {
        if let DeletionResult::Deleted(_, id) = rs[k] {
            assert(!removed_ids(rs).contains(without_ids(s, removed_ids(rs))[i].id));
        }
    }
}

} // verus!
