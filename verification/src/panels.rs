//! The state behind the views: the applications panel, the sidebar, the
//! confirmation dialog, the toast, and what the header and dashboard show.
use vstd::prelude::*;

use crate::grouping::{large_file_order, largest_first, order_largest_first, sizes_of, within};
use crate::models::{AppView, CleanupEntry, DiskSpace, InstalledApp};
use crate::selection::{
    count_selected, selected_bytes, selected_copies, selected_count, selected_entries,
    selected_size, set_all_selected, same_but_selection, strictly_increasing, total_bytes,
    total_size,
};
use crate::text::{
    chars_contain, chars_of, has_infix, lowercase, push_chars, push_str, string_from_chars,
    to_lower, owned,
};

verus! {

/// The sizes of the applications, position by position.
pub open spec fn app_sizes(s: Seq<InstalledApp>) -> Seq<u64> {
    Seq::new(s.len(), |i: int| s[i].size_bytes)
}

/// Whether an application passes the search box: the search text is empty
/// once lowercased, or the lowercased name contains it.
pub open spec fn app_passes(search: Seq<char>, app: InstalledApp) -> bool {
    lowercase(search).len() == 0 || has_infix(lowercase(app.name@), lowercase(search))
}

/// Some application in `apps` has id `id`.
pub open spec fn has_app_id(apps: Seq<InstalledApp>, id: usize) -> bool {
    exists|j: int| 0 <= j < apps.len() && (#[trigger] apps[j]).id == id
}

/// `t`, when it is some id, names an application of `apps`.
pub open spec fn names_listed(apps: Seq<InstalledApp>, t: Option<usize>) -> bool {
    match t {
        Some(id) => has_app_id(apps, id),
        None => true,
    }
}

/// The installed applications and the one chosen for removal, if any.
/// Whatever happens to it, the chosen one is among the listed ones.
pub struct AppListing {
    apps: Vec<InstalledApp>,
    target: Option<usize>,
}

impl AppListing {
    /// The chosen application, if any, is listed.
    #[verifier::type_invariant]
    spec fn chosen_is_listed(self) -> bool {
        names_listed(self.apps@, self.target)
    }

    /// The listed applications, in order.
    pub closed spec fn apps(self) -> Seq<InstalledApp> {
        self.apps@
    }

    /// The id of the application chosen for removal, if any.
    pub closed spec fn target(self) -> Option<usize> {
        self.target
    }

    /// No application listed or chosen.
    pub fn new() -> (r: AppListing)
        ensures
            r.apps() == Seq::<InstalledApp>::empty(),
            r.target() is None,
    {
        AppListing { apps: Vec::new(), target: None }
    }

    /// The listed applications.
    pub fn listed(&self) -> (r: &Vec<InstalledApp>)
        ensures
            r@ == self.apps(),
            names_listed(self.apps(), self.target()),
    {
        proof {
            use_type_invariant(self);
        }
        &self.apps
    }

    /// The application chosen for removal: always a listed one.
    pub fn chosen(&self) -> (r: Option<usize>)
        ensures
            r == self.target(),
            names_listed(self.apps(), r),
    {
        proof {
            use_type_invariant(self);
        }
        self.target
    }

    /// Whether an application with id `id` is listed.
    pub fn has_app(&self, id: usize) -> (r: bool)
        ensures
            r == has_app_id(self.apps(), id),
    {
        let mut i: usize = 0;
        while i < self.apps.len()
            invariant
                0 <= i <= self.apps.len(),
                forall|j: int| 0 <= j < i ==> (#[trigger] self.apps@[j]).id != id,
            decreases self.apps.len() - i,
        {
            if self.apps[i].id == id {
                assert(self.apps@[i as int].id == id);
                return true;
            }
            i = i + 1;
        }
        false
    }

    /// Lists one more application; the choice stays.
    pub fn add(&mut self, app: InstalledApp)
        ensures
            final(self).apps() == old(self).apps().push(app),
            final(self).target() == old(self).target(),
            names_listed(final(self).apps(), final(self).target()),
    {
        proof {
            use_type_invariant(&*self);
        }
        let ghost before = self.apps@;
        let target = self.target;
        self.target = None;
        let mut apps = Vec::new();
        std::mem::swap(&mut apps, &mut self.apps);
        apps.push(app);
        proof {
            if let Some(t) = target {
                let j = choose|j: int| 0 <= j < before.len() && (#[trigger] before[j]).id == t;
                assert(apps@[j] == before[j]);
            }
        }
        *self = AppListing { apps, target };
    }

    /// Chooses the listed application `id` for removal; true when it is
    /// listed, and otherwise nothing changes.
    pub fn pick_for_removal(&mut self, id: usize) -> (r: bool)
        ensures
            r == has_app_id(old(self).apps(), id),
            final(self).apps() == old(self).apps(),
            final(self).target() == if r { Some(id) } else { old(self).target() },
            names_listed(final(self).apps(), final(self).target()),
    {
        proof {
            use_type_invariant(&*self);
        }
        if self.has_app(id) {
            self.target = Some(id);
            true
        } else {
            false
        }
    }

    /// Replaces the listed applications by `apps`; the choice stays when its
    /// application is still listed, and is dropped otherwise. True when it stays.
    pub fn replace_apps(&mut self, apps: Vec<InstalledApp>) -> (kept: bool)
        ensures
            final(self).apps() == apps@,
            kept == names_listed(apps@, old(self).target()),
            final(self).target() == if kept { old(self).target() } else { None },
            names_listed(final(self).apps(), final(self).target()),
    {
        proof {
            use_type_invariant(&*self);
        }
        let target = self.target;
        *self = AppListing { apps, target: None };
        match target {
            Some(t) => {
                if self.has_app(t) {
                    self.target = Some(t);
                    true
                } else {
                    false
                }
            },
            None => true,
        }
    }
}

/// The uninstall view: installed applications, the search box, and the
/// leftovers found for the application chosen for removal.
pub struct ApplicationsPanel {
    pub app_search: String,
    pub listing: AppListing,
    pub app_traces: Vec<CleanupEntry>,
    pub scanning: bool,
}

impl ApplicationsPanel {
    /// The installed applications, in order.
    pub open spec fn installed(&self) -> Seq<InstalledApp> {
        self.listing.apps()
    }

    /// The id of the application chosen for removal, if any.
    pub open spec fn target(&self) -> Option<usize> {
        self.listing.target()
    }

    /// The uninstall target, when one is set, is one of the listed applications.
    pub open spec fn target_listed(&self) -> bool {
        names_listed(self.installed(), self.target())
    }

    /// An empty panel that is not scanning.
    pub fn new() -> (r: ApplicationsPanel)
        ensures
            r.app_search@ == Seq::<char>::empty(),
            r.installed() == Seq::<InstalledApp>::empty(),
            r.app_traces@ == Seq::<CleanupEntry>::empty(),
            r.target() is None,
            !r.scanning,
            r.target_listed(),
    {
        ApplicationsPanel {
            app_search: String::new(),
            listing: AppListing::new(),
            app_traces: Vec::new(),
            scanning: false,
        }
    }

    /// Forgets the applications and leftovers and marks a new scan as running.
    pub fn start_scan(&mut self)
        ensures
            final(self).app_search == old(self).app_search,
            final(self).installed() == Seq::<InstalledApp>::empty(),
            final(self).app_traces@ == Seq::<CleanupEntry>::empty(),
            final(self).target() is None,
            final(self).scanning,
            final(self).target_listed(),
    {
        self.listing = AppListing::new();
        self.scanning = true;
        self.app_traces = Vec::new();
    }

    /// The positions of the applications that pass the search box, largest first.
    pub fn visible_apps(&self) -> (r: Vec<usize>)
        ensures
            largest_first(app_sizes(self.installed()), r@),
            within(app_sizes(self.installed()), r@),
            forall|x: usize| #[trigger]
                r@.contains(x) <==> (x < self.installed().len() && app_passes(
                    self.app_search@,
                    self.installed()[x as int],
                )),
    {
        let apps = self.listing.listed();
        let q = to_lower(self.app_search.as_str());
        let qc = chars_of(q.as_str());
        let mut members: Vec<usize> = Vec::new();
        let mut keys: Vec<u64> = Vec::new();
        let mut i: usize = 0;
        while i < apps.len()
            invariant
                0 <= i <= apps.len(),
                apps@ == self.installed(),
                qc@ == lowercase(self.app_search@),
                keys@ == app_sizes(apps@).subrange(0, i as int),
                strictly_increasing(members@),
                forall|k: int| 0 <= k < members.len() ==> #[trigger] members@[k] < i,
                forall|x: usize| #[trigger]
                    members@.contains(x) <==> (x < i && app_passes(
                        self.app_search@,
                        apps@[x as int],
                    )),
            decreases apps.len() - i,
        {
            let name = to_lower(apps[i].name.as_str());
            let pass = qc.len() == 0 || chars_contain(&chars_of(name.as_str()), &qc);
            let ghost before = members@;
            if pass {
                members.push(i);
            }
            proof {
                assert forall|x: usize| #[trigger] members@.contains(x) <==> (x < i + 1
                    && app_passes(self.app_search@, apps@[x as int])) by {
                    if pass {
                        assert(members@ == before.push(i));
                        if members@.contains(x) {
                            let w = choose|w: int| 0 <= w < members.len() && members@[w] == x;
                            if w < before.len() {
                                assert(before[w] == x);
                            }
                        }
                        if before.contains(x) {
                            let w = choose|w: int| 0 <= w < before.len() && before[w] == x;
                            assert(members@[w] == x);
                        }
                        if x == i {
                            assert(members@[members.len() - 1] == i);
                        }
                    } else if x == i && members@.contains(x) {
                        let w = choose|w: int| 0 <= w < members.len() && members@[w] == x;
                    }
                }
            }
            keys.push(apps[i].size_bytes);
            i = i + 1;
            assert(app_sizes(apps@).subrange(0, i as int) == app_sizes(apps@).subrange(0, i - 1).push(
                apps@[i - 1].size_bytes,
            ));
        }
        assert(keys@ == app_sizes(apps@));
        order_largest_first(&keys, &members)
    }

    /// The position of the first application with id `id`.
    pub fn find_app(&self, id: usize) -> (r: Option<usize>)
        ensures
            r matches Some(i) ==> i < self.installed().len() && self.installed()[i as int].id == id
                && forall|j: int| 0 <= j < i ==> (#[trigger] self.installed()[j]).id != id,
            r is None ==> forall|j: int|
                0 <= j < self.installed().len() ==> (#[trigger] self.installed()[j]).id != id,
    {
        let apps = self.listing.listed();
        let mut i: usize = 0;
        while i < apps.len()
            invariant
                0 <= i <= apps.len(),
                apps@ == self.installed(),
                forall|j: int| 0 <= j < i ==> (#[trigger] apps@[j]).id != id,
            decreases apps.len() - i,
        {
            if apps[i].id == id {
                return Some(i);
            }
            i = i + 1;
        }
        None
    }

    /// Makes the listed application `id` the uninstall target and shows the
    /// leftovers found for it, all of them selected; nothing changes when no
    /// listed application has that id.
    pub fn show_traces(&mut self, id: usize, traces: Vec<CleanupEntry>)
        ensures
            has_app_id(old(self).installed(), id) ==> final(self).target() == Some(id)
                && final(self).app_traces.len() == traces.len() && forall|j: int|
                0 <= j < traces.len() ==> same_but_selection(
                    #[trigger] final(self).app_traces@[j],
                    traces@[j],
                ) && final(self).app_traces@[j].selected,
            !has_app_id(old(self).installed(), id) ==> final(self).target() == old(self).target()
                && final(self).app_traces == old(self).app_traces,
            final(self).installed() == old(self).installed(),
            final(self).app_search == old(self).app_search,
            final(self).scanning == old(self).scanning,
            final(self).target_listed(),
    {
        if self.listing.pick_for_removal(id) {
            let mut t = traces;
            set_all_selected(&mut t, true);
            self.app_traces = t;
        }
    }

    /// Whether the uninstall target is set (and so, always, still among the
    /// installed applications).
    pub fn target_present(&self) -> (r: bool)
        ensures
            r == match self.target() {
                Some(t) => has_app_id(self.installed(), t),
                None => false,
            },
            r == self.target() is Some,
    {
        self.listing.chosen().is_some()
    }

    /// The total size of the selected leftovers.
    pub fn traces_selected_bytes(&self) -> (r: u64)
        requires
            selected_size(self.app_traces@) <= u64::MAX,
        ensures
            r == selected_size(self.app_traces@),
    {
        selected_bytes(&self.app_traces)
    }

    /// Selects or deselects every leftover ("Select all" / "Deselect all").
    pub fn set_all_traces(&mut self, selected: bool)
        ensures
            final(self).app_traces.len() == old(self).app_traces.len(),
            forall|j: int|
                0 <= j < old(self).app_traces.len() ==> same_but_selection(
                    #[trigger] final(self).app_traces@[j],
                    old(self).app_traces@[j],
                ) && final(self).app_traces@[j].selected == selected,
            final(self).listing == old(self).listing,
            final(self).target_listed(),
    {
        proof {
            use_type_invariant(&self.listing);
        }
        let mut t = Vec::new();
        std::mem::swap(&mut t, &mut self.app_traces);
        set_all_selected(&mut t, selected);
        self.app_traces = t;
    }

    /// Whether any leftover is selected.
    pub fn any_trace_selected(&self) -> (r: bool)
        ensures
            r == (selected_count(self.app_traces@) > 0),
    {
        count_selected(&self.app_traces) > 0
    }

    /// Copies of the selected leftovers, in order, for the confirmation dialog.
    pub fn selected_traces(&self) -> (r: Vec<CleanupEntry>)
        ensures
            r@ == selected_entries(self.app_traces@),
    {
        selected_copies(&self.app_traces)
    }
}

/// The caption of the uninstall button.
pub fn uninstall_button_label(dry_run: bool) -> (r: &'static str)
    ensures
        dry_run ==> r@ == "🔍 Preview Uninstall (Dry Run)"@,
        !dry_run ==> r@ == "🗑️ Uninstall Completely"@,
{
    if dry_run {
        "🔍 Preview Uninstall (Dry Run)"
    } else {
        "🗑️ Uninstall Completely"
    }
}

/// The navigation list on the left.
pub struct Sidebar {
    pub selected_view: AppView,
}

impl Sidebar {
    /// A sidebar showing the dashboard.
    pub fn new() -> (r: Sidebar)
        ensures
            r.selected_view == AppView::Dashboard,
    {
        Sidebar { selected_view: AppView::Dashboard }
    }
}

/// The views of the sidebar, in order, with icon and caption.
pub fn nav_items() -> (r: Vec<(AppView, &'static str, &'static str)>)
    ensures
        r.len() == 4,
        r@[0].0 == AppView::Dashboard && r@[0].2@ == "Dashboard"@,
        r@[1].0 == AppView::Cleanup && r@[1].2@ == "Cleanup"@,
        r@[2].0 == AppView::Applications && r@[2].2@ == "Applications"@,
        r@[3].0 == AppView::LargeFiles && r@[3].2@ == "Large Files"@,
{
    vec![
        (AppView::Dashboard, "📊", "Dashboard"),
        (AppView::Cleanup, "🧹", "Cleanup"),
        (AppView::Applications, "📱", "Applications"),
        (AppView::LargeFiles, "🐘", "Large Files"),
    ]
}

/// Whether switching from `previous` to `current` starts the application
/// scan: the applications view was just opened, nothing is listed yet and no
/// scan runs.
pub fn opens_app_scan(previous: AppView, current: AppView, apps_listed: bool, scanning: bool) -> (r: bool)
    ensures
        r == (current != previous && current == AppView::Applications && !apps_listed
            && !scanning),
{
    current != previous && current == AppView::Applications && !apps_listed && !scanning
}

/// The confirmation shown before anything is removed.
pub struct DangerDialog {
    pub show: bool,
    pub items: Vec<CleanupEntry>,
    pub dry_run: bool,
    pub deleting: bool,
}

impl DangerDialog {
    /// A closed dialog with nothing listed.
    pub fn new() -> (r: DangerDialog)
        ensures
            !r.show,
            r.items@ == Seq::<CleanupEntry>::empty(),
            !r.dry_run,
            !r.deleting,
    {
        DangerDialog { show: false, items: Vec::new(), dry_run: false, deleting: false }
    }

    /// Opens the dialog on `items`.
    pub fn open(&mut self, items: Vec<CleanupEntry>, dry_run: bool)
        ensures
            final(self).show,
            final(self).items == items,
            final(self).dry_run == dry_run,
            final(self).deleting == old(self).deleting,
    {
        self.show = true;
        self.items = items;
        self.dry_run = dry_run;
    }

    /// The total size of the listed items.
    pub fn total_bytes(&self) -> (r: u64)
        requires
            total_size(self.items@) <= u64::MAX,
        ensures
            r == total_size(self.items@),
    {
        total_bytes(&self.items)
    }

    /// Closes the dialog without removing anything.
    pub fn cancel(&mut self)
        ensures
            !final(self).show,
            final(self).items@ == Seq::<CleanupEntry>::empty(),
            final(self).dry_run == old(self).dry_run,
            final(self).deleting == old(self).deleting,
    {
        self.show = false;
        self.items = Vec::new();
    }

    /// Confirms: hands over exactly the listed items and whether this is a
    /// dry run, closes the dialog, and marks a real removal as running.
    pub fn confirm(&mut self) -> (r: (Vec<CleanupEntry>, bool))
        ensures
            r.0 == old(self).items,
            r.1 == old(self).dry_run,
            !final(self).show,
            final(self).items@ == Seq::<CleanupEntry>::empty(),
            final(self).deleting == !old(self).dry_run,
            final(self).dry_run == old(self).dry_run,
    {
        let mut items = Vec::new();
        std::mem::swap(&mut items, &mut self.items);
        self.deleting = !self.dry_run;
        self.show = false;
        (items, self.dry_run)
    }
}

/// The free space after removing `total` bytes, saturating.
pub fn projected_available(disk_available: u64, total: u64) -> (r: u64)
    ensures
        r == if disk_available + total > u64::MAX {
            u64::MAX as int
        } else {
            disk_available + total
        },
{
    disk_available.saturating_add(total)
}

/// The dialog's line for one item: `"[action] label"` for an item without a
/// path, `"label  —  path"` otherwise.
pub fn dialog_item_line(item: &CleanupEntry) -> (r: String)
    ensures
        item.path@.len() == 0 ==> r@ == "[action] "@ + item.label@,
        item.path@.len() > 0 ==> r@ == item.label@ + "  —  "@ + item.path@,
{
    let mut out: Vec<char> = Vec::new();
    let label = chars_of(item.label.as_str());
    let path = chars_of(item.path.as_str());
    if path.len() == 0 {
        push_str(&mut out, "[action] ");
        push_chars(&mut out, &label);
    } else {
        push_chars(&mut out, &label);
        push_str(&mut out, "  —  ");
        push_chars(&mut out, &path);
    }
    string_from_chars(&out)
}

/// A short notice shown in the footer.
pub struct ToastMessage {
    pub text: String,
    pub is_error: bool,
}

impl ToastMessage {
    /// A notice with `text`.
    pub fn new(text: &str, is_error: bool) -> (r: ToastMessage)
        ensures
            r.text@ == text@,
            r.is_error == is_error,
    {
        ToastMessage { text: owned(text), is_error }
    }

    /// The icon before the notice.
    pub fn icon(&self) -> (r: &'static str)
        ensures
            self.is_error ==> r@ == "⚠️"@,
            !self.is_error ==> r@ == "✅"@,
    {
        if self.is_error {
            "⚠️"
        } else {
            "✅"
        }
    }
}

/// The colour type of the window, carried through unread.
#[verifier::external_type_specification]
#[verifier::external_body]
pub struct ExColor32(egui::Color32);

/// A card with a caption, a large figure and the figure's colour.
pub struct StorageCard {
    pub label: String,
    pub value: String,
    pub accent: egui::Color32,
}

impl StorageCard {
    /// A card showing `value` under the caption `label`, in `accent`.
    pub fn new(label: &str, value: &str, accent: egui::Color32) -> (r: StorageCard)
        ensures
            r.label@ == label@,
            r.value@ == value@,
            r.accent == accent,
    {
        StorageCard { label: owned(label), value: owned(value), accent }
    }
}

/// The dashboard's figures.
pub struct Dashboard;

impl Dashboard {
    /// The used space of a volume: total minus available, not below zero.
    pub fn used_bytes(disk: &DiskSpace) -> (r: u64)
        ensures
            r == if disk.total_bytes >= disk.available_bytes {
                disk.total_bytes - disk.available_bytes
            } else {
                0
            },
    {
        disk.total_bytes.saturating_sub(disk.available_bytes)
    }

    /// The space that removing every found entry would free.
    pub fn recoverable_bytes(entries: &Vec<CleanupEntry>) -> (r: u64)
        requires
            total_size(entries@) <= u64::MAX,
        ensures
            r == total_size(entries@),
    {
        total_bytes(entries)
    }
}

/// What the right side of the header shows.
#[derive(Clone, Copy, PartialEq, Eq, Structural, Debug)]
pub enum HeaderStatus {
    Finished,
    Scanning,
    Cleaning,
    Idle,
}

/// The header's decisions.
pub struct Header;

impl Header {
    /// The header's status: the finished scan (with the rescan button) once
    /// done and not removing, else a running scan, else a running removal.
    pub fn status(done: bool, deleting: bool, scanning: bool) -> (r: HeaderStatus)
        ensures
            r == if done && !deleting {
                HeaderStatus::Finished
            } else if scanning {
                HeaderStatus::Scanning
            } else if deleting {
                HeaderStatus::Cleaning
            } else {
                HeaderStatus::Idle
            },
    {
        if done && !deleting {
            HeaderStatus::Finished
        } else if scanning {
            HeaderStatus::Scanning
        } else if deleting {
            HeaderStatus::Cleaning
        } else {
            HeaderStatus::Idle
        }
    }

    /// The sidebar button's icon: a cross while the sidebar shows, else a menu.
    pub fn toggle_icon(show_sidebar: bool) -> (r: &'static str)
        ensures
            show_sidebar ==> r@ == "✕"@,
            !show_sidebar ==> r@ == "☰"@,
    {
        if show_sidebar {
            "✕"
        } else {
            "☰"
        }
    }
}

/// The large-files view.
pub struct LargeFilesPanel;

impl LargeFilesPanel {
    /// The positions of the entries of the section "Large Files", largest first.
    pub fn order(entries: &Vec<CleanupEntry>) -> (r: Vec<usize>)
        ensures
            largest_first(sizes_of(entries@), r@),
            within(sizes_of(entries@), r@),
            forall|x: usize| #[trigger]
                r@.contains(x) <==> (x < entries.len() && entries@[x as int].section@
                    == "Large Files"@),
    {
        large_file_order(entries)
    }
}

} // verus!
