use mac_cleaner::models::{entry, AppScanEvent, AppView, DeletionResult, DiskSpace, InstalledApp, ScanEvent};
use mac_cleaner::panels::{
    dialog_item_line, nav_items, opens_app_scan, projected_available, uninstall_button_label,
    ApplicationsPanel, Dashboard, DangerDialog, Header, HeaderStatus, Sidebar, StorageCard, ToastMessage,
};
use mac_cleaner::session::CleanupSession;

fn app(id: usize, name: &str, path: &str, size: u64) -> InstalledApp {
    InstalledApp {
        id,
        name: name.to_string(),
        bundle_id: format!("com.example.{}", name.to_lowercase()),
        app_path: path.to_string(),
        size_bytes: size,
    }
}

#[test]
fn new_session_is_idle() {
    let s = CleanupSession::new();
    assert!(s.entries.is_empty());
    assert!(!s.scanning && !s.done && !s.deleting);
    assert!(s.show_sidebar);
    assert_eq!(s.sidebar.selected_view, AppView::Dashboard);
    assert!(s.toast.is_none());
}

#[test]
fn scan_events_fill_the_session() {
    let mut s = CleanupSession::new();
    s.restart();
    assert!(s.scanning);
    assert_eq!(s.scan_progress, "Starting scan...");
    assert!(!s.apply_scan_event(ScanEvent::Progress("Scanning Go...".to_string())));
    assert_eq!(s.scan_progress, "Scanning Go...");
    assert!(!s.apply_scan_event(ScanEvent::Entry(entry(0, "Go", "Go module cache", "/g", 10))));
    assert!(!s.apply_scan_event(ScanEvent::Warning("slow disk".to_string())));
    assert_eq!(s.log_messages, vec!["⚠️  slow disk".to_string()]);
    assert!(s.apply_scan_event(ScanEvent::Done));
    assert!(!s.scanning && s.done);
    assert_eq!(s.scan_progress, "Scan complete.");
    assert_eq!(s.entries.len(), 1);
    s.restart();
    assert!(s.entries.is_empty() && s.log_messages.is_empty());
}

#[test]
fn app_scan_events() {
    let mut s = CleanupSession::new();
    s.applications_panel.start_scan();
    assert!(s.applications_panel.scanning);
    s.apply_app_scan_event(AppScanEvent::Progress(()));
    s.apply_app_scan_event(AppScanEvent::Entry(app(0, "Foo", "/Applications/Foo.app", 5)));
    s.apply_app_scan_event(AppScanEvent::Done);
    assert!(!s.applications_panel.scanning);
    assert_eq!(s.applications_panel.listing.listed().len(), 1);
}

#[test]
fn deletion_results_remove_entries_and_apps() {
    let mut s = CleanupSession::new();
    s.entries = vec![entry(0, "Go", "a", "/a", 1), entry(1, "Go", "b", "/b", 2), entry(2, "Go", "c", "/c", 3)];
    s.apply_app_scan_event(AppScanEvent::Entry(app(0, "Foo", "/Applications/Foo.app", 5)));
    s.apply_app_scan_event(AppScanEvent::Entry(app(1, "Bar", "/Applications/Bar.app", 6)));
    s.applications_panel.show_traces(0, vec![entry(1_000_000, "App Bundle", "Foo.app", "/Applications/Foo.app", 5)]);
    assert_eq!(s.applications_panel.listing.chosen(), Some(0));
    s.deleting = true;
    let done = s.apply_deletion_results(vec![
        DeletionResult::Deleted("/b".to_string(), 1),
        DeletionResult::Deleted("/Applications/Foo.app".to_string(), 1_000_000),
    ]);
    assert!(!done);
    assert!(s.deleting);
    let ids: Vec<usize> = s.entries.iter().map(|e| e.id).collect();
    assert_eq!(ids, vec![0, 2]);
    assert_eq!(s.applications_panel.listing.listed().len(), 1);
    assert_eq!(s.applications_panel.listing.chosen(), None);
    assert!(s.applications_panel.app_traces.is_empty());
    assert_eq!(s.log_messages, vec!["✅ Deleted: /b".to_string(), "✅ Deleted: /Applications/Foo.app".to_string()]);
    assert!(!s.show_log);
    let done = s.apply_deletion_results(vec![DeletionResult::Error("Failed to delete: /c".to_string()), DeletionResult::Done]);
    assert!(done);
    assert!(!s.deleting);
    assert!(s.show_log);
    let t = s.toast.as_ref().unwrap();
    assert!(t.is_error);
    assert_eq!(t.text, "Cleanup finished with some errors — check the log.");
    assert_eq!(s.log_messages.last().unwrap(), "❌ Failed to delete: /c");
}

#[test]
fn dry_run_reports_open_the_log() {
    let mut s = CleanupSession::new();
    s.entries = vec![entry(0, "Go", "a", "/a", 1)];
    let done = s.apply_deletion_results(vec![
        DeletionResult::DryRunPreview("[DRY RUN] Would delete: /a".to_string()),
        DeletionResult::Done,
    ]);
    assert!(done);
    assert!(s.show_log);
    assert_eq!(s.entries.len(), 1);
    let t = s.toast.as_ref().unwrap();
    assert!(!t.is_error);
    assert_eq!(t.text, "Cleanup complete!");
}

#[test]
fn applications_panel_search_and_traces() {
    let mut p = ApplicationsPanel::new();
    assert!(p.listing.listed().is_empty() && p.listing.chosen().is_none() && !p.scanning);
    p.listing.add(app(0, "Slack", "/Applications/Slack.app", 10));
    p.listing.add(app(1, "Xcode", "/Applications/Xcode.app", 90));
    p.listing.add(app(2, "Safari", "/Applications/Safari.app", 10));
    assert_eq!(p.visible_apps(), vec![1, 0, 2]);
    p.app_search = "SA".to_string();
    assert_eq!(p.visible_apps(), vec![2]);
    p.app_search = "a".to_string();
    assert_eq!(p.visible_apps(), vec![0, 2]);
    assert_eq!(p.find_app(2), Some(2));
    assert_eq!(p.find_app(7), None);
    let traces = vec![entry(1_000_000, "App Bundle", "Xcode.app", "/Applications/Xcode.app", 90), entry(1_000_001, "App Traces", "Library/Caches/com.apple.dt.Xcode", "/c", 4)];
    p.show_traces(7, traces.clone());
    assert_eq!(p.listing.chosen(), None);
    assert!(p.app_traces.is_empty());
    p.show_traces(1, traces);
    assert_eq!(p.listing.chosen(), Some(1));
    assert!(p.app_traces.iter().all(|t| t.selected));
    assert!(p.target_present());
    assert_eq!(p.traces_selected_bytes(), 94);
    assert!(p.any_trace_selected());
    p.set_all_traces(false);
    assert!(!p.any_trace_selected());
    assert!(p.selected_traces().is_empty());
    p.set_all_traces(true);
    assert_eq!(p.selected_traces().len(), 2);
    p.start_scan();
    assert!(p.listing.listed().is_empty() && p.listing.chosen().is_none() && p.scanning);
    assert!(!p.target_present());
}

#[test]
fn dialog_confirms_exactly_what_was_opened() {
    let mut d = DangerDialog::new();
    assert!(!d.show && d.items.is_empty() && !d.dry_run && !d.deleting);
    let items = vec![entry(3, "Go", "a", "/a", 5), entry(4, "Package Managers", "Docker (reclaimable)", "", 7)];
    d.open(items, false);
    assert!(d.show);
    assert_eq!(d.total_bytes(), 12);
    assert_eq!(dialog_item_line(&d.items[0]), "a  —  /a");
    assert_eq!(dialog_item_line(&d.items[1]), "[action] Docker (reclaimable)");
    let (taken, dry) = d.confirm();
    assert!(!dry);
    assert_eq!(taken.iter().map(|e| e.id).collect::<Vec<_>>(), vec![3, 4]);
    assert!(!d.show && d.items.is_empty() && d.deleting);
    d.open(vec![entry(5, "Go", "b", "/b", 1)], true);
    d.cancel();
    assert!(!d.show && d.items.is_empty());
    d.open(vec![entry(5, "Go", "b", "/b", 1)], true);
    let (taken, dry) = d.confirm();
    assert!(dry && taken.len() == 1);
}

#[test]
fn small_figures() {
    assert_eq!(projected_available(10, 5), 15);
    assert_eq!(projected_available(u64::MAX, 5), u64::MAX);
    assert_eq!(Dashboard::used_bytes(&DiskSpace { total_bytes: 100, available_bytes: 30 }), 70);
    assert_eq!(Dashboard::used_bytes(&DiskSpace { total_bytes: 10, available_bytes: 30 }), 0);
    assert_eq!(Dashboard::recoverable_bytes(&vec![entry(0, "a", "a", "/a", 4), entry(1, "b", "b", "/b", 6)]), 10);
    assert_eq!(Header::status(true, false, false), HeaderStatus::Finished);
    assert_eq!(Header::status(true, true, false), HeaderStatus::Cleaning);
    assert_eq!(Header::status(false, false, true), HeaderStatus::Scanning);
    assert_eq!(Header::status(false, false, false), HeaderStatus::Idle);
    assert_eq!(Header::toggle_icon(true), "✕");
    assert_eq!(Header::toggle_icon(false), "☰");
    assert_eq!(uninstall_button_label(true), "🔍 Preview Uninstall (Dry Run)");
    assert_eq!(uninstall_button_label(false), "🗑️ Uninstall Completely");
    let t = ToastMessage::new("Cleanup complete!", false);
    assert_eq!(t.text, "Cleanup complete!");
    assert_eq!(t.icon(), "✅");
    assert_eq!(ToastMessage::new("x", true).icon(), "⚠️");
    assert_eq!(Sidebar::new().selected_view, AppView::Dashboard);
    let nav = nav_items();
    assert_eq!(nav.len(), 4);
    assert_eq!(nav[3].2, "Large Files");
    assert!(opens_app_scan(AppView::Dashboard, AppView::Applications, false, false));
    assert!(!opens_app_scan(AppView::Applications, AppView::Applications, false, false));
    assert!(!opens_app_scan(AppView::Dashboard, AppView::Applications, true, false));
    assert!(!opens_app_scan(AppView::Dashboard, AppView::Cleanup, false, false));
}

#[test]
fn storage_card_keeps_caption_figure_and_colour() {
    let card = StorageCard::new("Recoverable Space", "1.5 GB", egui::Color32::from_rgb(60, 180, 90));
    assert_eq!(card.label, "Recoverable Space");
    assert_eq!(card.value, "1.5 GB");
    assert_eq!(card.accent, egui::Color32::from_rgb(60, 180, 90));
}

#[test]
fn restart_keeps_the_views_and_settings() {
    let mut s = CleanupSession::new();
    s.dry_run = true;
    s.show_sidebar = false;
    s.sidebar.selected_view = AppView::LargeFiles;
    s.filter.min_bytes = 5;
    s.applications_panel.listing.add(app(3, "Foo", "/Applications/Foo.app", 5));
    assert!(s.applications_panel.listing.pick_for_removal(3));
    s.confirm.open(vec![entry(0, "Go", "a", "/a", 1)], true);
    s.entries = vec![entry(0, "Go", "a", "/a", 1)];
    s.log_messages = vec!["x".to_string()];
    s.restart();
    assert!(s.entries.is_empty() && s.log_messages.is_empty() && s.scanning);
    assert!(s.dry_run && !s.show_sidebar);
    assert_eq!(s.sidebar.selected_view, AppView::LargeFiles);
    assert_eq!(s.filter.min_bytes, 5);
    assert_eq!(s.applications_panel.listing.chosen(), Some(3));
    assert!(s.confirm.show && s.confirm.items.len() == 1);
}

#[test]
fn the_removal_choice_always_names_a_listed_app() {
    let mut s = CleanupSession::new();
    assert!(!s.applications_panel.listing.pick_for_removal(4));
    assert_eq!(s.applications_panel.listing.chosen(), None);
    s.apply_app_scan_event(AppScanEvent::Entry(app(4, "Foo", "/Applications/Foo.app", 5)));
    assert!(s.applications_panel.listing.pick_for_removal(4));
    s.apply_app_scan_event(AppScanEvent::Entry(app(5, "Bar", "/Applications/Bar.app", 6)));
    assert_eq!(s.applications_panel.listing.chosen(), Some(4));
    s.apply_deletion_results(vec![DeletionResult::Deleted("/Applications/Bar.app".to_string(), 9)]);
    assert_eq!(s.applications_panel.listing.chosen(), Some(4));
    s.apply_deletion_results(vec![DeletionResult::Deleted("/Applications/Foo.app".to_string(), 9)]);
    assert_eq!(s.applications_panel.listing.chosen(), None);
    s.applications_panel.start_scan();
    assert_eq!(s.applications_panel.listing.chosen(), None);
}
