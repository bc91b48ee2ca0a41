use mac_cleaner::apps::{app_search_dirs, app_trace_dirs, info_plist_path, installed_app, listed_paths, TraceCollector};
use mac_cleaner::cleanup::{docker_prune_result, needs_rm_fallback, plan_cleanup, removal_result, CleanupStep, CommandOutcome};
use mac_cleaner::docker::docker_reclaimable_sizes;
use mac_cleaner::measure::{disk_space_from_stat, values_fit, values_sum, SizeTable};
use mac_cleaner::models::{entry, CleanupEntry, DeletionResult, ScanEvent, InstalledApp, OrphanConfidence, APP_TRACE_ID_OFFSET};
use mac_cleaner::orphan::{bundle_name, is_reserved, orphan_candidate, orphan_confidence, orphan_label, orphan_record, orphan_scan_dirs, KnownApps};
use mac_cleaner::scan::{
    homebrew_cache, is_large_file, is_stale_installer, large_file_label, older_than_thirty_days,
    project_dep_patterns, scan_plan, stale_extensions, stale_label, under_skipped_dir, large_file_kept, stale_download_kept, stale_found, IdCounter, ScanRun, ScanStep,
};

#[test]
fn plan_lists_every_place_in_order() {
    let plan = scan_plan("/Users/a");
    assert_eq!(plan.len(), 16);
    match &plan[0] {
        ScanStep::Measure { section, progress, items, only_nonempty } => {
            assert_eq!(section, "System Caches");
            assert_eq!(progress.as_deref(), Some("Scanning System Caches..."));
            assert_eq!(items[0], ("~/Library/Caches".to_string(), "/Users/a/Library/Caches".to_string()));
            assert_eq!(items[1], ("~/.cache".to_string(), "/Users/a/.cache".to_string()));
            assert!(!only_nonempty);
        }
        _ => panic!("first step measures system caches"),
    }
    match &plan[1] {
        ScanStep::Measure { items, .. } => assert_eq!(items.len(), 7),
        _ => panic!(),
    }
    match &plan[6] {
        ScanStep::ProjectDeps { projects, .. } => assert_eq!(projects, "/Users/a/Projects"),
        _ => panic!(),
    }
    match &plan[11] {
        ScanStep::Measure { section, progress, items, only_nonempty } => {
            assert_eq!(section, "Logs & Temp");
            assert!(progress.is_none());
            assert_eq!(items[0].1, "/Users/a/.Trash");
            assert!(*only_nonempty);
        }
        _ => panic!(),
    }
    match &plan[13] {
        ScanStep::StaleDownloads { downloads, .. } => assert_eq!(downloads, "/Users/a/Downloads"),
        _ => panic!(),
    }
    assert!(matches!(plan[15], ScanStep::Orphans));
    assert_eq!(project_dep_patterns()[1], ("target (Rust)", "target"));
}

fn entry_of(ev: &ScanEvent) -> &CleanupEntry {
    match ev {
        ScanEvent::Entry(e) => e,
        _ => panic!("expected an entry"),
    }
}

#[test]
fn ids_are_handed_out_in_order() {
    let mut run = ScanRun::new();
    assert!(matches!(run.progress("Scanning Go...".to_string()), ScanEvent::Progress(ref m) if m == "Scanning Go..."));
    let a = run.entry("Go", "Go module cache", "/g", 3);
    let b = run.entry("Go", "Go compiled binaries", "/b", 4);
    assert_eq!((entry_of(&a).id, entry_of(&b).id), (0, 1));
    assert!(run.entry_if_nonempty("iOS", "iOS Backups (MobileSync)", "/m", 0).is_none());
    let d = run.entry_if_nonempty("iOS", "iOS Backups (MobileSync)", "/m", 9).unwrap();
    assert_eq!(entry_of(&d).id, 2);
    let mut t = SizeTable::new();
    t.record("/x".to_string(), 5);
    t.record("/y".to_string(), 6);
    let items = vec![("X".to_string(), "/x".to_string()), ("Z".to_string(), "/z".to_string())];
    let es = run.measured("Logs & Temp", &items, &t);
    assert_eq!(entry_of(&es[0]).id, 3);
    assert_eq!(entry_of(&es[0]).size_bytes, 5);
    assert_eq!(entry_of(&es[1]).size_bytes, 0);
    let es = run.paths("Project Deps", "node_modules", &vec!["/y".to_string()], &t);
    assert_eq!(entry_of(&es[0]).id, 5);
    assert_eq!(entry_of(&es[0]).label, "node_modules");
    assert_eq!(entry_of(&es[0]).size_bytes, 6);
    assert!(run.orphan("Foo", "foo", "/o", 0).is_none());
    let o = run.orphan("com.foo.bar", "com.foo.bar", "/o", 7).unwrap();
    assert_eq!(entry_of(&o).id, 6);
    assert_eq!(entry_of(&o).orphan_confidence, Some(OrphanConfidence::High));
    assert!(run.has_room(10));
    assert!(!run.is_finished());
    assert!(matches!(run.done(), ScanEvent::Done));
    assert!(run.is_finished());
    let mut c = IdCounter::new();
    assert_eq!((c.take(), c.take()), (0, 1));
    assert!(c.has_room(10));
}

#[test]
fn size_table_reads_back_and_totals_distinct_paths() {
    let mut t = SizeTable::new();
    t.record("/a".to_string(), 5);
    t.record("/b".to_string(), 7);
    t.record("/a".to_string(), 5);
    assert_eq!(t.size_or_zero("/a"), 5);
    assert_eq!(t.size_or_zero("/b"), 7);
    assert_eq!(t.size_or_zero("/c"), 0);
    assert!(t.total_fits());
    assert_eq!(t.total(), 12);
    let mut big = SizeTable::new();
    big.record("/a".to_string(), u64::MAX);
    big.record("/b".to_string(), 1);
    assert!(!big.total_fits());
    assert!(values_fit(&vec![1, 2, 3]));
    assert_eq!(values_sum(&vec![1, 2, 3]), 6);
    assert!(!values_fit(&vec![u64::MAX, 1]));
}

#[test]
fn stale_and_large_file_tests() {
    assert!(is_stale_installer("Installer.DMG"));
    assert!(is_stale_installer("backup.tar.gz"));
    assert!(!is_stale_installer("notes.txt"));
    assert!(!is_stale_installer("archive.gz"));
    assert_eq!(stale_extensions().len(), 7);
    assert!(older_than_thirty_days(2592001, 0));
    assert!(older_than_thirty_days(2592000, 1));
    assert!(!older_than_thirty_days(2592000, 0));
    assert_eq!(stale_label(3), "Stale installers (>30d, 3 files)");
    assert!(is_large_file(500 * 1024 * 1024 + 1));
    assert!(!is_large_file(500 * 1024 * 1024));
    assert!(under_skipped_dir("/Users/a", "/Users/a/Library/Caches/big.bin"));
    assert!(under_skipped_dir("/Users/a", "/Users/a/.Trash/old.iso"));
    assert!(under_skipped_dir("/Users/a", "/Users/a/p/node_modules/x/blob"));
    assert!(!under_skipped_dir("/Users/a", "/Users/a/Movies/x.mkv"));
    assert!(!under_skipped_dir("/Users/a", "/Users/a/Movies/Caches"));
    assert!(!under_skipped_dir("/Users/a", "/Users/a/MyCaches/x.mkv"));
    assert!(large_file_kept("/Users/a", "/Users/a/Movies/x.mkv", true, 600 * 1024 * 1024));
    assert!(!large_file_kept("/Users/a", "/Users/a/Movies/x.mkv", false, 600 * 1024 * 1024));
    assert!(!large_file_kept("/Users/a", "/Users/a/Movies/x.mkv", true, 500 * 1024 * 1024));
    assert!(!large_file_kept("/Users/a", "/Users/a/.Trash/x.mkv", true, 600 * 1024 * 1024));
    assert!(stale_download_kept(true, "Setup.PKG", Some((2592001, 0))));
    assert!(!stale_download_kept(true, "Setup.pkg", Some((2592000, 0))));
    assert!(!stale_download_kept(true, "Setup.pkg", None));
    assert!(!stale_download_kept(false, "Setup.pkg", Some((9999999, 0))));
    assert!(!stale_download_kept(true, "notes.txt", Some((9999999, 0))));
    assert_eq!(stale_found(vec![]), None);
    assert_eq!(stale_found(vec!["/d/a.dmg".to_string()]), Some(vec!["/d/a.dmg".to_string()]));
    assert_eq!(large_file_label("/Users/a", "/Users/a/Movies/x.mkv"), "Movies/x.mkv");
    assert_eq!(large_file_label("/Users/a", "/Volumes/x.mkv"), "/Volumes/x.mkv");
    assert_eq!(homebrew_cache("  /Users/a/Library/Caches/Homebrew\n"), Some("/Users/a/Library/Caches/Homebrew".to_string()));
    assert_eq!(homebrew_cache(" \n"), None);
}

#[test]
fn docker_report_reading() {
    let raw = r#"[{"Type":"Images","ReclaimableSize":"1.5GB (40%)"},{"Type":"Containers","ReclaimableSize":"0B"},{"Type":"Volumes","ReclaimableSize":7},{"Type":"Build Cache"}]"#;
    assert_eq!(docker_reclaimable_sizes(raw), vec!["1.5GB (40%)".to_string(), "0B".to_string()]);
    assert!(docker_reclaimable_sizes("not json").is_empty());
    assert!(docker_reclaimable_sizes(r#"{"ReclaimableSize":"1GB"}"#).is_empty());
}

#[test]
fn orphan_detection() {
    assert_eq!(orphan_scan_dirs().len(), 9);
    let mut k = KnownApps::new();
    k.add_bundle_id("  Com.Example.Editor\n");
    k.add_bundle_id("   ");
    k.add_app_name("/Applications/Example Editor.app");
    k.add_app_name("/Applications/Example Editor.app");
    assert_eq!(k.bundle_ids, vec!["com.example.editor".to_string()]);
    assert_eq!(k.names, vec!["example editor".to_string()]);
    assert!(k.is_known("com.example.editor"));
    assert!(k.is_known("com.example.editor.helper"));
    assert!(!k.is_known("com.example.editorx"));
    assert!(k.is_known("example editor"));
    assert!(is_reserved("com.apple.safari"));
    assert!(is_reserved("com.apple"));
    assert!(is_reserved(".hidden"));
    assert!(is_reserved("caches"));
    assert!(!is_reserved("com.applesauce"));
    assert_eq!(orphan_candidate(&k, "Com.Other.App"), Some("com.other.app".to_string()));
    assert_eq!(orphan_candidate(&k, "Com.Example.Editor"), None);
    assert_eq!(orphan_candidate(&k, "metadata"), None);
    assert_eq!(orphan_confidence("com.other.app"), OrphanConfidence::High);
    assert_eq!(orphan_confidence("com.other"), OrphanConfidence::Medium);
    assert_eq!(orphan_confidence("abc"), OrphanConfidence::Low);
    assert_eq!(orphan_confidence("some tool"), OrphanConfidence::Low);
    assert_eq!(orphan_confidence("äb"), OrphanConfidence::Low);
    assert_eq!(orphan_confidence("äbc"), OrphanConfidence::Medium);
    assert_eq!(orphan_label(OrphanConfidence::Medium, "Tool"), "[MED]  Tool");
    assert!(orphan_record(4, "X", "x", "/p", 0).is_none());
    let e = orphan_record(4, "Com.Other.App", "com.other.app", "/p", 10).unwrap();
    assert_eq!(e.label, "[HIGH] Com.Other.App");
    assert_eq!(e.section, "Orphan App Data");
    assert_eq!(e.orphan_confidence, Some(OrphanConfidence::High));
    assert_eq!(bundle_name("/Applications/Foo.app.app"), "Foo");
    assert_eq!(bundle_name("Bar"), "Bar");
}

#[test]
fn installed_apps_from_find_output() {
    let out = "/Applications/Foo.app\n\n  /Applications/Bar Baz.app \r\n/Applications/Qux.app";
    assert_eq!(listed_paths(out), vec!["/Applications/Foo.app", "/Applications/Bar Baz.app", "/Applications/Qux.app"]);
    assert!(listed_paths("").is_empty());
    assert_eq!(listed_paths("a\n"), vec!["a"]);
    assert_eq!(info_plist_path("/Applications/Foo.app"), "/Applications/Foo.app/Contents/Info.plist");
    let a = installed_app(3, "/Applications/Bar Baz.app", " com.bar.baz\n", 77);
    assert_eq!(a.name, "Bar Baz");
    assert_eq!(a.bundle_id, "com.bar.baz");
    assert_eq!(a.size_bytes, 77);
    let dirs = app_search_dirs("/Users/a");
    assert_eq!(dirs, vec!["/Applications", "/Users/a/Applications", "/System/Applications"]);
    assert_eq!(app_trace_dirs().len(), 11);
}

#[test]
fn app_traces_are_collected() {
    let app = InstalledApp {
        id: 1,
        name: "Bar Baz".to_string(),
        bundle_id: "Com.Bar.Baz".to_string(),
        app_path: "/Applications/Bar Baz.app".to_string(),
        size_bytes: 77,
    };
    let mut c = TraceCollector::new(&app);
    assert_eq!(c.entries[0].id, APP_TRACE_ID_OFFSET);
    assert_eq!(c.entries[0].label, "Bar Baz.app");
    assert_eq!(c.entries[0].section, "App Bundle");
    assert!(c.matches("com.bar.baz.plist"));
    assert!(c.matches("COM.BAR.BAZ"));
    assert!(c.matches("com.bar.baz.helper"));
    assert!(c.matches("BarBaz"));
    assert!(c.matches("bar baz.plist"));
    assert!(!c.matches("com.bar"));
    assert!(c.has_room());
    c.add("Library/Caches", "com.bar.baz", "/c", 0);
    assert_eq!(c.entries.len(), 1);
    c.add("Library/Caches", "com.bar.baz", "/c", 12);
    assert_eq!(c.entries[1].id, APP_TRACE_ID_OFFSET + 1);
    assert_eq!(c.entries[1].label, "Library/Caches/com.bar.baz");
    assert_eq!(c.entries[1].section, "App Traces");
}

#[test]
fn cleanup_steps_and_reports() {
    let item = entry(7, "Go", "Go module cache", "/g", 3);
    let docker = entry(8, "Package Managers", "Docker (reclaimable)", "", 9);
    let other = entry(9, "X", "nothing", "", 1);
    match plan_cleanup(&item, true) {
        CleanupStep::Preview(m) => assert_eq!(m, "[DRY RUN] Would delete: /g"),
        _ => panic!(),
    }
    match plan_cleanup(&docker, true) {
        CleanupStep::Preview(m) => assert_eq!(m, "[DRY RUN] Would execute: docker system prune -af"),
        _ => panic!(),
    }
    assert!(matches!(plan_cleanup(&docker, false), CleanupStep::DockerPrune));
    assert!(matches!(plan_cleanup(&other, false), CleanupStep::Skip));
    match plan_cleanup(&item, false) {
        CleanupStep::Remove(p) => assert_eq!(p, "/g"),
        _ => panic!(),
    }
    assert!(needs_rm_fallback(None));
    assert!(!needs_rm_fallback(Some(false)));
    match removal_result(&item, Some(true)) {
        DeletionResult::Deleted(p, id) => assert_eq!((p.as_str(), id), ("/g", 7)),
        _ => panic!(),
    }
    match removal_result(&item, Some(false)) {
        DeletionResult::Error(m) => assert_eq!(m, "Failed to delete: /g"),
        _ => panic!(),
    }
    match docker_prune_result(&docker, CommandOutcome::Finished(true, String::new())) {
        DeletionResult::Deleted(p, id) => assert_eq!((p.as_str(), id), ("", 8)),
        _ => panic!(),
    }
    match docker_prune_result(&docker, CommandOutcome::Finished(false, "  daemon down \n".to_string())) {
        DeletionResult::Error(m) => assert_eq!(m, "docker prune failed: daemon down"),
        _ => panic!(),
    }
    match docker_prune_result(&docker, CommandOutcome::NotStarted("not found".to_string())) {
        DeletionResult::Error(m) => assert_eq!(m, "docker prune error: not found"),
        _ => panic!(),
    }
}

#[test]
fn disk_figures_from_statfs() {
    let d = disk_space_from_stat(0, 100, 40, 4096);
    assert_eq!((d.total_bytes, d.available_bytes), (409600, 163840));
    let d = disk_space_from_stat(-1, 100, 40, 4096);
    assert_eq!((d.total_bytes, d.available_bytes), (0, 0));
}
