use mac_cleaner::cleanup::{plan_cleanup, CleanupStep};
use mac_cleaner::format::parse_u64_text;
use mac_cleaner::measure::SizeTable;
use mac_cleaner::models::{entry, DeletionResult};
use mac_cleaner::selection::{select_chosen, selected_copies, EntryFilter, Pick};
use mac_cleaner::session::CleanupSession;
use mac_cleaner::text::decimal_string;

#[test]
fn decimal_text_reads_back() {
    for n in [0u64, 7, 10, 99, 1000, 123456789, u64::MAX] {
        assert_eq!(parse_u64_text(decimal_string(n).as_str()), Some(n));
    }
}

#[test]
fn later_measurement_replaces_earlier() {
    let mut t = SizeTable::new();
    t.record("/a".to_string(), 1);
    t.record("/b".to_string(), 2);
    t.record("/a".to_string(), 3);
    assert_eq!(t.size_or_zero("/a"), 3);
    assert_eq!(t.size_or_zero("/b"), 2);
}

#[test]
fn blank_filter_shows_everything() {
    let v = vec![entry(0, "a", "a", "/a", 0), entry(1, "b", "b", "/b", 9)];
    let f = EntryFilter::new();
    assert!(v.iter().all(|e| f.matches(e)));
}

#[test]
fn dry_run_never_removes() {
    for e in [entry(0, "a", "Docker (reclaimable)", "", 1), entry(1, "b", "b", "/b", 2), entry(2, "c", "c", "", 3)] {
        assert!(matches!(plan_cleanup(&e, true), CleanupStep::Preview(_)));
    }
}

#[test]
fn only_selected_entries_are_handed_over() {
    let mut v = vec![entry(0, "a", "a", "/a", 1), entry(1, "b", "b", "/b", 2), entry(2, "c", "c", "/c", 3)];
    select_chosen(&mut v, &vec![0, 2], Pick::Every);
    let handed: Vec<usize> = selected_copies(&v).iter().map(|e| e.id).collect();
    assert_eq!(handed, vec![0, 2]);
}

#[test]
fn removed_entries_disappear() {
    let mut s = CleanupSession::new();
    s.entries = vec![entry(0, "a", "a", "/a", 1), entry(1, "b", "b", "/b", 2), entry(2, "c", "c", "/c", 3)];
    s.apply_deletion_results(vec![DeletionResult::Deleted("/c".to_string(), 2), DeletionResult::Deleted("/a".to_string(), 0)]);
    assert_eq!(s.entries.iter().map(|e| e.id).collect::<Vec<_>>(), vec![1]);
}
