use mac_cleaner::grouping::{large_file_order, positions_fit, section_groups};
use mac_cleaner::models::{entry, orphan_entry, CleanupEntry, OrphanConfidence};
use mac_cleaner::selection::{
    clear_selection, count_selected, log_button_label, select_chosen, selected_bytes,
    selected_copies, set_selected_at, all_selected_at, sizes_fit, total_bytes, EntryFilter, Pick,
};

fn sample() -> Vec<CleanupEntry> {
    vec![
        entry(0, "System Caches", "~/Library/Caches", "/Users/a/Library/Caches", 300 * 1024 * 1024),
        entry(1, "Go", "Go module cache", "/Users/a/go/pkg/mod", 50),
        orphan_entry(2, "Orphan App Data", "[HIGH] com.foo.bar", "/Users/a/Library/x", 10, OrphanConfidence::High),
        orphan_entry(3, "Orphan App Data", "[LOW]  ab", "/Users/a/Library/y", 200 * 1024 * 1024, OrphanConfidence::Low),
        entry(4, "System Caches", "~/.cache", "/Users/a/.cache", 70),
        entry(5, "Large Files", "movie.mkv", "/Users/a/movie.mkv", 900),
        entry(6, "Large Files", "disk.img", "/Users/a/disk.img", 900),
        entry(7, "Large Files", "big.iso", "/Users/a/big.iso", 2000),
    ]
}

#[test]
fn entries_start_unselected() {
    let e = entry(9, "Go", "label", "/p", 5);
    assert_eq!(e.id, 9);
    assert_eq!(e.section, "Go");
    assert!(!e.selected);
    assert!(e.orphan_confidence.is_none());
    let o = orphan_entry(1, "Orphan App Data", "l", "/q", 3, OrphanConfidence::Medium);
    assert_eq!(o.orphan_confidence, Some(OrphanConfidence::Medium));
    assert!(!o.selected);
}

#[test]
fn totals_and_selection_counts() {
    let mut v = sample();
    assert!(sizes_fit(&v));
    let total: u64 = v.iter().map(|e| e.size_bytes).sum();
    assert_eq!(total_bytes(&v), total);
    assert_eq!(count_selected(&v), 0);
    assert_eq!(selected_bytes(&v), 0);
    select_chosen(&mut v, &vec![1, 4], Pick::Every);
    assert_eq!(count_selected(&v), 2);
    assert_eq!(selected_bytes(&v), 120);
    let copies = selected_copies(&v);
    assert_eq!(copies.len(), 2);
    assert_eq!(copies[0].id, 1);
    assert_eq!(copies[1].id, 4);
}

#[test]
fn sizes_that_overflow_do_not_fit() {
    let v = vec![entry(0, "a", "a", "/a", u64::MAX), entry(1, "b", "b", "/b", 1)];
    assert!(!sizes_fit(&v));
}

#[test]
fn select_large_and_high_confidence() {
    let mut v = sample();
    let all: Vec<usize> = (0..v.len()).collect();
    select_chosen(&mut v, &all, Pick::AtLeast100Mib);
    let sel: Vec<usize> = v.iter().filter(|e| e.selected).map(|e| e.id).collect();
    assert_eq!(sel, vec![0, 3]);
    clear_selection(&mut v);
    assert_eq!(count_selected(&v), 0);
    select_chosen(&mut v, &all, Pick::HighConfidenceOrphans);
    let sel: Vec<usize> = v.iter().filter(|e| e.selected).map(|e| e.id).collect();
    assert_eq!(sel, vec![2]);
    // selecting never deselects
    select_chosen(&mut v, &vec![0], Pick::HighConfidenceOrphans);
    assert!(v[2].selected);
    assert!(!v[0].selected);
}

#[test]
fn filter_matches_case_insensitively() {
    let v = sample();
    let mut f = EntryFilter::new();
    assert_eq!(f.filtered_indices(&v), (0..v.len()).collect::<Vec<_>>());
    f.search = "CACHE".to_string();
    assert_eq!(f.filtered_indices(&v), vec![0, 1, 4]);
    f.search = "   ".to_string();
    assert_eq!(f.filtered_indices(&v).len(), v.len());
    f.search = "orphan".to_string();
    assert_eq!(f.filtered_indices(&v), vec![2, 3]);
    f.search = String::new();
    f.min_bytes = 1000;
    assert_eq!(f.filtered_indices(&v), vec![0, 3, 7]);
    f.search = "go/pkg".to_string();
    f.min_bytes = 0;
    assert_eq!(f.filtered_indices(&v), vec![1]);
}

#[test]
fn section_groups_largest_first() {
    let v = sample();
    let f = EntryFilter::new();
    let idx = f.filtered_indices(&v);
    assert!(positions_fit(&v, &idx));
    assert!(positions_fit(&vec![entry(0, "a", "a", "/a", u64::MAX), entry(1, "b", "b", "/b", 1)], &vec![0]));
    assert!(!positions_fit(&vec![entry(0, "a", "a", "/a", u64::MAX), entry(1, "b", "b", "/b", 1)], &vec![0, 1]));
    let groups = section_groups(&v, &idx);
    let names: Vec<&str> = groups.iter().map(|g| g.section.as_str()).collect();
    assert_eq!(names, vec!["System Caches", "Orphan App Data", "Large Files", "Go"]);
    assert_eq!(groups[0].total_bytes, 300 * 1024 * 1024 + 70);
    assert_eq!(groups[0].indices, vec![0, 4]);
    assert_eq!(groups[1].indices, vec![3, 2]);
    assert_eq!(groups[2].indices, vec![7, 5, 6]);
    assert_eq!(groups[2].total_bytes, 3800);
    // the section totals add up to the filtered total
    let sum: u64 = groups.iter().map(|g| g.total_bytes).sum();
    assert_eq!(sum, total_bytes(&v));
}

#[test]
fn section_select_all_box() {
    let mut v = sample();
    let idx = vec![5, 6, 7];
    assert!(!all_selected_at(&v, &idx));
    set_selected_at(&mut v, &idx, true);
    assert!(all_selected_at(&v, &idx));
    assert!(!v[0].selected);
    set_selected_at(&mut v, &vec![6], false);
    assert!(!all_selected_at(&v, &idx));
    assert!(v[5].selected && !v[6].selected && v[7].selected);
}

#[test]
fn large_files_in_size_order() {
    let v = sample();
    assert_eq!(large_file_order(&v), vec![7, 5, 6]);
    assert!(large_file_order(&vec![]).is_empty());
}

#[test]
fn log_button_caption() {
    assert_eq!(log_button_label(0), "Log");
    assert_eq!(log_button_label(3), "Log (3)");
    assert_eq!(log_button_label(120), "Log (120)");
}
