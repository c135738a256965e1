use snapdiff::file::File;
use snapdiff::stats::{Count, Stats};

#[test]
fn new_stats_is_empty() {
    let r = Stats::new();
    assert_eq!(r.count.size, 0);
    assert_eq!(r.count.files, 0);
}

#[test]
fn stats_records_file() {
    let mut r = Stats::new();
    r.record(&File::from_strings("/tmp/x", "Foo"));
    assert_eq!(r.count.size, 3);
    assert_eq!(r.count.files, 1);
}

#[test]
fn count_adds_up() {
    let mut c = Count::new();
    assert_eq!(c, Count { files: 0, size: 0 });
    c.add(2, 10);
    c.add(1, 5);
    assert_eq!(c, Count { files: 3, size: 15 });
}

#[test]
fn stats_without_storage_keep_no_files() {
    let mut r = Stats::new();
    r.record(&File::from_strings("/a", "abc"));
    assert!(r.files().is_none());
    assert_eq!(r.files_count(), 1);
    assert_eq!(r.size(), 3);
    assert_eq!(r.count(), Count { files: 1, size: 3 });
}

#[test]
fn stats_with_storage_keep_the_files_in_order() {
    let mut r = Stats::new_with_file_storage();
    assert_eq!(r.files().unwrap().len(), 0);
    let a = File::from_strings("/a", "abc");
    let b = File::from_strings("/b", "de");
    r.record(&a);
    r.record(&b);
    let kept = r.files().unwrap();
    assert_eq!(kept.len(), 2);
    assert_eq!(kept[0], a);
    assert_eq!(kept[1], b);
    assert_eq!(r.count(), Count { files: 2, size: 5 });
}

#[test]
fn stats_record_a_range_of_files() {
    let files = vec![
        File::from_strings("/a", "1"),
        File::from_strings("/b", "22"),
        File::from_strings("/c", "333"),
        File::from_strings("/d", "4444"),
    ];
    let mut r = Stats::new_with_file_storage();
    r.record_range(&files, 1, 3);
    assert_eq!(r.count(), Count { files: 2, size: 5 });
    let kept = r.files().unwrap();
    assert_eq!(kept.len(), 2);
    assert_eq!(kept[0].path, "/b");
    assert_eq!(kept[1].path, "/c");
    r.record_range(&files, 2, 2);
    assert_eq!(r.count(), Count { files: 2, size: 5 });
}
