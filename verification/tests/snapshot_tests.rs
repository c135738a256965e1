use snapdiff::file::File;
use snapdiff::snapshot::{FilesByChecksums, Snapshot};
use snapdiff::snapshot_1::{Comparison, Snapshot1};
use snapdiff::snapshot_2::Snapshot2;
use snapdiff::stats::Count;

#[test]
fn test_identical_files() {
    let mut s1 = Snapshot1::new();
    s1.add(File::from_strings("/identical-1", "identical-1"));
    s1.add(File::from_strings("/identical-2", "identical-2"));

    let mut s2 = Snapshot2::new(s1);
    s2.add(File::from_strings("/identical-1", "identical-1"));
    s2.add(File::from_strings("/identical-2", "identical-2"));

    let res = s2.conclude();
    assert_eq!(res.identical.files_count(), 2);
    assert_eq!(res.identical.size(), 22);
    assert_eq!(res.total_snap_1.files_count(), 2);
    assert_eq!(res.total_snap_1.size(), 22);
    assert_eq!(res.total_snap_2.files_count(), 2);
    assert_eq!(res.total_snap_2.size(), 22);
}

#[test]
fn test_modified_files() {
    let mut s1 = Snapshot1::new();
    s1.add(File::from_strings("/modified-1", "modified-1"));
    s1.add(File::from_strings("/modified-2", "modified-2"));

    let mut s2 = Snapshot2::new(s1);
    s2.add(File::from_strings("/modified-1", "modif"));
    s2.add(File::from_strings("/modified-2", "modified-2222"));

    let res = s2.conclude();
    assert_eq!(res.modified_snap_1.files_count(), 2);
    assert_eq!(res.modified_snap_1.size(), 20);
    assert_eq!(res.modified_snap_2.files_count(), 2);
    assert_eq!(res.modified_snap_2.size(), 18);
    assert_eq!(res.total_snap_1.files_count(), 2);
    assert_eq!(res.total_snap_2.files_count(), 2);
}

#[test]
fn test_moved_files() {
    let mut s1 = Snapshot1::new();
    s1.add(File::from_strings("/moved-1", "moved-1"));
    s1.add(File::from_strings("/moved-2", "moved-2"));

    let mut s2 = Snapshot2::new(s1);
    s2.add(File::from_strings("/moved-1111", "moved-1"));
    s2.add(File::from_strings("/moved-2222", "moved-2"));

    let res = s2.conclude();
    assert_eq!(res.moved.files_count(), 2);
    assert_eq!(res.total_snap_1.files_count(), 2);
    assert_eq!(res.total_snap_2.files_count(), 2);
}

#[test]
fn test_added_files() {
    let s1 = Snapshot1::new();

    let mut s2 = Snapshot2::new(s1);
    s2.add(File::from_strings("/added-1", "added"));
    s2.add(File::from_strings("/added-2", "added"));

    let res = s2.conclude();
    assert_eq!(res.added.files_count(), 2);
    assert_eq!(res.total_snap_1.files_count(), 0);
    assert_eq!(res.total_snap_2.files_count(), 2);
}

#[test]
fn test_deleted_files() {
    let mut s1 = Snapshot1::new();
    s1.add(File::from_strings("/deleted-1", "deleted-1"));
    s1.add(File::from_strings("/deleted-2", "deleted-2"));

    let s2 = Snapshot2::new(s1);

    let res = s2.conclude();
    assert_eq!(res.deleted.files_count(), 2);
    assert_eq!(res.total_snap_1.files_count(), 2);
    assert_eq!(res.total_snap_2.files_count(), 0);
}

#[test]
fn test_compare_file() {
    let mut s1 = Snapshot1::new();
    s1.add(File::from_strings("/identical", "identical"));
    s1.add(File::from_strings("/modified", "modified"));
    s1.add(File::from_strings("/moved-1", "moved"));
    s1.add(File::from_strings("/deleted", "deleted"));

    let mut s2 = Snapshot2::new(s1);

    s2.add(File::from_strings("/identical", "identical"));
    s2.add(File::from_strings("/modified", "MODIFIED"));
    s2.add(File::from_strings("/moved-2", "moved"));
    s2.add(File::from_strings("/added", "added"));

    let res = s2.conclude();
    assert_eq!(res.identical.files_count(), 1);
    assert_eq!(res.modified_snap_1.files_count(), 1);
    assert_eq!(res.modified_snap_2.files_count(), 1);
    assert_eq!(res.moved.files_count(), 1);
    assert_eq!(res.deleted.files_count(), 1);
    assert_eq!(res.added.files_count(), 1);
    assert_eq!(res.total_snap_1.files_count(), 4);
    assert_eq!(res.total_snap_2.files_count(), 4);
}

#[test]
fn test_duplicate_files() {
    let mut s1 = Snapshot1::new();
    s1.add(File::from_strings("/b", "1"));
    s1.add(File::from_strings("/c", "1"));

    let mut s2 = Snapshot2::new(s1);
    s2.add(File::from_strings("/a", "1"));
    s2.add(File::from_strings("/b", "1"));

    let res = s2.conclude();
    assert_eq!(res.moved.files_count(), 1);
    assert_eq!(res.identical.files_count(), 1);
}

fn counts(report: &snapdiff::report::Report) -> [Count; 8] {
    [
        report.total_snap_1.count(),
        report.total_snap_2.count(),
        report.identical.count(),
        report.moved.count(),
        report.added.count(),
        report.deleted.count(),
        report.modified_snap_1.count(),
        report.modified_snap_2.count(),
    ]
}

fn compare(snap1: &[(&str, &str)], snap2: &[(&str, &str)]) -> snapdiff::report::Report {
    let mut s1 = Snapshot1::new();
    for (path, contents) in snap1 {
        s1.add(File::from_strings(path, contents));
    }
    let mut s2 = Snapshot2::new(s1);
    for (path, contents) in snap2 {
        s2.add(File::from_strings(path, contents));
    }
    s2.conclude()
}

fn c(files: u64, size: u64) -> Count {
    Count { files, size }
}

#[test]
fn scenario_all_identical() {
    let snap = [("/a", "A1"), ("/b", "B22")];
    let res = compare(&snap, &snap);
    assert_eq!(
        counts(&res),
        [c(2, 5), c(2, 5), c(2, 5), c(0, 0), c(0, 0), c(0, 0), c(0, 0), c(0, 0)]
    );
}

#[test]
fn scenario_pure_modification() {
    let res = compare(&[("/x", "old"), ("/y", "yyyy")], &[("/x", "NEW-X"), ("/y", "y")]);
    assert_eq!(res.modified_snap_1.count(), c(2, 7));
    assert_eq!(res.modified_snap_2.count(), c(2, 6));
    assert_eq!(
        res.modified_snap_2.size() as i128 - res.modified_snap_1.size() as i128,
        -1
    );
    assert_eq!(
        counts(&res),
        [c(2, 7), c(2, 6), c(0, 0), c(0, 0), c(0, 0), c(0, 0), c(2, 7), c(2, 6)]
    );
}

#[test]
fn scenario_pure_move() {
    let res = compare(&[("/a", "1"), ("/b", "2")], &[("/aa", "1"), ("/bb", "2")]);
    assert_eq!(
        counts(&res),
        [c(2, 2), c(2, 2), c(0, 0), c(2, 2), c(0, 0), c(0, 0), c(0, 0), c(0, 0)]
    );
    let moved = res.moved.files().unwrap();
    assert_eq!(moved[0].path, "/a");
    assert_eq!(moved[1].path, "/b");
}

#[test]
fn scenario_pure_add_and_delete() {
    let res = compare(&[("/g", "gone")], &[("/n", "newfile")]);
    assert_eq!(res.added.count(), c(1, 7));
    assert_eq!(res.deleted.count(), c(1, 4));
    assert_eq!(
        counts(&res),
        [c(1, 4), c(1, 7), c(0, 0), c(0, 0), c(1, 7), c(1, 4), c(0, 0), c(0, 0)]
    );
    assert_eq!(res.added.files().unwrap()[0].path, "/n");
    assert_eq!(res.deleted.files().unwrap()[0].path, "/g");
}

#[test]
fn scenario_mixed() {
    let res = compare(
        &[("/i", "identical"), ("/m", "modified"), ("/mv1", "moved"), ("/d", "deleted")],
        &[("/i", "identical"), ("/m", "MODIFIED"), ("/mv2", "moved"), ("/add", "added")],
    );
    assert_eq!(
        counts(&res),
        [c(4, 29), c(4, 27), c(1, 9), c(1, 5), c(1, 5), c(1, 7), c(1, 8), c(1, 8)]
    );
    assert_eq!(res.moved.files().unwrap()[0].path, "/mv1");
    assert_eq!(res.modified_snap_2.files().unwrap()[0].path, "/m");
}

#[test]
fn scenario_duplicate_content() {
    let res = compare(&[("/b", "1"), ("/c", "1")], &[("/a", "1"), ("/b", "1")]);
    assert_eq!(res.identical.count(), c(1, 1));
    assert_eq!(res.moved.count(), c(1, 1));
    assert_eq!(
        counts(&res),
        [c(2, 2), c(2, 2), c(1, 1), c(1, 1), c(0, 0), c(0, 0), c(0, 0), c(0, 0)]
    );
    assert_eq!(res.moved.files().unwrap()[0].path, "/c");
}

#[test]
fn empty_files_at_different_paths_are_moved() {
    let res = compare(&[("/old", "")], &[("/new", "")]);
    assert_eq!(
        counts(&res),
        [c(1, 0), c(1, 0), c(0, 0), c(1, 0), c(0, 0), c(0, 0), c(0, 0), c(0, 0)]
    );
    assert_eq!(File::from_strings("/old", "").check_sum, 0);
}

#[test]
fn same_size_with_other_contents_is_modified() {
    let res = compare(&[("/f", "abc"), ("/g", "xyz")], &[("/f", "xyz")]);
    assert_eq!(res.modified_snap_1.count(), c(1, 3));
    assert_eq!(res.modified_snap_2.count(), c(1, 3));
    assert_eq!(res.moved.count(), c(0, 0));
    assert_eq!(res.deleted.count(), c(1, 3));
}

#[test]
fn surplus_of_duplicates_is_added_or_deleted() {
    let res = compare(
        &[("/a1", "dup"), ("/a2", "dup"), ("/a3", "dup")],
        &[("/b1", "dup")],
    );
    assert_eq!(res.moved.count(), c(1, 3));
    assert_eq!(res.deleted.count(), c(2, 6));
    assert_eq!(res.added.count(), c(0, 0));
    assert_eq!(res.moved.files().unwrap()[0].path, "/a1");
    let deleted = res.deleted.files().unwrap();
    assert_eq!(deleted[0].path, "/a2");
    assert_eq!(deleted[1].path, "/a3");

    let res = compare(
        &[("/a1", "dup")],
        &[("/b1", "dup"), ("/b2", "dup"), ("/b3", "dup")],
    );
    assert_eq!(res.moved.count(), c(1, 3));
    assert_eq!(res.added.count(), c(2, 6));
    assert_eq!(res.deleted.count(), c(0, 0));
    assert_eq!(res.moved.files().unwrap()[0].path, "/a1");
    let added = res.added.files().unwrap();
    assert_eq!(added[0].path, "/b2");
    assert_eq!(added[1].path, "/b3");
}

#[test]
fn totals_are_the_sums_of_the_categories() {
    let res = compare(
        &[("/i", "identical"), ("/m", "modified"), ("/mv1", "moved"), ("/d", "deleted"), ("/d2", "moved")],
        &[("/i", "identical"), ("/m", "MODIFIED"), ("/mv2", "moved"), ("/add", "added")],
    );
    let [t1, t2, idn, mvd, add, del, m1, m2] = counts(&res);
    assert_eq!(t1.files, idn.files + mvd.files + del.files + m1.files);
    assert_eq!(t1.size, idn.size + mvd.size + del.size + m1.size);
    assert_eq!(t2.files, idn.files + mvd.files + add.files + m2.files);
    assert_eq!(m1.files, m2.files);
}

#[test]
fn the_order_of_adding_does_not_change_the_counts() {
    let snap1 = [("/i", "identical"), ("/m", "modified"), ("/mv1", "moved"), ("/d", "deleted"), ("/x", "moved")];
    let snap2 = [("/i", "identical"), ("/m", "MODIFIED"), ("/mv2", "moved"), ("/add", "added")];
    let turned1 = [("/x", "moved"), ("/d", "deleted"), ("/i", "identical"), ("/mv1", "moved"), ("/m", "modified")];
    let turned2 = [("/add", "added"), ("/mv2", "moved"), ("/m", "MODIFIED"), ("/i", "identical")];
    let a = compare(&snap1, &snap2);
    let b = compare(&turned1, &turned2);
    assert_eq!(counts(&a), counts(&b));
    assert_eq!(
        counts(&a),
        [c(5, 34), c(4, 27), c(1, 9), c(1, 5), c(1, 5), c(2, 12), c(1, 8), c(1, 8)]
    );
}

#[test]
fn swapped_snapshots_swap_added_and_deleted() {
    let snap1 = [("/i", "identical"), ("/m", "modified"), ("/mv1", "moved"), ("/d", "deleted")];
    let snap2 = [("/i", "identical"), ("/m", "MODIFIED!"), ("/mv2", "moved"), ("/add", "added"), ("/add2", "also added")];
    let [t1, t2, idn, mvd, add, del, m1, m2] = counts(&compare(&snap1, &snap2));
    let [s1, s2, sidn, smvd, sadd, sdel, sm1, sm2] = counts(&compare(&snap2, &snap1));
    assert_eq!(s1, t2);
    assert_eq!(s2, t1);
    assert_eq!(sadd, del);
    assert_eq!(sdel, add);
    assert_eq!(sm1, m2);
    assert_eq!(sm2, m1);
    assert_eq!(sidn, idn);
    assert_eq!(smvd, mvd);
    assert_eq!(add, c(2, 15));
    assert_eq!(del, c(1, 7));
}

#[test]
fn snapshot_1_digests_by_path() {
    let mut s1 = Snapshot1::new();
    s1.add(File::from_strings("/same", "same"));
    s1.add(File::from_strings("/changed", "before"));
    assert!(s1.contains_path(&"/same".to_string()));
    assert!(!s1.contains_path(&"/other".to_string()));
    assert_eq!(s1.total().count(), c(2, 10));

    assert!(s1.digest(&File::from_strings("/other", "same")).is_none());
    assert!(s1.contains_path(&"/same".to_string()));

    let (comparison, f1) = s1.digest(&File::from_strings("/same", "same")).unwrap();
    assert_eq!(comparison, Comparison::Identical);
    assert_eq!(f1, File::from_strings("/same", "same"));
    assert!(!s1.contains_path(&"/same".to_string()));
    assert!(s1.digest(&File::from_strings("/same", "same")).is_none());

    let (comparison, f1) = s1.digest(&File::from_strings("/changed", "after")).unwrap();
    assert_eq!(comparison, Comparison::Modified);
    assert_eq!(f1, File::from_strings("/changed", "before"));
    assert_eq!(s1.total().count(), c(2, 10));
}

#[test]
fn snapshot_1_concludes_into_an_index_by_checksum() {
    let mut s1 = Snapshot1::new();
    s1.add(File::from_strings("/a", "one"));
    s1.add(File::from_strings("/b", "two"));
    s1.add(File::from_strings("/c", "one"));
    let (total, mut index) = s1.conclude();
    assert_eq!(total.count(), c(3, 9));
    assert_eq!(index.len(), 2);
    let one = File::from_strings("", "one").check_sum;
    let two = File::from_strings("", "two").check_sum;
    let (key, files) = index.entry(0);
    assert_eq!(key, one);
    assert_eq!(files.len(), 2);
    assert_eq!(files[0].path, "/a");
    assert_eq!(files[1].path, "/c");
    assert_eq!(index.entry(1).0, two);
    assert_eq!(index.withdraw(&one).unwrap().path, "/a");
    assert_eq!(index.withdraw(&one).unwrap().path, "/c");
    assert!(index.withdraw(&one).is_none());

    assert_eq!(s1.total().count(), c(0, 0));
    let (total, index) = s1.conclude();
    assert_eq!(total.count(), c(0, 0));
    assert_eq!(index.len(), 0);
}

#[test]
fn files_by_checksums_hands_files_out_first_in_first_out() {
    let mut index = FilesByChecksums::new();
    assert_eq!(index.len(), 0);
    assert!(index.withdraw(&1).is_none());
    index.add(File::new("/a".to_string(), 1, 10));
    index.add(File::new("/b".to_string(), 2, 20));
    index.add(File::new("/c".to_string(), 3, 10));
    assert_eq!(index.len(), 2);
    assert_eq!(index.files_of(10).unwrap().len(), 2);
    assert_eq!(index.files_of(20).unwrap().len(), 1);
    assert!(index.files_of(30).is_none());

    assert_eq!(index.withdraw(&10).unwrap().path, "/a");
    assert_eq!(index.len(), 2);
    assert_eq!(index.withdraw(&10).unwrap().path, "/c");
    assert_eq!(index.len(), 1);
    assert!(index.withdraw(&10).is_none());
    assert!(index.files_of(10).is_none());
    assert_eq!(index.entry(0).0, 20);
}

#[test]
fn files_by_checksums_drains_in_the_order_of_first_adding() {
    let mut index = FilesByChecksums::new();
    index.add(File::new("/a".to_string(), 1, 10));
    index.add(File::new("/b".to_string(), 2, 20));
    index.add(File::new("/c".to_string(), 3, 10));
    let entries = index.drain();
    assert_eq!(index.len(), 0);
    assert_eq!(entries.len(), 2);
    assert_eq!(entries[0].0, 10);
    assert_eq!(entries[0].1.len(), 2);
    assert_eq!(entries[0].1[0].path, "/a");
    assert_eq!(entries[0].1[1].path, "/c");
    assert_eq!(entries[1].0, 20);
    assert_eq!(entries[1].1[0].path, "/b");
    assert_eq!(index.drain().len(), 0);
}

#[test]
fn compare_files_reports_as_adding_one_by_one_does() {
    let files = |snap: &[(&str, &str)]| -> Vec<File> {
        snap.iter().map(|(p, c)| File::from_strings(p, c)).collect()
    };
    let snap1 = [("/i", "identical"), ("/m", "modified"), ("/mv1", "moved"), ("/d", "deleted")];
    let snap2 = [("/i", "identical"), ("/m", "MODIFIED"), ("/mv2", "moved"), ("/add", "added")];
    let res = snapdiff::compare::compare_files(&files(&snap1), &files(&snap2)).unwrap();
    assert_eq!(counts(&res), counts(&compare(&snap1, &snap2)));
    assert_eq!(
        counts(&res),
        [c(4, 29), c(4, 27), c(1, 9), c(1, 5), c(1, 5), c(1, 7), c(1, 8), c(1, 8)]
    );
    let empty = snapdiff::compare::compare_files(&files(&[]), &files(&[])).unwrap();
    assert_eq!(counts(&empty), [c(0, 0); 8]);
}

#[test]
fn compare_files_refuses_what_cannot_be_compared() {
    let twice = vec![File::from_strings("/a", "1"), File::from_strings("/a", "2")];
    let once = vec![File::from_strings("/a", "1")];
    assert!(snapdiff::compare::compare_files(&twice, &once).is_none());
    assert!(snapdiff::compare::compare_files(&once, &twice).is_some());
    let huge = vec![
        File::new("/x".to_string(), u64::MAX, 1),
        File::new("/y".to_string(), 1, 2),
    ];
    assert!(snapdiff::compare::compare_files(&huge, &once).is_none());
    assert!(snapdiff::compare::compare_files(&once, &huge).is_none());
    let large = vec![File::new("/x".to_string(), u64::MAX, 1)];
    assert!(snapdiff::compare::compare_files(&large, &large).is_some());
}

#[test]
fn snapshots_tell_what_they_accept() {
    let mut s1 = Snapshot1::new();
    let a = File::from_strings("/a", "1");
    assert!(s1.accepts(&a));
    s1.add(a.clone());
    assert!(!s1.accepts(&a));
    assert!(!s1.accepts(&File::from_strings("/a", "other")));
    assert!(s1.accepts(&File::from_strings("/b", "1")));
    assert!(!s1.accepts(&File::new("/c".to_string(), u64::MAX, 0)));
    let mut s2 = Snapshot2::new(s1);
    assert!(s2.accepts(&a));
    s2.add(a.clone());
    assert!(s2.accepts(&a));
    assert!(!s2.accepts(&File::new("/c".to_string(), u64::MAX, 0)));
}

#[test]
fn files_by_checksums_finds_entries_after_one_has_left() {
    let mut index = FilesByChecksums::new();
    index.add(File::new("/a".to_string(), 1, 10));
    index.add(File::new("/b".to_string(), 2, 20));
    index.add(File::new("/c".to_string(), 3, 30));
    index.add(File::new("/d".to_string(), 4, 20));
    index.add(File::new("/e".to_string(), 5, 40));
    assert_eq!(index.withdraw(&20).unwrap().path, "/b");
    assert_eq!(index.len(), 4);
    assert_eq!(index.withdraw(&10).unwrap().path, "/a");
    assert_eq!(index.len(), 3);
    assert_eq!(index.entry(0).0, 20);
    assert_eq!(index.entry(1).0, 30);
    assert_eq!(index.entry(2).0, 40);
    assert!(index.files_of(10).is_none());
    assert_eq!(index.files_of(20).unwrap()[0].path, "/d");
    assert_eq!(index.files_of(30).unwrap()[0].path, "/c");
    assert_eq!(index.files_of(40).unwrap()[0].path, "/e");

    index.add(File::new("/f".to_string(), 6, 30));
    index.add(File::new("/g".to_string(), 7, 10));
    assert_eq!(index.len(), 4);
    assert_eq!(index.entry(3).0, 10);
    assert_eq!(index.files_of(30).unwrap().len(), 2);
    assert_eq!(index.files_of(30).unwrap()[1].path, "/f");

    assert_eq!(index.withdraw(&30).unwrap().path, "/c");
    assert_eq!(index.withdraw(&30).unwrap().path, "/f");
    assert!(index.withdraw(&30).is_none());
    assert_eq!(index.withdraw(&40).unwrap().path, "/e");
    assert_eq!(index.withdraw(&10).unwrap().path, "/g");
    assert_eq!(index.withdraw(&20).unwrap().path, "/d");
    assert_eq!(index.len(), 0);
    assert!(index.withdraw(&20).is_none());
    index.add(File::new("/h".to_string(), 8, 20));
    assert_eq!(index.entry(0).0, 20);
}

#[test]
fn snapshot_1_keeps_the_order_of_adding_around_claimed_files() {
    let mut s1 = Snapshot1::new();
    for (path, contents) in [("/a", "x"), ("/b", "y"), ("/c", "x"), ("/d", "y"), ("/e", "x")] {
        s1.add(File::from_strings(path, contents));
    }
    assert!(s1.digest(&File::from_strings("/c", "x")).is_some());
    assert!(s1.digest(&File::from_strings("/a", "changed")).is_some());
    assert!(!s1.contains_path(&"/a".to_string()));
    assert!(s1.contains_path(&"/b".to_string()));
    assert!(!s1.contains_path(&"/c".to_string()));
    assert!(s1.contains_path(&"/e".to_string()));
    assert!(s1.accepts(&File::from_strings("/a", "again")));
    s1.add(File::from_strings("/a", "y"));
    assert!(s1.contains_path(&"/a".to_string()));

    let (total, index) = s1.conclude();
    assert_eq!(total.count(), c(6, 6));
    assert_eq!(index.len(), 2);
    let (key, files) = index.entry(0);
    assert_eq!(key, File::from_strings("", "y").check_sum);
    let paths: Vec<&str> = files.iter().map(|f| f.path.as_str()).collect();
    assert_eq!(paths, vec!["/b", "/d", "/a"]);
    let (key, files) = index.entry(1);
    assert_eq!(key, File::from_strings("", "x").check_sum);
    assert_eq!(files.len(), 1);
    assert_eq!(files[0].path, "/e");
    assert!(!s1.contains_path(&"/b".to_string()));
}

#[test]
fn many_files_are_compared_quickly() {
    let mut s1 = Snapshot1::new();
    for i in 0..20_000u64 {
        s1.add(File::new(format!("/dir/{}", i), i % 7, i));
    }
    let mut s2 = Snapshot2::new(s1);
    for i in 0..20_000u64 {
        if i % 2 == 0 {
            s2.add(File::new(format!("/dir/{}", i), i % 7, i));
        } else {
            s2.add(File::new(format!("/moved/{}", i), i % 7, i));
        }
    }
    let res = s2.conclude();
    assert_eq!(res.identical.files_count(), 10_000);
    assert_eq!(res.moved.files_count(), 10_000);
    assert_eq!(res.added.files_count(), 0);
    assert_eq!(res.deleted.files_count(), 0);
}
