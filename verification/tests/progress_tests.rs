use snapdiff::printer::MockPrinter;
use snapdiff::progress::Progress;
use snapdiff::stats::Count;
use std::ops::Sub;
use std::time::{Duration, Instant};

#[test]
fn print_process() {
    let p = MockPrinter::new();
    let mut progress = Progress::new(p, "Snap", None);
    progress.scan_start();
    assert_eq!(progress.printer.flush(), "Snap: Indexing...");
    let count = {
        let mut c = Count::new();
        c.add(61772, 57718293);
        c
    };
    progress.scan_done(count, Count::new(), Count::new());
    assert_eq!(
        progress.printer.flush(),
        "\rSnap: Indexed:     61,772 files   57.7 M\n"
    );
    progress.process_inc(182, 75913);
    assert_eq!(
        progress.printer.flush(),
        "\r      Processing:     182 files   75.9 K     0 %     0s   "
    );
    progress.last_trigger = Instant::now().sub(Duration::from_millis(600));
    assert_eq!(progress.printer.flush(), "");
    progress.last_trigger = Instant::now().sub(Duration::from_millis(700));
    progress.process_inc(8172, 1312425);
    assert_eq!(
        progress.printer.flush(),
        "\r      Processing:   8,354 files    1.3 M     2 %     0s   [  1.8 M/s]"
    );
    progress.process_inc(53418, 56329955);
    progress.process_done();
    assert_eq!(
        progress.printer.flush(),
        "\r      Processing:  61,772 files   57.7 M   100 %     0s              \n"
    );
}

#[test]
fn print_process_with_alignment() {
    let p = MockPrinter::new();
    let previous = {
        let mut c = Count::new();
        c.add(158176, 1902);
        c
    };
    let mut progress = Progress::new(p, "Snap", Some(previous));
    progress.scan_start();
    progress.printer.flush(); // Indexing...
    let count = {
        let mut c = Count::new();
        c.add(3, 910);
        c
    };
    progress.scan_done(count, Count::new(), Count::new());
    assert_eq!(
        progress.printer.flush(),
        "\rSnap: Indexed:           3 files    910 B\n"
    );
}

fn started(files: u64, size: u64) -> Progress<MockPrinter> {
    let mut progress = Progress::new(MockPrinter::new(), "Snap 1", None);
    progress.scan_done(Count { files, size }, Count::new(), Count::new());
    progress.printer.flush();
    progress
}

#[test]
fn scan_done_reports_what_was_skipped() {
    let mut progress = Progress::new(MockPrinter::new(), "Snap", None);
    progress.scan_done(
        Count { files: 12, size: 3_400 },
        Count { files: 2, size: 0 },
        Count { files: 0, size: 0 },
    );
    assert_eq!(
        progress.printer.flush(),
        "\rSnap: Indexed:        12 files    3.4 K   (skipped 2 files, 0 dirs)\n"
    );
    progress.scan_done(
        Count { files: 12, size: 3_400 },
        Count { files: 0, size: 0 },
        Count { files: 5, size: 0 },
    );
    assert_eq!(
        progress.printer.flush(),
        "\rSnap: Indexed:        12 files    3.4 K   (skipped 0 files, 5 dirs)\n"
    );
}

#[test]
fn files_display_length_leaves_room_for_a_thousand_more() {
    let mut progress = Progress::new(MockPrinter::new(), "Snap", None);
    assert_eq!(progress.files_display_length(), 5);
    progress.scan_done(Count { files: 9_000, size: 1 }, Count::new(), Count::new());
    assert_eq!(progress.files_display_length(), 6);
    let aligned = Progress::new(
        MockPrinter::new(),
        "Snap",
        Some(Count { files: 999_000, size: 1 }),
    );
    assert_eq!(aligned.files_display_length(), 9);
}

#[test]
fn advance_paints_at_the_first_time_whatever_the_clock_says() {
    let mut progress = started(10, 1_000);
    assert!(progress.advance(1, 100, 0, false, 0));
    assert_eq!(
        progress.printer.flush(),
        "\r        Processing:      1 files    100 B    10 %     0s   "
    );
    let mut progress = started(10, 1_000);
    assert!(progress.advance(1, 100, 5, false, 61));
    assert_eq!(
        progress.printer.flush(),
        "\r        Processing:      1 files    100 B    10 %    1m 1s   [ 20.0 K/s]"
    );
}

#[test]
fn advance_waits_for_666_milliseconds_between_repaints() {
    let mut progress = started(10, 1_000);
    assert!(!progress.advance(1, 100, 665, true, 0));
    assert_eq!(progress.printer.flush(), "");
    assert!(!progress.advance(1, 100, 0, true, 0));
    assert_eq!(progress.printer.flush(), "");
    assert!(progress.advance(1, 100, 666, true, 7));
    assert_eq!(
        progress.printer.flush(),
        "\r        Processing:      3 files    300 B    30 %     7s   [  450 B/s]"
    );
    assert!(progress.advance(0, 50, 1_000, true, 8));
    assert_eq!(
        progress.printer.flush(),
        "\r        Processing:      3 files    350 B    35 %     8s   [   50 B/s]"
    );
}

#[test]
fn finish_paints_the_line_without_a_rate_and_ends_it() {
    let mut progress = started(2, 2_000);
    progress.advance(2, 2_000, 700, true, 3_600);
    progress.printer.flush();
    progress.finish(3_725);
    assert_eq!(
        progress.printer.flush(),
        "\r        Processing:      2 files    2.0 K   100 %    1h 2m 5s              \n"
    );
}

#[test]
fn progress_tells_what_it_can_count() {
    let mut progress = Progress::new(MockPrinter::new(), "Snap", None);
    assert!(progress.accepts(0, 0));
    progress.scan_done(Count { files: 1, size: 10 }, Count::new(), Count::new());
    assert!(progress.accepts(1, 10));
    assert!(progress.accepts(u64::MAX, u64::MAX));
    progress.advance(1, 10, 0, false, 0);
    assert!(!progress.accepts(u64::MAX, 0));
    assert!(!progress.accepts(0, u64::MAX));
    assert!(progress.accepts(u64::MAX - 1, u64::MAX - 10));
}

#[test]
fn progress_of_a_snapshot_without_bytes() {
    let mut progress = Progress::new(MockPrinter::new(), "Snap", None);
    progress.scan_done(Count { files: 2, size: 0 }, Count::new(), Count::new());
    assert_eq!(
        progress.printer.flush(),
        "\rSnap: Indexed:         2 files      0 B\n"
    );
    assert!(progress.accepts(0, 0));
    assert!(progress.advance(0, 0, 0, false, 0));
    assert_eq!(
        progress.printer.flush(),
        "\r      Processing:      0 files      0 B   100 %     0s   "
    );
    assert!(!progress.advance(1, 0, 10, true, 0));
    assert!(progress.advance(1, 0, 700, true, 1));
    assert_eq!(
        progress.printer.flush(),
        "\r      Processing:      2 files      0 B   100 %     1s   [    0 B/s]"
    );
    progress.finish(1);
    assert_eq!(
        progress.printer.flush(),
        "\r      Processing:      2 files      0 B   100 %     1s              \n"
    );
    progress.process_inc(0, 0);
    progress.process_done();
}

#[test]
fn progress_of_an_empty_snapshot() {
    let mut progress = Progress::new(MockPrinter::new(), "Snap", None);
    progress.scan_done(Count::new(), Count::new(), Count::new());
    progress.printer.flush();
    progress.process_inc(0, 0);
    assert!(progress
        .printer
        .flush()
        .starts_with("\r      Processing:      0 files      0 B   100 %     0s   "));
    progress.process_done();
    assert_eq!(
        progress.printer.flush(),
        "\r      Processing:      0 files      0 B   100 %     0s              \n"
    );
}

#[test]
fn progress_in_colours() {
    let mut progress = Progress::new(
        MockPrinter::with_colours(snapdiff::printer::Colours::coloured()),
        "Snap",
        None,
    );
    progress.scan_start();
    assert_eq!(
        progress.printer.flush(),
        "\x1b[38;5;246mSnap: Indexing...\x1b[0m"
    );
}
