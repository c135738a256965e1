use snapdiff::file::File;
use snapdiff::printer::{Colours, MockPrinter, Printer, TerminalPrinter, SNP1, SNP2};
use snapdiff::report::Report;
use snapdiff::snapshot::Snapshot;
use snapdiff::snapshot_1::Snapshot1;
use snapdiff::snapshot_2::Snapshot2;

fn compare(snap1: &[(&str, &str)], snap2: &[(&str, &str)]) -> Report {
    let mut s1 = Snapshot1::new();
    for (path, contents) in snap1 {
        s1.add(File::from_strings(path, contents));
    }
    let mut s2 = Snapshot2::new(s1);
    for (path, contents) in snap2 {
        s2.add(File::from_strings(path, contents));
    }
    s2.conclude()
}

#[test]
fn new_report_is_empty_and_keeps_four_lists() {
    let r = Report::new();
    assert_eq!(r.total_snap_1.files_count(), 0);
    assert_eq!(r.total_snap_2.size(), 0);
    assert!(r.total_snap_1.files().is_none());
    assert!(r.total_snap_2.files().is_none());
    assert!(r.identical.files().is_none());
    assert!(r.modified_snap_1.files().is_none());
    assert_eq!(r.moved.files().unwrap().len(), 0);
    assert_eq!(r.added.files().unwrap().len(), 0);
    assert_eq!(r.deleted.files().unwrap().len(), 0);
    assert_eq!(r.modified_snap_2.files().unwrap().len(), 0);
}

#[test]
fn detailed_list_of_an_empty_report() {
    let mut printer = MockPrinter::new();
    Report::new().detailed_list(&mut printer);
    assert_eq!(
        printer.flush(),
        "#sn1 0 (0 files)\n#sn2 0 (0 files)\n=idn 0 (0 files)\n"
    );
}

#[test]
fn detailed_list_names_every_file_but_the_identical() {
    let res = compare(
        &[("i", "identical"), ("m", "modified"), ("dir/mv1", "moved"), ("d", "deleted")],
        &[("i", "identical"), ("m", "MODIFIED!"), ("mv2", "moved"), ("add", "added")],
    );
    let mut printer = MockPrinter::new();
    printer.print("before\n".to_string());
    res.detailed_list(&mut printer);
    assert_eq!(
        printer.flush(),
        "before\n\
         #sn1 29 (4 files)\n\
         #sn2 28 (4 files)\n\
         =idn 9 (1 files)\n\
         >mvd 5 dir/mv1\n\
         +add 5 add\n\
         -del 7 d\n\
         *mdf 9 m\n"
    );
}

#[test]
fn detailed_list_writes_sizes_without_separators() {
    let mut s1 = Snapshot1::new();
    s1.add(File::new("big".to_string(), 1_234_567, 1));
    let res = Snapshot2::new(s1).conclude();
    let mut printer = MockPrinter::new();
    res.detailed_list(&mut printer);
    assert_eq!(
        printer.flush(),
        "#sn1 1234567 (1 files)\n#sn2 0 (0 files)\n=idn 0 (0 files)\n-del 1234567 big\n"
    );
}

#[test]
fn summary_without_colours() {
    let res = compare(&[("/x", "old"), ("/y", "yyyy")], &[("/x", "NEW-X"), ("/y", "y")]);
    let text = res.summary(TerminalPrinter::new_plain());
    let expected = "\n\
\x20                       FILES     BYTES\n\
\x20                                 K   B\n\
TOTAL       Snap 1          2         7\n\
\x20           Snap 2          2         6\n\
\x20           \n\
OF WHICH    Identical       0         0\n\
\x20           Moved           0         0\n\
\x20           Added           0         0\n\
\x20           Deleted         0         0\n\
\x20           Modified        2         6 (-1)\n";
    assert_eq!(text, expected);
}

#[test]
fn summary_widens_its_columns_for_large_numbers() {
    let mut s1 = Snapshot1::new();
    s1.add(File::new("a".to_string(), 1_234_567, 1));
    let mut s2 = Snapshot2::new(s1);
    s2.add(File::new("a".to_string(), 1_234_567, 1));
    let text = s2.conclude().summary(TerminalPrinter::new_plain());
    let expected = "\n\
\x20                       FILES         BYTES\n\
\x20                                 M   K   B\n\
TOTAL       Snap 1          1     1,234,567\n\
\x20           Snap 2          1     1,234,567\n\
\x20           \n\
OF WHICH    Identical       1     1,234,567\n\
\x20           Moved           0             0\n\
\x20           Added           0             0\n\
\x20           Deleted         0             0\n\
\x20           Modified        0             0 (\u{b1}0)\n";
    assert_eq!(text, expected);
}

#[test]
fn summary_shows_growth_with_a_plus_sign() {
    let res = compare(&[("/x", "a")], &[("/x", "abcd")]);
    let text = res.summary(TerminalPrinter::new_plain());
    assert!(text.ends_with("Modified        1         4 (+3)\n"));
}

#[test]
fn summary_with_markers_wider_than_their_letters() {
    let mut s1 = Snapshot1::new();
    s1.add(File::new("a".to_string(), 10_000_000_000_000_000, 1));
    let text = Snapshot2::new(s1).conclude().summary(TerminalPrinter::new_plain());
    let lines: Vec<&str> = text.split('\n').collect();
    assert_eq!(lines[1], format!("{}FILES{}BYTES", " ".repeat(24), " ".repeat(5 + 17)));
    assert_eq!(
        lines[2],
        format!("{}{}T   G   M   K   B", " ".repeat(34), " ".repeat(5))
    );
    assert_eq!(
        lines[3],
        "TOTAL       Snap 1          1     10,000,000,000,000,000"
    );
}

#[test]
fn summary_with_colours() {
    let res = compare(&[("/x", "old")], &[("/x", "new")]);
    let text = res.summary(TerminalPrinter::new());
    let lines: Vec<&str> = text.split('\n').collect();
    assert_eq!(lines.len(), 12);
    assert_eq!(lines[0], "");
    assert_eq!(
        lines[1],
        "\x1b[1m                        FILES     BYTES\x1b[0m"
    );
    assert_eq!(
        lines[2],
        "\x1b[1m            \x1b[0m\x1b[38;5;237m                      K   B\x1b[0m"
    );
    assert_eq!(
        lines[3],
        "\x1b[1mTOTAL       \x1b[0m\x1b[38;5;253mSnap 1          1         3\x1b[0m"
    );
    assert_eq!(lines[5], "\x1b[1m            \x1b[0m\x1b[38;5;253m");
    assert_eq!(
        lines[6],
        "\x1b[1mOF WHICH    \x1b[0m\x1b[38;5;039mIdentical       0         0\x1b[0m"
    );
    assert_eq!(
        lines[8],
        "\x1b[1m            \x1b[0m\x1b[38;5;082mAdded           0         0\x1b[0m"
    );
    assert_eq!(
        lines[9],
        "\x1b[1m            \x1b[0m\x1b[38;5;202mDeleted         0         0\x1b[0m"
    );
    assert_eq!(
        lines[10],
        "\x1b[1m            \x1b[0m\x1b[38;5;220mModified        1         3\x1b[38;5;094m (\u{b1}0)\x1b[0m"
    );
    assert_eq!(lines[11], "");
}

#[test]
fn terminal_printers_carry_their_colours() {
    let coloured = TerminalPrinter::new();
    assert_eq!(coloured.colours.reset, "\x1b[0m");
    assert_eq!(coloured.colours.bold, "\x1b[1m");
    assert_eq!(coloured.colours.gray, "\x1b[38;5;246m");
    assert_eq!(coloured.colours.blank, "");
    let plain = TerminalPrinter::new_plain();
    assert_eq!(plain.colours.reset, "");
    assert_eq!(plain.colours.red, "");
    assert_eq!(Colours::plain().brown, "");
    assert_eq!(Colours::coloured().brown, "\x1b[38;5;094m");
    assert_eq!(SNP1, "Snap 1");
    assert_eq!(SNP2, "Snap 2");
}

#[test]
fn mock_printer_keeps_what_is_printed_until_flushed() {
    let mut printer = MockPrinter::new();
    assert_eq!(printer.flush(), "");
    printer.print("one ".to_string());
    printer.print("two".to_string());
    assert_eq!(printer.colours().reset, "");
    assert_eq!(printer.flush(), "one two");
    assert_eq!(printer.flush(), "");
}
