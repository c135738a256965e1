//! The outcome of a comparison: one accumulator for each total and each
//! category.

use vstd::prelude::*;
use vstd::string::{StrSliceExecFns, StringExecFns};
use crate::file::{views, File, FileView};
use crate::format::{
    append_number, dec, dec_signed, digits, explicitly_signed, pad_left, right_aligned, signed,
};
use crate::printer::{Colours, Printer, TerminalPrinter, SNP1, SNP2};
use crate::stats::{Stats, StatsView, Tally};

verus! {

/// What a report holds, as a mathematical value.
pub ghost struct ReportView {
    pub total_snap_1: StatsView,
    pub total_snap_2: StatsView,
    pub identical: StatsView,
    pub moved: StatsView,
    pub added: StatsView,
    pub deleted: StatsView,
    pub modified_snap_1: StatsView,
    pub modified_snap_2: StatsView,
}

impl ReportView {
    /// The empty report. Moved, added, deleted and the second snapshot's
    /// modified files are kept for the detailed list; the rest is counted
    /// only.
    pub open spec fn new() -> ReportView {
        ReportView {
            total_snap_1: StatsView::empty(false),
            total_snap_2: StatsView::empty(false),
            identical: StatsView::empty(false),
            moved: StatsView::empty(true),
            added: StatsView::empty(true),
            deleted: StatsView::empty(true),
            modified_snap_1: StatsView::empty(false),
            modified_snap_2: StatsView::empty(true),
        }
    }
}

/// The result of comparing two snapshots.
#[derive(Debug)]
pub struct Report {
    pub total_snap_1: Stats,
    pub total_snap_2: Stats,
    pub identical: Stats,
    pub moved: Stats,
    pub added: Stats,
    pub deleted: Stats,
    pub modified_snap_1: Stats,
    pub modified_snap_2: Stats,
}

impl View for Report {
    type V = ReportView;

    open spec fn view(&self) -> ReportView {
        ReportView {
            total_snap_1: self.total_snap_1@,
            total_snap_2: self.total_snap_2@,
            identical: self.identical@,
            moved: self.moved@,
            added: self.added@,
            deleted: self.deleted@,
            modified_snap_1: self.modified_snap_1@,
            modified_snap_2: self.modified_snap_2@,
        }
    }
}

impl Report {
    pub fn new() -> (r: Report)
        ensures
            r@ == ReportView::new(),
    {
        Report {
            total_snap_1: Stats::new(),
            total_snap_2: Stats::new(),
            identical: Stats::new(),
            moved: Stats::new_with_file_storage(),
            added: Stats::new_with_file_storage(),
            deleted: Stats::new_with_file_storage(),
            modified_snap_1: Stats::new(),
            modified_snap_2: Stats::new_with_file_storage(),
        }
    }
}

/// A line of the detailed list that gives a total: the tag, the bytes and,
/// in brackets, the files.
pub open spec fn count_line(tag: Seq<char>, count: Tally) -> Seq<char> {
    tag + digits(count.size) + " ("@ + digits(count.files) + " files)\n"@
}

/// A line of the detailed list that names a file: the tag, the file's
/// size and its path.
pub open spec fn file_line(tag: Seq<char>, f: FileView) -> Seq<char> {
    tag + digits(f.size as nat) + " "@ + f.path + "\n"@
}

/// One line for each file, in order.
pub open spec fn file_lines(tag: Seq<char>, files: Seq<FileView>) -> Seq<char>
    decreases files.len(),
{
    if files.len() == 0 {
        Seq::empty()
    } else {
        file_lines(tag, files.drop_last()) + file_line(tag, files.last())
    }
}

/// The detailed list: the two totals and the identical files as counts,
/// then the moved, added, deleted and modified files one by one.
pub open spec fn detailed_text(r: ReportView) -> Seq<char> {
    count_line("#sn1 "@, r.total_snap_1.count) + count_line("#sn2 "@, r.total_snap_2.count)
        + count_line("=idn "@, r.identical.count) + file_lines(">mvd "@, r.moved.files)
        + file_lines("+add "@, r.added.files) + file_lines("-del "@, r.deleted.files) + file_lines(
        "*mdf "@,
        r.modified_snap_2.files,
    )
}

/// The width of the widest of some texts.
pub open spec fn widest(texts: Seq<Seq<char>>) -> nat
    decreases texts.len(),
{
    if texts.len() == 0 {
        0
    } else {
        let before = widest(texts.drop_last());
        if texts.last().len() > before {
            texts.last().len()
        } else {
            before
        }
    }
}

/// The letters that mark every fourth digit of a number of bytes, as far
/// as the column of that width shows them.
pub open spec fn byte_markers(width: nat) -> Seq<char> {
    let markers = "T   G   M   K   B"@;
    if width <= markers.len() {
        markers.subrange(markers.len() - width, markers.len() as int)
    } else {
        markers
    }
}

/// By how many bytes the modified files have grown, with its sign.
pub open spec fn delta_text(r: ReportView) -> Seq<char> {
    let delta = r.modified_snap_2.count.size - r.modified_snap_1.count.size;
    if delta == 0 {
        "\u{b1}0"@
    } else {
        explicitly_signed(delta, ',')
    }
}

/// A row of the summary: the heading in bold, then two colour sequences,
/// the label, and the two numbers, each right-aligned in its column.
pub open spec fn row(
    c: Colours,
    head: Seq<char>,
    first: Seq<char>,
    second: Seq<char>,
    label: Seq<char>,
    files: Seq<char>,
    bytes: Seq<char>,
    files_width: nat,
    bytes_width: nat,
) -> Seq<char> {
    c.bold@ + head + first + second + label + right_aligned(files, files_width) + "     "@
        + right_aligned(bytes, bytes_width)
}

/// The texts of the column of file counts, the heading first.
pub open spec fn files_column(r: ReportView) -> Seq<Seq<char>> {
    seq![
        "FILES"@,
        signed(r.total_snap_1.count.files as int, ','),
        signed(r.total_snap_2.count.files as int, ','),
        signed(r.identical.count.files as int, ','),
        signed(r.moved.count.files as int, ','),
        signed(r.added.count.files as int, ','),
        signed(r.deleted.count.files as int, ','),
        signed(r.modified_snap_2.count.files as int, ','),
    ]
}

/// The texts of the column of bytes, the heading first.
pub open spec fn bytes_column(r: ReportView) -> Seq<Seq<char>> {
    seq![
        "BYTES"@,
        signed(r.total_snap_1.count.size as int, ','),
        signed(r.total_snap_2.count.size as int, ','),
        signed(r.identical.count.size as int, ','),
        signed(r.moved.count.size as int, ','),
        signed(r.added.count.size as int, ','),
        signed(r.deleted.count.size as int, ','),
        signed(r.modified_snap_2.count.size as int, ','),
    ]
}

/// A row of the summary with its end: the colours are reset and the line
/// ends.
pub open spec fn closed_row(
    c: Colours,
    head: Seq<char>,
    first: Seq<char>,
    second: Seq<char>,
    label: Seq<char>,
    files: Seq<char>,
    bytes: Seq<char>,
    files_width: nat,
    bytes_width: nat,
) -> Seq<char> {
    row(c, head, first, second, label, files, bytes, files_width, bytes_width) + c.reset@ + "\n"@
}

/// The line between the totals and the categories.
pub open spec fn divider(c: Colours, gap: Seq<char>) -> Seq<char> {
    c.bold@ + gap + c.reset@ + c.light@ + "\n"@
}

/// The last row of the summary: the modified files, and in brackets the
/// growth of their bytes.
pub open spec fn last_row(
    c: Colours,
    gap: Seq<char>,
    label: Seq<char>,
    files: Seq<char>,
    bytes: Seq<char>,
    files_width: nat,
    bytes_width: nat,
    delta: Seq<char>,
) -> Seq<char> {
    row(c, gap, c.reset@, c.yellow@, label, files, bytes, files_width, bytes_width) + c.brown@ + " ("@
        + delta + ")"@ + c.reset@ + "\n"@
}

/// The summary table: after an empty line the headings, the markers of
/// the byte column, the two totals, and the five categories. Each column
/// is as wide as its widest text. The row of the modified files ends with
/// the growth of their bytes in brackets.
pub open spec fn summary_text(r: ReportView, c: Colours) -> Seq<char> {
    let files = files_column(r);
    let bytes = bytes_column(r);
    let f = widest(files);
    let b = widest(bytes);
    let gap = "            "@;
    "\n"@ + closed_row(c, gap, c.blank@, c.blank@, gap, files[0], bytes[0], f, b) + closed_row(
        c,
        gap,
        c.reset@,
        c.dark@,
        gap,
        ""@,
        byte_markers(b),
        f,
        b,
    ) + closed_row(
        c,
        "TOTAL       "@,
        c.reset@,
        c.light@,
        SNP1@ + "      "@,
        files[1],
        bytes[1],
        f,
        b,
    ) + closed_row(c, gap, c.reset@, c.light@, SNP2@ + "      "@, files[2], bytes[2], f, b) + divider(
        c,
        gap,
    ) + closed_row(
        c,
        "OF WHICH    "@,
        c.reset@,
        c.blue@,
        "Identical   "@,
        files[3],
        bytes[3],
        f,
        b,
    ) + closed_row(c, gap, c.reset@, c.blue@, "Moved       "@, files[4], bytes[4], f, b) + closed_row(
        c,
        gap,
        c.reset@,
        c.green@,
        "Added       "@,
        files[5],
        bytes[5],
        f,
        b,
    ) + closed_row(c, gap, c.reset@, c.red@, "Deleted     "@, files[6], bytes[6], f, b) + last_row(
        c,
        gap,
        "Modified    "@,
        files[7],
        bytes[7],
        f,
        b,
        delta_text(r),
    )
}

/// The views of some texts, one for one.
pub open spec fn text_views(texts: Seq<String>) -> Seq<Seq<char>> {
    texts.map_values(|t: String| t@)
}

/// The width of the widest of some texts.
fn widest_of(texts: &Vec<String>) -> (r: usize)
    ensures
        r == widest(text_views(texts@)),
{
    let ghost all = text_views(texts@);
    let mut r: usize = 0;
    let mut i: usize = 0;
    while i < texts.len()
        invariant
            i <= texts@.len(),
            all == text_views(texts@),
            r == widest(all.take(i as int)),
        decreases texts@.len() - i,
    {
        let length = texts[i].as_str().unicode_len();
        proof {
            assert(all.take(i + 1).drop_last() =~= all.take(i as int));
            assert(all.take(i + 1).last() == texts@[i as int]@);
        }
        if length > r {
            r = length;
        }
        i += 1;
    }
    proof {
        assert(all.take(i as int) =~= all);
    }
    r
}

/// One row of the summary.
fn row_text(
    c: &Colours,
    head: &str,
    first: &str,
    second: &str,
    label: &str,
    files: &str,
    bytes: &str,
    files_width: usize,
    bytes_width: usize,
) -> (r: String)
    ensures
        r@ == row(
            *c,
            head@,
            first@,
            second@,
            label@,
            files@,
            bytes@,
            files_width as nat,
            bytes_width as nat,
        ),
{
    let mut r = String::new();
    r.append(c.bold);
    r.append(head);
    r.append(first);
    r.append(second);
    r.append(label);
    let aligned_files = pad_left(files, files_width);
    r.append(aligned_files.as_str());
    r.append("     ");
    let aligned_bytes = pad_left(bytes, bytes_width);
    r.append(aligned_bytes.as_str());
    assert(r@ =~= row(
        *c,
        head@,
        first@,
        second@,
        label@,
        files@,
        bytes@,
        files_width as nat,
        bytes_width as nat,
    ));
    r
}

/// Puts one row of the summary behind a text, with its end.
fn append_row(
    text: &mut String,
    c: &Colours,
    head: &str,
    first: &str,
    second: &str,
    label: &str,
    files: &str,
    bytes: &str,
    files_width: usize,
    bytes_width: usize,
)
    ensures
        final(text)@ == old(text)@ + closed_row(
            *c,
            head@,
            first@,
            second@,
            label@,
            files@,
            bytes@,
            files_width as nat,
            bytes_width as nat,
        ),
{
    let line = row_text(c, head, first, second, label, files, bytes, files_width, bytes_width);
    text.append(line.as_str());
    text.append(c.reset);
    text.append("\n");
    assert(text@ =~= old(text)@ + closed_row(
        *c,
        head@,
        first@,
        second@,
        label@,
        files@,
        bytes@,
        files_width as nat,
        bytes_width as nat,
    ));
}

/// Puts the line between the totals and the categories behind a text.
fn append_divider(text: &mut String, c: &Colours, gap: &str)
    ensures
        final(text)@ == old(text)@ + divider(*c, gap@),
{
    text.append(c.bold);
    text.append(gap);
    text.append(c.reset);
    text.append(c.light);
    text.append("\n");
    assert(text@ =~= old(text)@ + divider(*c, gap@));
}

/// Puts the last row of the summary behind a text.
fn append_last_row(
    text: &mut String,
    c: &Colours,
    gap: &str,
    label: &str,
    files: &str,
    bytes: &str,
    files_width: usize,
    bytes_width: usize,
    delta: &str,
)
    ensures
        final(text)@ == old(text)@ + last_row(
            *c,
            gap@,
            label@,
            files@,
            bytes@,
            files_width as nat,
            bytes_width as nat,
            delta@,
        ),
{
    let line = row_text(c, gap, c.reset, c.yellow, label, files, bytes, files_width, bytes_width);
    text.append(line.as_str());
    text.append(c.brown);
    text.append(" (");
    text.append(delta);
    text.append(")");
    text.append(c.reset);
    text.append("\n");
    assert(text@ =~= old(text)@ + last_row(
        *c,
        gap@,
        label@,
        files@,
        bytes@,
        files_width as nat,
        bytes_width as nat,
        delta@,
    ));
}

/// The markers of the byte column for a column of a width.
fn markers_text(width: usize) -> (r: &'static str)
    ensures
        r@ == byte_markers(width as nat),
{
    let markers = "T   G   M   K   B";
    proof {
        reveal_strlit("T   G   M   K   B");
    }
    if width <= 17 {
        markers.substring_char(17 - width, 17)
    } else {
        markers
    }
}

/// Prints one line of the detailed list that gives a total.
fn print_count<P: Printer>(printer: &mut P, tag: &str, stats: &Stats)
    ensures
        final(printer).printed() == old(printer).printed() + count_line(tag@, stats@.count),
        final(printer).palette() == old(printer).palette(),
{
    let count = stats.count();
    let mut line = String::new();
    line.append(tag);
    append_number(&mut line, count.size as u128);
    line.append(" (");
    append_number(&mut line, count.files as u128);
    line.append(" files)\n");
    assert(line@ =~= count_line(tag@, stats@.count));
    printer.print(line);
}

/// Prints one line of the detailed list for each file.
fn print_files<P: Printer>(printer: &mut P, tag: &str, files: &Vec<File>)
    ensures
        final(printer).printed() == old(printer).printed() + file_lines(tag@, views(files@)),
        final(printer).palette() == old(printer).palette(),
{
    let ghost all = views(files@);
    let mut i: usize = 0;
    assert(old(printer).printed() + file_lines(tag@, all.take(0)) =~= old(printer).printed());
    while i < files.len()
        invariant
            i <= files@.len(),
            all == views(files@),
            printer.printed() == old(printer).printed() + file_lines(tag@, all.take(i as int)),
            printer.palette() == old(printer).palette(),
        decreases files@.len() - i,
    {
        let f = &files[i];
        let mut line = String::new();
        line.append(tag);
        append_number(&mut line, f.size as u128);
        line.append(" ");
        line.append(f.path.as_str());
        line.append("\n");
        proof {
            assert(line@ =~= file_line(tag@, f@));
            assert(all.take(i + 1).drop_last() =~= all.take(i as int));
            assert(all.take(i + 1).last() == f@);
            assert(old(printer).printed() + file_lines(tag@, all.take(i as int)) + line@ =~= old(
                printer,
            ).printed() + file_lines(tag@, all.take(i + 1)));
        }
        printer.print(line);
        i += 1;
    }
    proof {
        assert(all.take(i as int) =~= all);
    }
}

impl Report {
    /// Prints the detailed list: one line for each total and for the
    /// identical files, and one line for each file that is moved, added,
    /// deleted or modified. The report must keep the files of these four.
    pub fn detailed_list<P: Printer>(&self, printer: &mut P)
        requires
            self@.moved.keeps_files,
            self@.added.keeps_files,
            self@.deleted.keeps_files,
            self@.modified_snap_2.keeps_files,
        ensures
            final(printer).printed() == old(printer).printed() + detailed_text(self@),
            final(printer).palette() == old(printer).palette(),
    {
        print_count(printer, "#sn1 ", &self.total_snap_1);
        print_count(printer, "#sn2 ", &self.total_snap_2);
        print_count(printer, "=idn ", &self.identical);
        print_files(printer, ">mvd ", self.moved.files().unwrap());
        print_files(printer, "+add ", self.added.files().unwrap());
        print_files(printer, "-del ", self.deleted.files().unwrap());
        print_files(printer, "*mdf ", self.modified_snap_2.files().unwrap());
        assert(printer.printed() =~= old(printer).printed() + detailed_text(self@));
    }

    /// The texts of the column of file counts.
    fn files_texts(&self) -> (r: Vec<String>)
        ensures
            text_views(r@) == files_column(self@),
    {
        let mut files: Vec<String> = Vec::new();
        files.push(String::from_str("FILES"));
        files.push(dec(self.total_snap_1.files_count() as i128));
        files.push(dec(self.total_snap_2.files_count() as i128));
        files.push(dec(self.identical.files_count() as i128));
        files.push(dec(self.moved.files_count() as i128));
        files.push(dec(self.added.files_count() as i128));
        files.push(dec(self.deleted.files_count() as i128));
        files.push(dec(self.modified_snap_2.files_count() as i128));
        assert(text_views(files@) =~= files_column(self@));
        files
    }

    /// The texts of the column of bytes.
    fn bytes_texts(&self) -> (r: Vec<String>)
        ensures
            text_views(r@) == bytes_column(self@),
    {
        let mut size: Vec<String> = Vec::new();
        size.push(String::from_str("BYTES"));
        size.push(dec(self.total_snap_1.size() as i128));
        size.push(dec(self.total_snap_2.size() as i128));
        size.push(dec(self.identical.size() as i128));
        size.push(dec(self.moved.size() as i128));
        size.push(dec(self.added.size() as i128));
        size.push(dec(self.deleted.size() as i128));
        size.push(dec(self.modified_snap_2.size() as i128));
        assert(text_views(size@) =~= bytes_column(self@));
        size
    }

    /// The growth of the modified files' bytes as text.
    fn modified_delta(&self) -> (r: String)
        ensures
            r@ == delta_text(self@),
    {
        let delta = self.modified_snap_2.size() as i128 - self.modified_snap_1.size() as i128;
        if delta == 0 {
            String::from_str("\u{b1}0")
        } else {
            dec_signed(delta)
        }
    }

    /// The summary table in the colours of the terminal.
    pub fn summary(&self, printer: TerminalPrinter) -> (r: String)
        ensures
            r@ == summary_text(self@, printer.colours),
    {
        let c = printer.colours;
        let files = self.files_texts();
        let size = self.bytes_texts();
        let b = widest_of(&size);
        let f = widest_of(&files);
        let shown = markers_text(b);
        let modified_delta = self.modified_delta();
        let gap = "            ";
        let mut snap1 = String::from_str(SNP1);
        snap1.append("      ");
        let mut snap2 = String::from_str(SNP2);
        snap2.append("      ");
        proof {
            assert(files@[0]@ == files_column(self@)[0]);
            assert(files@[1]@ == files_column(self@)[1]);
            assert(files@[2]@ == files_column(self@)[2]);
            assert(files@[3]@ == files_column(self@)[3]);
            assert(files@[4]@ == files_column(self@)[4]);
            assert(files@[5]@ == files_column(self@)[5]);
            assert(files@[6]@ == files_column(self@)[6]);
            assert(files@[7]@ == files_column(self@)[7]);
            assert(size@[0]@ == bytes_column(self@)[0]);
            assert(size@[1]@ == bytes_column(self@)[1]);
            assert(size@[2]@ == bytes_column(self@)[2]);
            assert(size@[3]@ == bytes_column(self@)[3]);
            assert(size@[4]@ == bytes_column(self@)[4]);
            assert(size@[5]@ == bytes_column(self@)[5]);
            assert(size@[6]@ == bytes_column(self@)[6]);
            assert(size@[7]@ == bytes_column(self@)[7]);
        }

        let mut r = String::from_str("\n");
        append_row(&mut r, &c, gap, c.blank, c.blank, gap, files[0].as_str(), size[0].as_str(), f, b);
        append_row(&mut r, &c, gap, c.reset, c.dark, gap, "", shown, f, b);
        append_row(
            &mut r,
            &c,
            "TOTAL       ",
            c.reset,
            c.light,
            snap1.as_str(),
            files[1].as_str(),
            size[1].as_str(),
            f,
            b,
        );
        append_row(
            &mut r,
            &c,
            gap,
            c.reset,
            c.light,
            snap2.as_str(),
            files[2].as_str(),
            size[2].as_str(),
            f,
            b,
        );
        append_divider(&mut r, &c, gap);
        append_row(
            &mut r,
            &c,
            "OF WHICH    ",
            c.reset,
            c.blue,
            "Identical   ",
            files[3].as_str(),
            size[3].as_str(),
            f,
            b,
        );
        append_row(
            &mut r,
            &c,
            gap,
            c.reset,
            c.blue,
            "Moved       ",
            files[4].as_str(),
            size[4].as_str(),
            f,
            b,
        );
        append_row(
            &mut r,
            &c,
            gap,
            c.reset,
            c.green,
            "Added       ",
            files[5].as_str(),
            size[5].as_str(),
            f,
            b,
        );
        append_row(
            &mut r,
            &c,
            gap,
            c.reset,
            c.red,
            "Deleted     ",
            files[6].as_str(),
            size[6].as_str(),
            f,
            b,
        );
        append_last_row(
            &mut r,
            &c,
            gap,
            "Modified    ",
            files[7].as_str(),
            size[7].as_str(),
            f,
            b,
            modified_delta.as_str(),
        );
        r
    }
}

} // verus!
