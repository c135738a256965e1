//! The progress display of one snapshot: what it prints, and when.

use vstd::prelude::*;
use vstd::string::{StrSliceExecFns, StringExecFns, StringSliceAdditionalSpecFns};
use crate::file::SizeBytes;
use crate::format::{
    append_number, blanks, dec, digits, duration_human, duration_text, pad_left, percent,
    percent_text, right_aligned, signed, size_human, size_text,
};
use crate::printer::{Colours, Printer};
use crate::stats::Count;
use std::time::{Duration, Instant};

verus! {

/// `std::time::Instant`, a moment of the machine's clock. Nothing of it is
/// visible to proofs.
#[verifier::external_type_specification]
#[verifier::external_body]
pub struct ExInstant(Instant);

/// `Instant::now`: the present moment. Nothing is claimed of it.
#[verifier::external_body]
fn clock_now() -> Instant {
    Instant::now()
}

/// `Instant::elapsed`: the time that has passed since a moment. Nothing
/// is claimed of it.
#[verifier::external_body]
fn clock_elapsed(since: &Instant) -> Duration {
    since.elapsed()
}

/// `Duration::as_millis`: a span of time in whole milliseconds. Nothing
/// is claimed of it.
#[verifier::external_body]
fn whole_millis(span: &Duration) -> u128 {
    span.as_millis()
}

/// `Duration::as_secs`: a span of time in whole seconds. Nothing is
/// claimed of it.
#[verifier::external_body]
fn whole_secs(span: &Duration) -> u64 {
    span.as_secs()
}

/// `Instant::ne`: whether two moments differ. Nothing is claimed of it.
#[verifier::external_body]
fn moments_differ(a: &Instant, b: &Instant) -> bool {
    a != b
}

/// The shortest time between two repaints of the progress line, in
/// milliseconds.
pub const REPAINT_MS: u128 = 666;

/// The width of the column of file counts: that of the expected number of
/// files, or of the number that the snapshot before had, with room for a
/// thousand more.
pub open spec fn files_width(expected: Count, previous: Option<Count>) -> nat {
    let count = match previous {
        Some(c) => c.files + 1000,
        None => expected.files + 1000,
    };
    signed(count, ',').len()
}

/// The rate at which bytes were processed since the last repaint, in
/// square brackets; nothing where no time has passed.
pub open spec fn rate_text(pending: SizeBytes, elapsed_ms: u128) -> Seq<char> {
    if elapsed_ms != 0 {
        let per_second = (1000 * pending / elapsed_ms as int) % 0x1_0000_0000_0000_0000;
        "["@ + right_aligned(size_text(per_second as nat), 7) + "/s]"@
    } else {
        Seq::empty()
    }
}

/// The share of the expected bytes that was processed, in whole percent,
/// cut off. Where no bytes are expected there is nothing left to process:
/// the share is `100 %`.
pub open spec fn share_text(processed: SizeBytes, expected: SizeBytes) -> Seq<char> {
    if expected == 0 {
        percent_text(100, 100)
    } else {
        percent_text(processed as nat, expected as nat)
    }
}

/// What is said of skipped entries behind the indexed files: nothing where
/// none were skipped.
pub open spec fn skipped_text(skipped_files: Count, skipped_folders: Count) -> Seq<char> {
    if skipped_files.files > 0 || skipped_folders.files > 0 {
        "   (skipped "@ + digits(skipped_files.files as nat) + " files, "@ + digits(
            skipped_folders.files as nat,
        ) + " dirs)"@
    } else {
        Seq::empty()
    }
}

/// What a progress display holds, as a mathematical value.
pub ghost struct ProgressView {
    /// What the printer holds.
    pub printed: Seq<char>,
    /// The colours of the printer.
    pub palette: Colours,
    /// The name of the snapshot.
    pub name: Seq<char>,
    /// The length of the name in bytes.
    pub name_bytes: nat,
    /// The bytes processed since the last repaint.
    pub pending: SizeBytes,
    /// What was processed so far.
    pub current: Count,
    /// What the scan has scheduled.
    pub expected: Count,
    /// What the snapshot before had, if there was one.
    pub previous: Option<Count>,
}

impl ProgressView {
    /// No more bytes wait for a repaint than were processed.
    pub open spec fn wf(self) -> bool {
        self.pending <= self.current.size
    }

    /// The display after the scan was announced.
    pub open spec fn scan_start(self) -> ProgressView {
        ProgressView {
            printed: self.printed + (self.palette.gray@ + self.name + ": Indexing..."@
                + self.palette.reset@),
            ..self
        }
    }

    /// The line that reports a finished scan.
    pub open spec fn indexed_line(self, skipped_files: Count, skipped_folders: Count) -> Seq<char> {
        "\r"@ + self.palette.gray@ + self.name + ": Indexed:     "@ + right_aligned(
            signed(self.expected.files as int, ','),
            files_width(self.expected, self.previous),
        ) + " files  "@ + right_aligned(size_text(self.expected.size as nat), 7) + skipped_text(
            skipped_files,
            skipped_folders,
        ) + self.palette.reset@ + "\n"@
    }

    /// The display after a scan was reported: what it has scheduled is
    /// what is expected from now on.
    pub open spec fn scan_done(
        self,
        scheduled: Count,
        skipped_files: Count,
        skipped_folders: Count,
    ) -> ProgressView {
        let known = ProgressView { expected: scheduled, ..self };
        ProgressView {
            printed: self.printed + known.indexed_line(skipped_files, skipped_folders),
            ..known
        }
    }

    /// The progress line: under the snapshot's name the files and bytes
    /// processed, their share of the expected bytes, the time the display
    /// has been running, and the rate.
    pub open spec fn process_line(self, rate: Seq<char>, running_secs: u64) -> Seq<char> {
        "\r"@ + blanks(self.name_bytes + 2) + self.palette.gray@ + "Processing:  "@ + right_aligned(
            signed(self.current.files as int, ','),
            files_width(self.expected, self.previous),
        ) + " files  "@ + right_aligned(size_text(self.current.size as nat), 7) + "   "@
            + right_aligned(share_text(self.current.size, self.expected.size), 5)
            + "    "@ + right_aligned(duration_text(running_secs as nat), 3) + "   "@ + rate
            + self.palette.reset@
    }

    /// Whether so many files and bytes can be counted in: the counts have
    /// room for them.
    pub open spec fn admits(self, files_added: u64, bytes_added: SizeBytes) -> bool {
        &&& self.current.files + files_added <= u64::MAX
        &&& self.current.size + bytes_added <= u64::MAX
    }

    /// The display after files and bytes were counted in, given what the
    /// clock says: the milliseconds since the last repaint, whether there
    /// has been a repaint at all, and the seconds since the display was
    /// made. The line is repainted at the first time, and later when 666
    /// milliseconds have passed since the last repaint.
    pub open spec fn advance(
        self,
        files_added: u64,
        bytes_added: SizeBytes,
        elapsed_ms: u128,
        repainted_before: bool,
        running_secs: u64,
    ) -> ProgressView {
        let counted = ProgressView {
            current: Count {
                files: (self.current.files + files_added) as u64,
                size: (self.current.size + bytes_added) as u64,
            },
            pending: (self.pending + bytes_added) as u64,
            ..self
        };
        if repainted_before && elapsed_ms < REPAINT_MS {
            counted
        } else {
            ProgressView {
                printed: counted.printed + counted.process_line(
                    rate_text(counted.pending, elapsed_ms),
                    running_secs,
                ),
                pending: 0,
                ..counted
            }
        }
    }

    /// Whether `advance` repaints the line.
    pub open spec fn repaints(elapsed_ms: u128, repainted_before: bool) -> bool {
        !(repainted_before && elapsed_ms < REPAINT_MS)
    }

    /// The display after the last repaint: the line without a rate, and
    /// the end of the line.
    pub open spec fn finish(self, running_secs: u64) -> ProgressView {
        ProgressView {
            printed: self.printed + self.process_line("           "@, running_secs) + "\n"@,
            ..self
        }
    }
}

/// The progress display of one snapshot.
pub struct Progress<P: Printer> {
    pub printer: P,
    display_name: &'static str,
    initialised: Instant,
    pub last_trigger: Instant,
    bytes_since_last_trigger: SizeBytes,
    current: Count,
    expected: Count,
    previous_files_count: Option<Count>,
}

impl<P: Printer> View for Progress<P> {
    type V = ProgressView;

    closed spec fn view(&self) -> ProgressView {
        ProgressView {
            printed: self.printer.printed(),
            palette: self.printer.palette(),
            name: self.display_name@,
            name_bytes: self.display_name.spec_bytes().len(),
            pending: self.bytes_since_last_trigger,
            current: self.current,
            expected: self.expected,
            previous: self.previous_files_count,
        }
    }
}

impl<P: Printer> Progress<P> {
    /// A display for the snapshot of a name, on a printer. Where a
    /// snapshot came before, its count sets the width of the column of
    /// files, so that both displays line up.
    pub fn new(printer: P, display_name: &'static str, previous_files_count: Option<Count>) -> (r:
        Progress<P>)
        ensures
            r@ == (ProgressView {
                printed: printer.printed(),
                palette: printer.palette(),
                name: display_name@,
                name_bytes: display_name.spec_bytes().len(),
                pending: 0,
                current: Count { files: 0, size: 0 },
                expected: Count { files: 0, size: 0 },
                previous: previous_files_count,
            }),
            r@.wf(),
    {
        let init = clock_now();
        Progress {
            printer,
            display_name,
            initialised: init,
            last_trigger: init,
            bytes_since_last_trigger: 0,
            current: Count::new(),
            expected: Count::new(),
            previous_files_count,
        }
    }

    /// Tells whether so many files and bytes can be counted in: the
    /// counts have room for them.
    pub fn accepts(&self, files_added: u64, bytes_added: SizeBytes) -> (r: bool)
        ensures
            r == self@.admits(files_added, bytes_added),
    {
        files_added <= u64::MAX - self.current.files && bytes_added <= u64::MAX - self.current.size
    }

    /// Announces the scan.
    pub fn scan_start(&mut self)
        ensures
            final(self)@ == old(self)@.scan_start(),
    {
        let c = *self.printer.colours();
        let mut text = String::from_str(c.gray);
        text.append(self.display_name);
        text.append(": Indexing...");
        text.append(c.reset);
        assert(text@ =~= c.gray@ + self.display_name@ + ": Indexing..."@ + c.reset@);
        self.printer.print(text);
    }

    /// Reports the finished scan: how much it has scheduled and, where it
    /// skipped anything, how many files and folders.
    pub fn scan_done(&mut self, scheduled: Count, skipped_files: Count, skipped_folders: Count)
        ensures
            final(self)@ == old(self)@.scan_done(scheduled, skipped_files, skipped_folders),
    {
        self.expected = scheduled;
        let c = *self.printer.colours();
        let mut text = String::from_str("\r");
        text.append(c.gray);
        text.append(self.display_name);
        text.append(": Indexed:     ");
        let files = dec(self.expected.files as i128);
        let aligned_files = pad_left(files.as_str(), self.files_display_length());
        text.append(aligned_files.as_str());
        text.append(" files  ");
        let size = size_human(self.expected.size);
        let aligned_size = pad_left(size.as_str(), 7);
        text.append(aligned_size.as_str());
        if skipped_files.files > 0 || skipped_folders.files > 0 {
            let mut info = String::from_str("   (skipped ");
            append_number(&mut info, skipped_files.files as u128);
            info.append(" files, ");
            append_number(&mut info, skipped_folders.files as u128);
            info.append(" dirs)");
            assert(info@ =~= skipped_text(skipped_files, skipped_folders));
            text.append(info.as_str());
        }
        text.append(c.reset);
        text.append("\n");
        assert(text@ =~= self@.indexed_line(skipped_files, skipped_folders));
        self.printer.print(text);
    }

    /// Counts files and bytes in and repaints the line if it is time to:
    /// at the first call, and then whenever 666 milliseconds have passed
    /// since the last repaint. The clock decides; whatever it says, the
    /// display is as `advance` tells for some reading of it.
    pub fn process_inc(&mut self, files_added: u64, bytes_added: SizeBytes)
        requires
            old(self)@.wf(),
            old(self)@.admits(files_added, bytes_added),
        ensures
            exists|elapsed_ms: u128, repainted_before: bool, running_secs: u64|
                final(self)@ == #[trigger] old(self)@.advance(
                    files_added,
                    bytes_added,
                    elapsed_ms,
                    repainted_before,
                    running_secs,
                ),
            final(self)@.wf(),
    {
        let since_repaint = clock_elapsed(&self.last_trigger);
        let elapsed_ms = whole_millis(&since_repaint);
        let repainted_before = moments_differ(&self.initialised, &self.last_trigger);
        let since_start = clock_elapsed(&self.initialised);
        let running_secs = whole_secs(&since_start);
        let repainted = self.advance(
            files_added,
            bytes_added,
            elapsed_ms,
            repainted_before,
            running_secs,
        );
        if repainted {
            self.last_trigger = clock_now();
        }
    }

    /// Counts files and bytes in and repaints the line if it is time to,
    /// for a given reading of the clock: the milliseconds since the last
    /// repaint, whether there has been a repaint at all, and the seconds
    /// since the display was made. Tells whether it repainted.
    pub fn advance(
        &mut self,
        files_added: u64,
        bytes_added: SizeBytes,
        elapsed_ms: u128,
        repainted_before: bool,
        running_secs: u64,
    ) -> (r: bool)
        requires
            old(self)@.wf(),
            old(self)@.admits(files_added, bytes_added),
        ensures
            final(self)@ == old(self)@.advance(
                files_added,
                bytes_added,
                elapsed_ms,
                repainted_before,
                running_secs,
            ),
            r == ProgressView::repaints(elapsed_ms, repainted_before),
            final(self)@.wf(),
    {
        self.current.files += files_added;
        self.current.size += bytes_added;
        self.bytes_since_last_trigger += bytes_added;
        if repainted_before && elapsed_ms < REPAINT_MS {
            return false;
        }
        let rate = if elapsed_ms != 0 {
            let per_second: u128 = (1000 * (self.bytes_since_last_trigger as u128) / elapsed_ms)
                % 0x1_0000_0000_0000_0000;
            let size = size_human(per_second as u64);
            let aligned = pad_left(size.as_str(), 7);
            let mut text = String::from_str("[");
            text.append(aligned.as_str());
            text.append("/s]");
            assert(text@ =~= rate_text(self.bytes_since_last_trigger, elapsed_ms));
            text
        } else {
            String::new()
        };
        self.print_process(rate, running_secs);
        self.bytes_since_last_trigger = 0;
        true
    }

    /// Repaints the line for the last time and ends it. The clock gives
    /// the running time; whatever it says, the display is as `finish`
    /// tells for some reading of it.
    pub fn process_done(&mut self)
        ensures
            exists|running_secs: u64| final(self)@ == #[trigger] old(self)@.finish(running_secs),
    {
        let since_start = clock_elapsed(&self.initialised);
        let running_secs = whole_secs(&since_start);
        self.finish(running_secs);
    }

    /// Repaints the line for the last time and ends it, for a given
    /// running time in seconds.
    pub fn finish(&mut self, running_secs: u64)
        ensures
            final(self)@ == old(self)@.finish(running_secs),
    {
        self.print_process(String::from_str("           "), running_secs);
        self.printer.print(String::from_str("\n"));
    }

    /// Paints the progress line.
    fn print_process(&mut self, rate: String, running_secs: u64)
        ensures
            final(self)@ == (ProgressView {
                printed: old(self)@.printed + old(self)@.process_line(rate@, running_secs),
                ..old(self)@
            }),
    {
        let c = *self.printer.colours();
        let mut text = String::from_str("\r");
        let mut i: usize = 0;
        let width = self.display_name.as_bytes().len();
        while i < width
            invariant
                i <= width,
                text@ == "\r"@ + blanks(i as nat),
            decreases width - i,
        {
            text.append(" ");
            proof {
                reveal_strlit(" ");
                assert(text@ =~= "\r"@ + blanks((i + 1) as nat));
            }
            i += 1;
        }
        text.append("  ");
        proof {
            reveal_strlit("  ");
            assert(text@ =~= "\r"@ + blanks((width + 2) as nat));
        }
        text.append(c.gray);
        text.append("Processing:  ");
        let files = dec(self.current.files as i128);
        let aligned_files = pad_left(files.as_str(), self.files_display_length());
        text.append(aligned_files.as_str());
        text.append(" files  ");
        let size = size_human(self.current.size);
        let aligned_size = pad_left(size.as_str(), 7);
        text.append(aligned_size.as_str());
        text.append("   ");
        let share = if self.expected.size == 0 {
            percent(100, 100)
        } else {
            percent(self.current.size, self.expected.size)
        };
        let aligned_share = pad_left(share.as_str(), 5);
        text.append(aligned_share.as_str());
        text.append("    ");
        let running = duration_human(running_secs);
        let aligned_running = pad_left(running.as_str(), 3);
        text.append(aligned_running.as_str());
        text.append("   ");
        text.append(rate.as_str());
        text.append(c.reset);
        assert(text@ =~= self@.process_line(rate@, running_secs));
        self.printer.print(text);
    }

    /// The width of the column of file counts.
    pub fn files_display_length(&self) -> (r: usize)
        ensures
            r == files_width(self@.expected, self@.previous),
    {
        let count: u128 = match self.previous_files_count {
            Some(c) => c.files as u128 + 1000,
            None => self.expected.files as u128 + 1000,
        };
        let text = dec(count as i128);
        text.as_str().unicode_len()
    }
}

} // verus!
