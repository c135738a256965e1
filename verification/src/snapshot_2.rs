//! The second snapshot: every file added is compared with the first
//! snapshot at once; what finds no partner by path waits for the pairing by
//! content at the end.

use vstd::prelude::*;
use crate::file::{File, FileView};
use crate::reconcile::{
    lemma_flat_index_of, lemma_flat_insert, lemma_parts_bounded, lemma_parts_step,
    matched_part, pairs, surplus_part,
};
use crate::report::{Report, ReportView};
use crate::snapshot::{
    flat, insert, lemma_insert_well_formed, well_formed, Buckets, FilesByChecksums, Snapshot,
};
use crate::snapshot_1::{
    has_path, lemma_digested_wf, path_index, Comparison, Snapshot1, Snapshot1View,
};
use crate::stats::{lemma_record_all_concat, lemma_total_size_remove, tally, StatsView};

verus! {

/// What the second snapshot holds, as a mathematical value.
pub ghost struct Snapshot2View {
    /// The first snapshot, without the files that were found by path.
    pub snap_1: Snapshot1View,
    /// The files added that had no partner by path, grouped by checksum.
    pub remainder: Buckets,
    /// The report as far as it is known.
    pub report: ReportView,
}

impl Snapshot2View {
    /// The second snapshot before any file was added to it.
    pub open spec fn new(snap_1: Snapshot1View) -> Snapshot2View {
        Snapshot2View { snap_1, remainder: Seq::empty(), report: ReportView::new() }
    }

    /// The parts are well-formed; the report is filled as far as adding
    /// fills it; every file added is counted as identical or as modified or
    /// waits in the remainder; and what was taken from the first snapshot
    /// is within that snapshot's total.
    pub open spec fn wf(self) -> bool {
        &&& self.snap_1.wf()
        &&& well_formed(self.remainder)
        &&& self.report.total_snap_1 == StatsView::empty(false)
        &&& self.report.moved == StatsView::empty(true)
        &&& self.report.added == StatsView::empty(true)
        &&& self.report.deleted == StatsView::empty(true)
        &&& !self.report.total_snap_2.keeps_files
        &&& !self.report.identical.keeps_files
        &&& !self.report.modified_snap_1.keeps_files
        &&& self.report.modified_snap_2.keeps_files
        &&& self.report.total_snap_2.files.len() == 0
        &&& self.report.identical.files.len() == 0
        &&& self.report.modified_snap_1.files.len() == 0
        &&& self.report.total_snap_2.count.fits()
        &&& self.report.total_snap_2.count == self.report.identical.count.plus(
            self.report.modified_snap_2.count,
        ).plus(tally(flat(self.remainder)))
        &&& self.report.modified_snap_1.count.files == self.report.modified_snap_2.count.files
        &&& self.report.identical.count.plus(self.report.modified_snap_1.count).plus(
            tally(self.snap_1.files),
        ).le(self.snap_1.total.count)
    }

    /// Whether a file can be added: the second total has room for it.
    pub open spec fn admits(self, f2: FileView) -> bool {
        self.report.total_snap_2.count.with_file(f2).fits()
    }

    /// The snapshot with one more file. The file counts for the second
    /// total. If the first snapshot has a file at its path, that file
    /// leaves the first snapshot, and the new file is identical where the
    /// contents are the same and modified where they are not. Otherwise it
    /// joins the remainder.
    pub open spec fn add(self, f2: FileView) -> Snapshot2View {
        let counted = ReportView { total_snap_2: self.report.total_snap_2.record(f2), ..self.report };
        match self.snap_1.answer(f2) {
            Some((Comparison::Identical, _)) => Snapshot2View {
                snap_1: self.snap_1.digested(f2.path),
                remainder: self.remainder,
                report: ReportView { identical: counted.identical.record(f2), ..counted },
            },
            Some((Comparison::Modified, f1)) => Snapshot2View {
                snap_1: self.snap_1.digested(f2.path),
                remainder: self.remainder,
                report: ReportView {
                    modified_snap_1: counted.modified_snap_1.record(f1),
                    modified_snap_2: counted.modified_snap_2.record(f2),
                    ..counted
                },
            },
            None => Snapshot2View {
                snap_1: self.snap_1,
                remainder: insert(self.remainder, f2),
                report: counted,
            },
        }
    }

    /// The finished report. The files left in the first snapshot are
    /// grouped by checksum and paired with the remainder, checksum by
    /// checksum, first with first. A pair is one moved file, recorded as
    /// the first snapshot has it. What the first snapshot has beyond the
    /// pairs is deleted; what the remainder has beyond them is added.
    pub open spec fn conclude(self) -> ReportView {
        let left = self.snap_1.hash_index();
        ReportView {
            total_snap_1: self.snap_1.total,
            moved: self.report.moved.record_all(matched_part(left, self.remainder)),
            deleted: self.report.deleted.record_all(surplus_part(left, self.remainder)),
            added: self.report.added.record_all(surplus_part(self.remainder, left)),
            ..self.report
        }
    }
}

/// Adding an admitted file keeps the second snapshot well-formed.
pub proof fn lemma_add_wf(s: Snapshot2View, f2: FileView)
    requires
        s.wf(),
        s.admits(f2),
    ensures
        s.add(f2).wf(),
{
    lemma_digested_wf(s.snap_1, f2.path);
    if has_path(s.snap_1.files, f2.path) {
        lemma_total_size_remove(s.snap_1.files, path_index(s.snap_1.files, f2.path));
    } else {
        lemma_insert_well_formed(s.remainder, f2);
        lemma_flat_insert(s.remainder, f2);
    }
}

/// The second snapshot, which classifies each file as it comes in.
pub struct Snapshot2 {
    snap_1: Snapshot1,
    snap_2_remainder: FilesByChecksums,
    report: Report,
}

impl View for Snapshot2 {
    type V = Snapshot2View;

    closed spec fn view(&self) -> Snapshot2View {
        Snapshot2View {
            snap_1: self.snap_1@,
            remainder: self.snap_2_remainder@,
            report: self.report@,
        }
    }
}

impl Snapshot for Snapshot2 {
    /// The snapshot is well-formed, and so are its parts.
    closed spec fn wf(&self) -> bool {
        self@.wf() && self.snap_1.wf() && self.snap_2_remainder.wf()
    }

    open spec fn admits(&self, f: FileView) -> bool {
        self@.admits(f)
    }

    open spec fn took_in(&self, f: FileView, after: &Self) -> bool {
        after@ == self@.add(f)
    }

    /// Tells whether a file can be added: the second total has room for
    /// it.
    fn accepts(&self, f: &File) -> (r: bool) {
        let total = self.report.total_snap_2.count();
        total.files < u64::MAX && f.size <= u64::MAX - total.size
    }

    /// Adds a file of the second snapshot and classifies it against the
    /// first snapshot by its path.
    fn add(&mut self, f2: File) {
        proof {
            lemma_add_wf(self@, f2@);
            if has_path(self@.snap_1.files, f2@.path) {
                lemma_total_size_remove(
                    self@.snap_1.files,
                    path_index(self@.snap_1.files, f2@.path),
                );
            }
        }
        self.report.total_snap_2.record(&f2);
        match self.snap_1.digest(&f2) {
            Some((c, f1)) => match c {
                Comparison::Identical => {
                    self.report.identical.record(&f2);
                },
                Comparison::Modified => {
                    self.report.modified_snap_1.record(&f1);
                    self.report.modified_snap_2.record(&f2);
                },
            },
            None => {
                self.snap_2_remainder.add(f2);
            },
        }
    }
}

impl Snapshot2 {
    /// A snapshot in order is well-formed.
    pub proof fn lemma_wf(&self)
        requires
            self.wf(),
        ensures
            self@.wf(),
    {
    }

    /// The second snapshot over a first one that is complete.
    pub fn new(source_snap: Snapshot1) -> (r: Snapshot2)
        requires
            source_snap.wf(),
        ensures
            r@ == Snapshot2View::new(source_snap@),
            r.wf(),
    {
        proof {
            source_snap.lemma_wf();
        }
        let r = Snapshot2 {
            snap_1: source_snap,
            snap_2_remainder: FilesByChecksums::new(),
            report: Report::new(),
        };
        r
    }

    /// Pairs what is left on both sides by checksum and hands out the
    /// finished report.
    pub fn conclude(self) -> (r: Report)
        requires
            self.wf(),
        ensures
            r@ == self@.conclude(),
    {
        let ghost start = self@;
        let mut snap_1 = self.snap_1;
        let right = self.snap_2_remainder;
        let mut report = self.report;
        let (total1, left) = snap_1.conclude();
        report.total_snap_1 = total1;
        proof {
            lemma_flat_index_of(start.snap_1.files);
            left.lemma_wf();
            right.lemma_wf();
        }

        let mut i: usize = 0;
        while i < left.len()
            invariant
                i <= left@.len(),
                left.wf(),
                right.wf(),
                tally(flat(left@)).fits(),
                report.moved@ == StatsView::empty(true).record_all(
                    matched_part(left@.take(i as int), right@),
                ),
                report.deleted@ == StatsView::empty(true).record_all(
                    surplus_part(left@.take(i as int), right@),
                ),
                report@ == (ReportView {
                    total_snap_1: start.snap_1.total,
                    moved: report.moved@,
                    deleted: report.deleted@,
                    ..start.report
                }),
            decreases left@.len() - i,
        {
            let (checksum, files) = left.entry(i);
            let partners = match right.files_of(checksum) {
                Some(others) => others.len(),
                None => 0,
            };
            let paired = if files.len() <= partners {
                files.len()
            } else {
                partners
            };
            proof {
                let e = left@[i as int];
                assert(paired == pairs(e, right@));
                lemma_parts_step(left@, right@, i as int);
                lemma_parts_bounded(left@, right@, i + 1);
                lemma_record_all_concat(
                    StatsView::empty(true),
                    matched_part(left@.take(i as int), right@),
                    e.1.take(paired as int),
                );
                lemma_record_all_concat(
                    StatsView::empty(true),
                    surplus_part(left@.take(i as int), right@),
                    e.1.skip(paired as int),
                );
                assert(e.1.take(paired as int) =~= e.1.subrange(0, paired as int));
                assert(e.1.skip(paired as int) =~= e.1.subrange(paired as int, e.1.len() as int));
            }
            report.moved.record_range(files, 0, paired);
            report.deleted.record_range(files, paired, files.len());
            i += 1;
        }
        proof {
            assert(left@.take(i as int) =~= left@);
        }

        let mut j: usize = 0;
        while j < right.len()
            invariant
                j <= right@.len(),
                left.wf(),
                right.wf(),
                tally(flat(right@)).fits(),
                report.added@ == StatsView::empty(true).record_all(
                    surplus_part(right@.take(j as int), left@),
                ),
                report@ == (ReportView {
                    total_snap_1: start.snap_1.total,
                    moved: report.moved@,
                    deleted: report.deleted@,
                    added: report.added@,
                    ..start.report
                }),
                report.moved@ == StatsView::empty(true).record_all(matched_part(left@, right@)),
                report.deleted@ == StatsView::empty(true).record_all(surplus_part(left@, right@)),
            decreases right@.len() - j,
        {
            let (checksum, files) = right.entry(j);
            let partners = match left.files_of(checksum) {
                Some(others) => others.len(),
                None => 0,
            };
            let paired = if files.len() <= partners {
                files.len()
            } else {
                partners
            };
            proof {
                let e = right@[j as int];
                assert(paired == pairs(e, left@));
                lemma_parts_step(right@, left@, j as int);
                lemma_parts_bounded(right@, left@, j + 1);
                lemma_record_all_concat(
                    StatsView::empty(true),
                    surplus_part(right@.take(j as int), left@),
                    e.1.skip(paired as int),
                );
                assert(e.1.skip(paired as int) =~= e.1.subrange(paired as int, e.1.len() as int));
            }
            report.added.record_range(files, paired, files.len());
            j += 1;
        }
        proof {
            assert(right@.take(j as int) =~= right@);
        }
        report
    }
}

} // verus!
