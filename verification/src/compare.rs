//! A whole comparison as a mathematical function of the two snapshots, and
//! what holds of its report.

use vstd::prelude::*;
use crate::file::{views, File, FileView};
use crate::reconcile::{
    lemma_flat_index_of, lemma_flat_insert, lemma_matched_symmetric, lemma_parts_tally,
};
use crate::report::{Report, ReportView};
use crate::snapshot::{
    flat, index_of, lemma_index_of_well_formed, lemma_insert_well_formed, well_formed, Snapshot,
};
use crate::snapshot_1::{distinct_paths, has_path, path_index, Snapshot1, Snapshot1View};
use crate::snapshot_2::{Snapshot2, Snapshot2View};
use crate::stats::{
    lemma_tally_prefix, lemma_total_size_push, lemma_total_size_remove, tally, StatsView,
};

verus! {

/// The first snapshot after these files were added to an empty one, in this
/// order.
pub open spec fn first_of(files: Seq<FileView>) -> Snapshot1View
    decreases files.len(),
{
    if files.len() == 0 {
        Snapshot1View::new()
    } else {
        first_of(files.drop_last()).add(files.last())
    }
}

/// The second snapshot after these files were added to `start`, in this
/// order.
pub open spec fn second_of(start: Snapshot2View, files: Seq<FileView>) -> Snapshot2View
    decreases files.len(),
{
    if files.len() == 0 {
        start
    } else {
        second_of(start, files.drop_last()).add(files.last())
    }
}

/// The report of a comparison in which the files of the first snapshot
/// were added in the order of `snap1` and then those of the second in the
/// order of `snap2`.
pub open spec fn compare(snap1: Seq<FileView>, snap2: Seq<FileView>) -> ReportView {
    second_of(Snapshot2View::new(first_of(snap1)), snap2).conclude()
}

/// The first snapshot holds the files added, and its total counts them.
pub proof fn lemma_first_of(files: Seq<FileView>)
    ensures
        first_of(files).files == files,
        first_of(files).total == (StatsView {
            count: tally(files),
            files: Seq::empty(),
            keeps_files: false,
        }),
    decreases files.len(),
{
    if files.len() == 0 {
        assert(first_of(files).files =~= files);
    } else {
        lemma_first_of(files.drop_last());
        lemma_total_size_push(files.drop_last(), files.last());
        assert(files.drop_last().push(files.last()) =~= files);
    }
}

/// The books of a second snapshot are in order: every file added to it is
/// counted once, as identical, as modified or in the remainder, and every
/// file ever added to the first snapshot is counted once, as identical, as
/// modified or among those still there.
pub open spec fn balanced(s: Snapshot2View) -> bool {
    &&& well_formed(s.remainder)
    &&& s.report.total_snap_1 == StatsView::empty(false)
    &&& s.report.moved == StatsView::empty(true)
    &&& s.report.added == StatsView::empty(true)
    &&& s.report.deleted == StatsView::empty(true)
    &&& s.report.total_snap_2.count == s.report.identical.count.plus(
        s.report.modified_snap_2.count,
    ).plus(tally(flat(s.remainder)))
    &&& s.report.modified_snap_1.count.files == s.report.modified_snap_2.count.files
    &&& s.snap_1.total.count == s.report.identical.count.plus(s.report.modified_snap_1.count).plus(
        tally(s.snap_1.files),
    )
}

/// Adding a file keeps the books in order.
pub proof fn lemma_add_balanced(s: Snapshot2View, f2: FileView)
    requires
        balanced(s),
    ensures
        balanced(s.add(f2)),
{
    if has_path(s.snap_1.files, f2.path) {
        lemma_total_size_remove(s.snap_1.files, path_index(s.snap_1.files, f2.path));
    } else {
        lemma_insert_well_formed(s.remainder, f2);
        lemma_flat_insert(s.remainder, f2);
    }
}

/// The books are in order after any files were added to any first
/// snapshot.
pub proof fn lemma_second_of_balanced(snap1: Seq<FileView>, snap2: Seq<FileView>)
    ensures
        balanced(second_of(Snapshot2View::new(first_of(snap1)), snap2)),
    decreases snap2.len(),
{
    let start = Snapshot2View::new(first_of(snap1));
    if snap2.len() == 0 {
        lemma_first_of(snap1);
        assert(flat(start.remainder) =~= Seq::empty());
    } else {
        lemma_second_of_balanced(snap1, snap2.drop_last());
        lemma_add_balanced(second_of(start, snap2.drop_last()), snap2.last());
    }
}

/// The first total is the sum of the identical, moved, deleted and
/// modified files of the first snapshot, in files and in bytes.
pub proof fn theorem_first_total_is_sum(snap1: Seq<FileView>, snap2: Seq<FileView>)
    ensures
        ({
            let r = compare(snap1, snap2);
            r.total_snap_1.count == r.identical.count.plus(r.moved.count).plus(r.deleted.count).plus(
                r.modified_snap_1.count,
            )
        }),
{
    let s = second_of(Snapshot2View::new(first_of(snap1)), snap2);
    lemma_second_of_balanced(snap1, snap2);
    let left = index_of(s.snap_1.files);
    lemma_flat_index_of(s.snap_1.files);
    lemma_parts_tally(left, s.remainder);
}

/// The second total counts as many files as are identical, moved, added
/// and modified together.
pub proof fn theorem_second_total_is_sum(snap1: Seq<FileView>, snap2: Seq<FileView>)
    ensures
        ({
            let r = compare(snap1, snap2);
            r.total_snap_2.count.files == r.identical.count.files + r.moved.count.files
                + r.added.count.files + r.modified_snap_2.count.files
        }),
{
    let s = second_of(Snapshot2View::new(first_of(snap1)), snap2);
    lemma_second_of_balanced(snap1, snap2);
    let left = index_of(s.snap_1.files);
    lemma_index_of_well_formed(s.snap_1.files);
    lemma_matched_symmetric(left, s.remainder);
    lemma_parts_tally(s.remainder, left);
}

/// As many files of the first snapshot are modified as of the second.
pub proof fn theorem_modified_counts_agree(snap1: Seq<FileView>, snap2: Seq<FileView>)
    ensures
        compare(snap1, snap2).modified_snap_1.count.files == compare(
            snap1,
            snap2,
        ).modified_snap_2.count.files,
{
    lemma_second_of_balanced(snap1, snap2);
}

/// The second total counts the files that were added.
pub proof fn lemma_second_total(start: Snapshot2View, files: Seq<FileView>)
    ensures
        second_of(start, files).report.total_snap_2.count == start.report.total_snap_2.count.plus(
            tally(files),
        ),
    decreases files.len(),
{
    if files.len() > 0 {
        lemma_second_total(start, files.drop_last());
    }
}

/// Whether two snapshots can be compared: no two files of the first stand
/// at the same path, and the files and bytes of either can be counted in
/// 64 bits.
pub open spec fn comparable(snap1: Seq<FileView>, snap2: Seq<FileView>) -> bool {
    distinct_paths(snap1) && tally(snap1).fits() && tally(snap2).fits()
}

/// Compares two snapshots whose files are known: adds the files of the
/// first and then those of the second in their order, and concludes.
/// There is no report where the snapshots cannot be compared.
pub fn compare_files(snap1: &Vec<File>, snap2: &Vec<File>) -> (r: Option<Report>)
    ensures
        r.is_some() == comparable(views(snap1@), views(snap2@)),
        r.is_some() ==> r.unwrap()@ == compare(views(snap1@), views(snap2@)),
{
    let ghost all1 = views(snap1@);
    let ghost all2 = views(snap2@);
    let mut first = Snapshot1::new();
    let mut i: usize = 0;
    while i < snap1.len()
        invariant
            i <= snap1@.len(),
            all1 == views(snap1@),
            first@ == first_of(all1.take(i as int)),
            first.wf(),
            distinct_paths(all1.take(i as int)),
        decreases snap1@.len() - i,
    {
        let ghost done = all1.take(i as int);
        let ghost f = all1[i as int];
        proof {
            first.lemma_wf();
            lemma_first_of(done);
            assert(all1.take(i + 1).drop_last() =~= done);
            assert(all1.take(i + 1).last() == f);
            assert(all1.take(i + 1) =~= done.push(f));
            lemma_total_size_push(done, f);
            lemma_tally_prefix(all1, i + 1);
        }
        if !first.accepts(&snap1[i]) {
            proof {
                if has_path(done, f.path) {
                    let k = path_index(done, f.path);
                    assert(all1[k] == done[k]);
                    assert(all1[k].path == all1[i as int].path);
                }
            }
            return None;
        }
        first.add(snap1[i].clone());
        proof {
            let more = all1.take(i + 1);
            assert forall|x: int, y: int| 0 <= x < more.len() && 0 <= y < more.len() && x != y implies (
            #[trigger] more[x]).path != (#[trigger] more[y]).path by {
                if x < i && y < i {
                    assert(more[x] == done[x]);
                    assert(more[y] == done[y]);
                } else {
                    let k = if x < i { x } else { y };
                    assert(more[k] == done[k]);
                    assert(done[k].path != f.path);
                }
            }
        }
        i += 1;
    }
    proof {
        assert(all1.take(i as int) =~= all1);
        lemma_first_of(all1);
        first.lemma_wf();
    }
    let mut second = Snapshot2::new(first);
    let ghost start = Snapshot2View::new(first_of(all1));
    let mut j: usize = 0;
    while j < snap2.len()
        invariant
            j <= snap2@.len(),
            all2 == views(snap2@),
            start == Snapshot2View::new(first_of(all1)),
            second@ == second_of(start, all2.take(j as int)),
            second.wf(),
        decreases snap2@.len() - j,
    {
        let ghost done = all2.take(j as int);
        let ghost f = all2[j as int];
        proof {
            second.lemma_wf();
            lemma_second_total(start, done);
            assert(all2.take(j + 1).drop_last() =~= done);
            assert(all2.take(j + 1).last() == f);
            assert(all2.take(j + 1) =~= done.push(f));
            lemma_total_size_push(done, f);
            lemma_tally_prefix(all2, j + 1);
        }
        if !second.accepts(&snap2[j]) {
            return None;
        }
        second.add(snap2[j].clone());
        j += 1;
    }
    proof {
        assert(all2.take(j as int) =~= all2);
        lemma_second_total(start, all2);
        second.lemma_wf();
    }
    Some(second.conclude())
}

} // verus!
