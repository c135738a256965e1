//! The report of a comparison, told directly from the two snapshots.

use vstd::prelude::*;
use crate::file::FileView;
use crate::compare::{compare, first_of, lemma_first_of, lemma_second_of_balanced, second_of};
use crate::checksum::CheckSum;
use crate::reconcile::{
    lemma_bucket_index_of, lemma_flat_index_of, lemma_index_of_holds, lemma_matched_by_lengths,
    lemma_matched_bytes_symmetric, lemma_matched_count, lemma_matched_symmetric, lemma_parts_tally,
    matched_part, sizes_agree, surplus_part, with_checksum,
};
use crate::report::ReportView;
use crate::snapshot::{bucket, index_of, lemma_index_of_well_formed};
use crate::snapshot_1::{distinct_paths, has_path, lemma_path_found, path_index};
use crate::snapshot_2::Snapshot2View;
use crate::stats::{lemma_total_size_push, lemma_total_size_remove, tally, StatsView};

verus! {

/// The file that stands at a path, where one does.
pub open spec fn file_at(files: Seq<FileView>, path: Seq<char>) -> FileView {
    files[path_index(files, path)]
}

/// Whether no file of `other` stands at the path of `f`.
pub open spec fn is_absent(other: Seq<FileView>, f: FileView) -> bool {
    !has_path(other, f.path)
}

/// Whether `other` has a file at the path of `f` with the same contents.
pub open spec fn is_identical(other: Seq<FileView>, f: FileView) -> bool {
    has_path(other, f.path) && file_at(other, f.path).same_contents(f)
}

/// Whether `other` has a file at the path of `f` with other contents.
pub open spec fn is_modified(other: Seq<FileView>, f: FileView) -> bool {
    has_path(other, f.path) && !file_at(other, f.path).same_contents(f)
}

/// Holds of the files whose path does not occur among `other`.
pub open spec fn absent_from(other: Seq<FileView>) -> spec_fn(FileView) -> bool {
    |f: FileView| is_absent(other, f)
}

/// Holds of the files that `other` has at the same path with the same
/// contents.
pub open spec fn identical_in(other: Seq<FileView>) -> spec_fn(FileView) -> bool {
    |f: FileView| is_identical(other, f)
}

/// Holds of the files that `other` has at the same path with other
/// contents.
pub open spec fn modified_in(other: Seq<FileView>) -> spec_fn(FileView) -> bool {
    |f: FileView| is_modified(other, f)
}

/// Both sequences hold the same files, in whatever order.
pub open spec fn same_files(a: Seq<FileView>, b: Seq<FileView>) -> bool {
    forall|f: FileView| a.contains(f) <==> b.contains(f)
}

/// A path occurs among files with one more file if it occurred before or
/// is that file's.
pub proof fn lemma_has_path_push(files: Seq<FileView>, g: FileView, path: Seq<char>)
    ensures
        has_path(files.push(g), path) == (has_path(files, path) || g.path == path),
{
    let more = files.push(g);
    if has_path(files, path) {
        let i = path_index(files, path);
        assert(more[i].path == path);
    }
    if g.path == path {
        assert(more[files.len() as int].path == path);
    }
    if has_path(more, path) {
        let i = path_index(more, path);
        if i < files.len() {
            assert(files[i].path == path);
        }
    }
}

/// Distinct paths stay distinct without the last file.
pub proof fn lemma_distinct_drop_last(files: Seq<FileView>)
    requires
        distinct_paths(files),
        files.len() > 0,
    ensures
        distinct_paths(files.drop_last()),
        !has_path(files.drop_last(), files.last().path),
{
    let r = files.drop_last();
    assert forall|i: int, j: int| 0 <= i < r.len() && 0 <= j < r.len() && i != j implies (#[trigger] r[i]).path != (#[trigger] r[j]).path by {
        assert(r[i] == files[i]);
        assert(r[j] == files[j]);
    }
    if has_path(r, files.last().path) {
        let i = path_index(r, files.last().path);
        assert(r[i] == files[i]);
        assert(files[i].path == files[files.len() - 1].path);
    }
}

/// A path occurs among files exactly if a file with that path is among
/// them.
pub proof fn lemma_has_path_contains(files: Seq<FileView>, f: FileView)
    requires
        files.contains(f),
    ensures
        has_path(files, f.path),
        distinct_paths(files) ==> file_at(files, f.path) == f,
{
    let i = choose|i: int| 0 <= i < files.len() && files[i] == f;
    assert(files[i].path == f.path);
    if distinct_paths(files) {
        lemma_path_found(files, i);
    }
}

/// A selection of files with distinct paths has distinct paths.
pub proof fn lemma_filter_distinct(files: Seq<FileView>, keep: spec_fn(FileView) -> bool)
    requires
        distinct_paths(files),
    ensures
        distinct_paths(files.filter(keep)),
    decreases files.len(),
{
    reveal(Seq::filter);
    if files.len() > 0 {
        let rest = files.drop_last();
        let l = files.last();
        lemma_distinct_drop_last(files);
        lemma_filter_distinct(rest, keep);
        let sub = rest.filter(keep);
        if keep(l) {
            let r = sub.push(l);
            assert forall|i: int, j: int| 0 <= i < r.len() && 0 <= j < r.len() && i != j implies (
            #[trigger] r[i]).path != (#[trigger] r[j]).path by {
                if i < sub.len() && j < sub.len() {
                    assert(r[i] == sub[i]);
                    assert(r[j] == sub[j]);
                } else {
                    let k = if i < sub.len() { i } else { j };
                    assert(sub.contains(sub[k]));
                    rest.lemma_filter_contains_rev(keep, sub[k]);
                    lemma_has_path_contains(rest, sub[k]);
                }
            }
        }
    }
}

/// Which paths a selection of files has: those of the files that are kept.
pub proof fn lemma_filter_has_path(
    files: Seq<FileView>,
    keep: spec_fn(FileView) -> bool,
    path: Seq<char>,
)
    requires
        distinct_paths(files),
    ensures
        has_path(files.filter(keep), path) == (has_path(files, path) && keep(file_at(files, path))),
        has_path(files.filter(keep), path) ==> file_at(files.filter(keep), path) == file_at(
            files,
            path,
        ),
{
    let sub = files.filter(keep);
    lemma_filter_distinct(files, keep);
    if has_path(sub, path) {
        let i = path_index(sub, path);
        assert(sub.contains(sub[i]));
        files.lemma_filter_contains_rev(keep, sub[i]);
        lemma_has_path_contains(files, sub[i]);
        files.lemma_filter_pred(keep, i);
    }
    if has_path(files, path) && keep(file_at(files, path)) {
        let j = path_index(files, path);
        files.lemma_filter_contains(keep, j);
        lemma_has_path_contains(sub, files[j]);
    }
}

/// Which files a selection holds: those of the files that are kept.
pub proof fn lemma_filter_holds(files: Seq<FileView>, keep: spec_fn(FileView) -> bool, f: FileView)
    ensures
        files.filter(keep).contains(f) == (files.contains(f) && keep(f)),
{
    let sub = files.filter(keep);
    if sub.contains(f) {
        files.lemma_filter_contains_rev(keep, f);
        let i = choose|i: int| 0 <= i < sub.len() && sub[i] == f;
        files.lemma_filter_pred(keep, i);
    }
    if files.contains(f) && keep(f) {
        let j = choose|j: int| 0 <= j < files.len() && files[j] == f;
        files.lemma_filter_contains(keep, j);
    }
}

/// The files whose path is absent from `other` and from one more file are
/// those absent from `other`, without the one at that file's path.
pub proof fn lemma_absent_from_more(files: Seq<FileView>, other: Seq<FileView>, g: FileView)
    requires
        distinct_paths(files),
    ensures
        ({
            let before = files.filter(absent_from(other));
            files.filter(absent_from(other.push(g))) == if has_path(before, g.path) {
                before.remove(path_index(before, g.path))
            } else {
                before
            }
        }),
    decreases files.len(),
{
    reveal(Seq::filter);
    let before = files.filter(absent_from(other));
    let after = files.filter(absent_from(other.push(g)));
    if files.len() == 0 {
        assert(!has_path(before, g.path));
    } else {
        let rest = files.drop_last();
        let l = files.last();
        lemma_distinct_drop_last(files);
        lemma_absent_from_more(rest, other, g);
        lemma_has_path_push(other, g, l.path);
        let before0 = rest.filter(absent_from(other));
        let after0 = rest.filter(absent_from(other.push(g)));
        lemma_filter_distinct(files, absent_from(other));
        lemma_filter_has_path(rest, absent_from(other), g.path);
        if absent_from(other)(l) {
            assert(before == before0.push(l));
            lemma_has_path_push(before0, l, g.path);
            if l.path == g.path {
                lemma_path_found(before, before0.len() as int);
                assert(before.remove(before0.len() as int) =~= before0);
            } else {
                if has_path(before0, g.path) {
                    let i = path_index(before0, g.path);
                    assert(before[i] == before0[i]);
                    lemma_path_found(before, i);
                    assert(before.remove(i) =~= before0.remove(i).push(l));
                }
            }
        }
    }
}

/// Two sequences with distinct paths that hold the same files hold as many
/// files and as many bytes.
pub proof fn lemma_tally_same_files(a: Seq<FileView>, b: Seq<FileView>)
    requires
        distinct_paths(a),
        distinct_paths(b),
        same_files(a, b),
    ensures
        tally(a) == tally(b),
    decreases a.len(),
{
    if a.len() == 0 {
        if b.len() > 0 {
            assert(b.contains(b[0]));
            assert(a.contains(b[0]));
        }
    } else {
        let a0 = a.drop_last();
        let l = a.last();
        assert(a.contains(l)) by {
            assert(a[a.len() - 1] == l);
        }
        assert(b.contains(l));
        let i = choose|i: int| 0 <= i < b.len() && b[i] == l;
        let b0 = b.remove(i);
        lemma_distinct_drop_last(a);
        assert forall|x: int, y: int| 0 <= x < b0.len() && 0 <= y < b0.len() && x != y implies (#[trigger] b0[x]).path != (#[trigger] b0[y]).path by {
            let bx = if x < i { x } else { x + 1 };
            let by_ = if y < i { y } else { y + 1 };
            assert(b0[x] == b[bx]);
            assert(b0[y] == b[by_]);
        }
        assert forall|f: FileView| a0.contains(f) <==> b0.contains(f) by {
            if a0.contains(f) {
                let k = choose|k: int| 0 <= k < a0.len() && a0[k] == f;
                assert(a[k] == f);
                assert(a.contains(f));
                assert(b.contains(f));
                let j = choose|j: int| 0 <= j < b.len() && b[j] == f;
                if j == i {
                    assert(a[k].path == a[a.len() - 1].path);
                }
                let x = if j < i { j } else { j - 1 };
                assert(b0[x] == f);
            }
            if b0.contains(f) {
                let x = choose|x: int| 0 <= x < b0.len() && b0[x] == f;
                let j = if x < i { x } else { x + 1 };
                assert(b[j] == f);
                assert(b.contains(f));
                assert(a.contains(f));
                let k = choose|k: int| 0 <= k < a.len() && a[k] == f;
                if k == a.len() - 1 {
                    assert(b[j].path == b[i].path);
                }
                assert(a0[k] == f);
            }
        }
        lemma_tally_same_files(a0, b0);
        lemma_total_size_remove(b, i);
    }
}

/// An accumulator that has counted these files without keeping them.
pub open spec fn counted(files: Seq<FileView>) -> StatsView {
    StatsView { count: tally(files), files: Seq::empty(), keeps_files: false }
}

/// An accumulator that has counted these files and kept them.
pub open spec fn listed(files: Seq<FileView>) -> StatsView {
    StatsView { count: tally(files), files, keeps_files: true }
}

/// The second snapshot after all its files were added, told directly: the
/// first snapshot keeps the files whose path the second does not have; the
/// remainder holds the files whose path the first does not have; the rest
/// of the second snapshot's files is identical or modified.
pub proof fn lemma_second_of_outcome(snap1: Seq<FileView>, snap2: Seq<FileView>)
    requires
        distinct_paths(snap1),
        distinct_paths(snap2),
    ensures
        ({
            let s = second_of(Snapshot2View::new(first_of(snap1)), snap2);
            &&& s.snap_1.files == snap1.filter(absent_from(snap2))
            &&& s.snap_1.total == counted(snap1)
            &&& s.remainder == index_of(snap2.filter(absent_from(snap1)))
            &&& s.report.total_snap_2 == counted(snap2)
            &&& s.report.identical == counted(snap2.filter(identical_in(snap1)))
            &&& s.report.modified_snap_2 == listed(snap2.filter(modified_in(snap1)))
            &&& s.report.modified_snap_1.files == Seq::<FileView>::empty()
            &&& !s.report.modified_snap_1.keeps_files
        }),
    decreases snap2.len(),
{
    reveal(Seq::filter);
    let start = Snapshot2View::new(first_of(snap1));
    lemma_first_of(snap1);
    if snap2.len() == 0 {
        assert(snap1.filter(absent_from(snap2)) =~= snap1) by {
            lemma_filter_all(snap1, absent_from(snap2));
        }
        assert(snap2 =~= Seq::empty());
    } else {
        let t = snap2.drop_last();
        let g = snap2.last();
        lemma_distinct_drop_last(snap2);
        lemma_second_of_outcome(snap1, t);
        let before = second_of(start, t);
        assert(t.push(g) =~= snap2);
        lemma_filter_has_path(snap1, absent_from(t), g.path);
        lemma_absent_from_more(snap1, t, g);
        lemma_total_size_push(t, g);
        lemma_total_size_push(t.filter(identical_in(snap1)), g);
        lemma_total_size_push(t.filter(modified_in(snap1)), g);
        let kept = t.filter(absent_from(snap1));
        if absent_from(snap1)(g) {
            assert(kept.push(g).drop_last() =~= kept);
        }
    }
}

/// A selection that keeps every file is the whole sequence.
pub proof fn lemma_filter_all(files: Seq<FileView>, keep: spec_fn(FileView) -> bool)
    requires
        forall|i: int| 0 <= i < files.len() ==> keep(#[trigger] files[i]),
    ensures
        files.filter(keep) == files,
    decreases files.len(),
{
    reveal(Seq::filter);
    if files.len() > 0 {
        lemma_filter_all(files.drop_last(), keep);
        assert(files.drop_last().push(files.last()) =~= files);
    }
}

/// A selection that keeps no file is empty.
pub proof fn lemma_filter_none(files: Seq<FileView>, keep: spec_fn(FileView) -> bool)
    requires
        forall|i: int| 0 <= i < files.len() ==> !keep(#[trigger] files[i]),
    ensures
        files.filter(keep) == Seq::<FileView>::empty(),
    decreases files.len(),
{
    reveal(Seq::filter);
    if files.len() > 0 {
        lemma_filter_none(files.drop_last(), keep);
    } else {
        assert(files =~= Seq::empty());
    }
}

/// Every file is identical, modified or absent with regard to another
/// snapshot, and only one of these.
pub proof fn lemma_three_ways(files: Seq<FileView>, other: Seq<FileView>)
    ensures
        tally(files) == tally(files.filter(identical_in(other))).plus(
            tally(files.filter(modified_in(other))),
        ).plus(tally(files.filter(absent_from(other)))),
    decreases files.len(),
{
    reveal(Seq::filter);
    if files.len() > 0 {
        let rest = files.drop_last();
        let l = files.last();
        lemma_three_ways(rest, other);
        lemma_total_size_push(rest.filter(identical_in(other)), l);
        lemma_total_size_push(rest.filter(modified_in(other)), l);
        lemma_total_size_push(rest.filter(absent_from(other)), l);
    }
}

/// Where paths are distinct, a file is identical with regard to a snapshot
/// exactly if the snapshot holds it.
pub proof fn lemma_identical_is_held(other: Seq<FileView>, f: FileView)
    requires
        distinct_paths(other),
    ensures
        identical_in(other)(f) == other.contains(f),
{
    if other.contains(f) {
        lemma_has_path_contains(other, f);
    }
    if identical_in(other)(f) {
        let i = path_index(other, f.path);
        assert(other[i].path =~= f.path);
        assert(other[i] == f);
    }
}

/// The files of the second snapshot that are identical are, in another
/// order, the files of the first snapshot that are identical.
pub proof fn lemma_identical_both_ways(snap1: Seq<FileView>, snap2: Seq<FileView>)
    requires
        distinct_paths(snap1),
        distinct_paths(snap2),
    ensures
        tally(snap2.filter(identical_in(snap1))) == tally(snap1.filter(identical_in(snap2))),
{
    let a = snap2.filter(identical_in(snap1));
    let b = snap1.filter(identical_in(snap2));
    lemma_filter_distinct(snap2, identical_in(snap1));
    lemma_filter_distinct(snap1, identical_in(snap2));
    assert forall|f: FileView| a.contains(f) <==> b.contains(f) by {
        lemma_filter_holds(snap2, identical_in(snap1), f);
        lemma_filter_holds(snap1, identical_in(snap2), f);
        lemma_identical_is_held(snap1, f);
        lemma_identical_is_held(snap2, f);
    }
    lemma_tally_same_files(a, b);
}

/// The files of the first snapshot that no file of the second claims by
/// path, grouped by checksum.
pub open spec fn left_over(snap1: Seq<FileView>, snap2: Seq<FileView>) -> Seq<
    (CheckSum, Seq<FileView>),
> {
    index_of(snap1.filter(absent_from(snap2)))
}

/// The report of a comparison, told directly. A file of the second
/// snapshot is identical where the first has the same contents at the same
/// path, and modified where it has other contents there. The files that
/// have no partner by path are paired by checksum, first with first: the
/// pairs are the moved files, named as in the first snapshot; the rest of
/// the first snapshot's is deleted, the rest of the second's is added.
pub open spec fn outcome(snap1: Seq<FileView>, snap2: Seq<FileView>) -> ReportView {
    let left = left_over(snap1, snap2);
    let right = left_over(snap2, snap1);
    ReportView {
        total_snap_1: counted(snap1),
        total_snap_2: counted(snap2),
        identical: counted(snap2.filter(identical_in(snap1))),
        moved: listed(matched_part(left, right)),
        added: listed(surplus_part(right, left)),
        deleted: listed(surplus_part(left, right)),
        modified_snap_1: counted(snap1.filter(modified_in(snap2))),
        modified_snap_2: listed(snap2.filter(modified_in(snap1))),
    }
}

/// A comparison of two snapshots, each with distinct paths, reports what
/// `outcome` tells; of the first snapshot's modified files it reports the
/// count.
pub proof fn theorem_outcome(snap1: Seq<FileView>, snap2: Seq<FileView>)
    requires
        distinct_paths(snap1),
        distinct_paths(snap2),
    ensures
        compare(snap1, snap2) == outcome(snap1, snap2),
{
    let s = second_of(Snapshot2View::new(first_of(snap1)), snap2);
    let r = compare(snap1, snap2);
    let o = outcome(snap1, snap2);
    lemma_second_of_outcome(snap1, snap2);
    lemma_second_of_balanced(snap1, snap2);
    lemma_three_ways(snap1, snap2);
    lemma_identical_both_ways(snap1, snap2);
    let left = left_over(snap1, snap2);
    let right = left_over(snap2, snap1);
    assert(Seq::<FileView>::empty() + matched_part(left, right) =~= matched_part(left, right));
    assert(Seq::<FileView>::empty() + surplus_part(left, right) =~= surplus_part(left, right));
    assert(Seq::<FileView>::empty() + surplus_part(right, left) =~= surplus_part(right, left));
    assert(r.moved == o.moved);
    assert(r.added == o.added);
    assert(r.deleted == o.deleted);
    assert(r.modified_snap_1.count == o.modified_snap_1.count);
    assert(r.modified_snap_1 == o.modified_snap_1);
}

/// Two snapshots with the same files, added in whatever order: every file
/// is identical, both totals are the count of the identical files, and
/// every other category is empty.
pub proof fn theorem_same_snapshots(snap1: Seq<FileView>, snap2: Seq<FileView>)
    requires
        distinct_paths(snap1),
        distinct_paths(snap2),
        same_files(snap1, snap2),
    ensures
        ({
            let r = compare(snap1, snap2);
            &&& r.identical.count == r.total_snap_1.count
            &&& r.identical.count == r.total_snap_2.count
            &&& r.identical.count == tally(snap1)
            &&& r.moved == StatsView::empty(true)
            &&& r.added == StatsView::empty(true)
            &&& r.deleted == StatsView::empty(true)
            &&& r.modified_snap_1 == StatsView::empty(false)
            &&& r.modified_snap_2 == StatsView::empty(true)
        }),
{
    theorem_outcome(snap1, snap2);
    lemma_tally_same_files(snap1, snap2);
    assert forall|i: int| 0 <= i < snap2.len() implies identical_in(snap1)(#[trigger] snap2[i])
        && !modified_in(snap1)(snap2[i]) && !absent_from(snap1)(snap2[i]) by {
        assert(snap2.contains(snap2[i]));
        lemma_identical_is_held(snap1, snap2[i]);
    }
    assert forall|i: int| 0 <= i < snap1.len() implies identical_in(snap2)(#[trigger] snap1[i])
        && !modified_in(snap2)(snap1[i]) && !absent_from(snap2)(snap1[i]) by {
        assert(snap1.contains(snap1[i]));
        lemma_identical_is_held(snap2, snap1[i]);
    }
    lemma_filter_all(snap2, identical_in(snap1));
    lemma_filter_none(snap2, modified_in(snap1));
    lemma_filter_none(snap2, absent_from(snap1));
    lemma_filter_none(snap1, modified_in(snap2));
    lemma_filter_none(snap1, absent_from(snap2));
    let none = index_of(Seq::<FileView>::empty());
    assert(none =~= Seq::empty());
    assert(matched_part(none, none) =~= Seq::empty());
    assert(surplus_part(none, none) =~= Seq::empty());
}

/// With the two snapshots in each other's place, added and deleted change
/// places and so do the two counts of modified files; as many files are
/// identical, with as many bytes, and as many are moved.
pub proof fn theorem_swapped(snap1: Seq<FileView>, snap2: Seq<FileView>)
    requires
        distinct_paths(snap1),
        distinct_paths(snap2),
    ensures
        ({
            let r = compare(snap1, snap2);
            let q = compare(snap2, snap1);
            &&& q.total_snap_1 == r.total_snap_2
            &&& q.total_snap_2 == r.total_snap_1
            &&& q.added == r.deleted
            &&& q.deleted == r.added
            &&& q.modified_snap_1.count == r.modified_snap_2.count
            &&& q.modified_snap_2.count == r.modified_snap_1.count
            &&& q.identical == r.identical
            &&& q.moved.count.files == r.moved.count.files
        }),
{
    theorem_outcome(snap1, snap2);
    theorem_outcome(snap2, snap1);
    lemma_identical_both_ways(snap1, snap2);
    lemma_index_of_well_formed(snap1.filter(absent_from(snap2)));
    lemma_index_of_well_formed(snap2.filter(absent_from(snap1)));
    lemma_matched_symmetric(left_over(snap1, snap2), left_over(snap2, snap1));
}

/// Where two sequences with distinct paths hold the same files, the same
/// paths occur in both, with the same file at each.
pub proof fn lemma_same_files_paths(a: Seq<FileView>, b: Seq<FileView>, path: Seq<char>)
    requires
        distinct_paths(a),
        distinct_paths(b),
        same_files(a, b),
    ensures
        has_path(a, path) == has_path(b, path),
        has_path(a, path) ==> file_at(a, path) == file_at(b, path),
{
    if has_path(a, path) {
        let f = file_at(a, path);
        assert(a.contains(f));
        assert(b.contains(f));
        lemma_has_path_contains(b, f);
    }
    if has_path(b, path) {
        let f = file_at(b, path);
        assert(b.contains(f));
        assert(a.contains(f));
        lemma_has_path_contains(a, f);
    }
}

/// A selection from the same files by a test that answers the same holds
/// as many files and bytes, whatever the order.
pub proof fn lemma_tally_filter_same(
    a: Seq<FileView>,
    keep_a: spec_fn(FileView) -> bool,
    b: Seq<FileView>,
    keep_b: spec_fn(FileView) -> bool,
)
    requires
        distinct_paths(a),
        distinct_paths(b),
        same_files(a, b),
        forall|f: FileView| a.contains(f) ==> keep_a(f) == keep_b(f),
    ensures
        tally(a.filter(keep_a)) == tally(b.filter(keep_b)),
        same_files(a.filter(keep_a), b.filter(keep_b)),
{
    lemma_filter_distinct(a, keep_a);
    lemma_filter_distinct(b, keep_b);
    assert forall|f: FileView| a.filter(keep_a).contains(f) <==> b.filter(keep_b).contains(f) by {
        lemma_filter_holds(a, keep_a, f);
        lemma_filter_holds(b, keep_b, f);
    }
    lemma_tally_same_files(a.filter(keep_a), b.filter(keep_b));
}

/// The order in which the files of either snapshot are added does not
/// change how many files the report counts in each total and category, nor
/// how many bytes it counts in the totals and as identical or modified, nor
/// how many bytes moved and deleted files hold together.
pub proof fn theorem_order_is_immaterial(
    snap1: Seq<FileView>,
    snap2: Seq<FileView>,
    other1: Seq<FileView>,
    other2: Seq<FileView>,
)
    requires
        distinct_paths(snap1),
        distinct_paths(snap2),
        distinct_paths(other1),
        distinct_paths(other2),
        same_files(snap1, other1),
        same_files(snap2, other2),
    ensures
        ({
            let r = compare(snap1, snap2);
            let q = compare(other1, other2);
            &&& q.total_snap_1 == r.total_snap_1
            &&& q.total_snap_2 == r.total_snap_2
            &&& q.identical == r.identical
            &&& q.modified_snap_1 == r.modified_snap_1
            &&& q.modified_snap_2.count == r.modified_snap_2.count
            &&& q.moved.count.files == r.moved.count.files
            &&& q.added.count.files == r.added.count.files
            &&& q.deleted.count.files == r.deleted.count.files
            &&& q.moved.count.plus(q.deleted.count) == r.moved.count.plus(r.deleted.count)
        }),
{
    theorem_outcome(snap1, snap2);
    theorem_outcome(other1, other2);
    lemma_tally_same_files(snap1, other1);
    lemma_tally_same_files(snap2, other2);
    assert forall|f: FileView| #[trigger] is_identical(snap1, f) == is_identical(other1, f) by {
        lemma_same_files_paths(snap1, other1, f.path);
    }
    assert forall|f: FileView| #[trigger] is_modified(snap1, f) == is_modified(other1, f) by {
        lemma_same_files_paths(snap1, other1, f.path);
    }
    assert forall|f: FileView| #[trigger] is_absent(snap1, f) == is_absent(other1, f) by {
        lemma_same_files_paths(snap1, other1, f.path);
    }
    assert forall|f: FileView| #[trigger] is_identical(snap2, f) == is_identical(other2, f) by {
        lemma_same_files_paths(snap2, other2, f.path);
    }
    assert forall|f: FileView| #[trigger] is_modified(snap2, f) == is_modified(other2, f) by {
        lemma_same_files_paths(snap2, other2, f.path);
    }
    assert forall|f: FileView| #[trigger] is_absent(snap2, f) == is_absent(other2, f) by {
        lemma_same_files_paths(snap2, other2, f.path);
    }
    lemma_tally_filter_same(snap2, identical_in(snap1), other2, identical_in(other1));
    lemma_tally_filter_same(snap2, modified_in(snap1), other2, modified_in(other1));
    lemma_tally_filter_same(snap1, modified_in(snap2), other1, modified_in(other2));
    let u1 = snap1.filter(absent_from(snap2));
    let u2 = snap2.filter(absent_from(snap1));
    let v1 = other1.filter(absent_from(other2));
    let v2 = other2.filter(absent_from(other1));
    lemma_tally_filter_same(snap1, absent_from(snap2), other1, absent_from(other2));
    lemma_tally_filter_same(snap2, absent_from(snap1), other2, absent_from(other1));
    lemma_filter_distinct(snap1, absent_from(snap2));
    lemma_filter_distinct(snap2, absent_from(snap1));
    lemma_filter_distinct(other1, absent_from(other2));
    lemma_filter_distinct(other2, absent_from(other1));
    assert forall|checksum: CheckSum|
        bucket(index_of(u1), checksum).len() == bucket(index_of(v1), checksum).len() by {
        lemma_bucket_index_of(u1, checksum);
        lemma_bucket_index_of(v1, checksum);
        lemma_tally_filter_same(u1, with_checksum(checksum), v1, with_checksum(checksum));
    }
    assert forall|checksum: CheckSum|
        bucket(index_of(u2), checksum).len() == bucket(index_of(v2), checksum).len() by {
        lemma_bucket_index_of(u2, checksum);
        lemma_bucket_index_of(v2, checksum);
        lemma_tally_filter_same(u2, with_checksum(checksum), v2, with_checksum(checksum));
    }
    lemma_index_of_well_formed(u1);
    lemma_index_of_well_formed(u2);
    lemma_index_of_well_formed(v1);
    lemma_index_of_well_formed(v2);
    lemma_matched_count(index_of(u1), index_of(u2), index_of(v1), index_of(v2));
    lemma_matched_count(index_of(u2), index_of(u1), index_of(v2), index_of(v1));
    lemma_parts_tally(index_of(u1), index_of(u2));
    lemma_parts_tally(index_of(v1), index_of(v2));
    lemma_parts_tally(index_of(u2), index_of(u1));
    lemma_parts_tally(index_of(v2), index_of(v1));
    lemma_flat_index_of(u1);
    lemma_flat_index_of(u2);
    lemma_flat_index_of(v1);
    lemma_flat_index_of(v2);
}

/// Whether a file is one of either snapshot.
pub open spec fn among(snap1: Seq<FileView>, snap2: Seq<FileView>, f: FileView) -> bool {
    snap1.contains(f) || snap2.contains(f)
}

/// Across both snapshots, files with the same checksum have the same
/// size: no two contents of different length share a checksum.
pub open spec fn one_size_per_checksum(snap1: Seq<FileView>, snap2: Seq<FileView>) -> bool {
    forall|f: FileView, g: FileView|
        #[trigger] among(snap1, snap2, f) && #[trigger] among(snap1, snap2, g) && f.check_sum
            == g.check_sum ==> f.size == g.size
}

/// Where files with the same checksum have the same size, the indexes of
/// any of these files agree in their sizes.
pub proof fn lemma_indexes_agree(
    snap1: Seq<FileView>,
    snap2: Seq<FileView>,
    x: Seq<FileView>,
    y: Seq<FileView>,
)
    requires
        one_size_per_checksum(snap1, snap2),
        forall|f: FileView| x.contains(f) ==> among(snap1, snap2, f),
        forall|f: FileView| y.contains(f) ==> among(snap1, snap2, f),
    ensures
        sizes_agree(index_of(x), index_of(y)),
{
    let a = index_of(x);
    let b = index_of(y);
    assert forall|i: int, j: int, k: int, l: int|
        0 <= i < a.len() && 0 <= j < b.len() && 0 <= k < a[i].1.len() && 0 <= l < b[j].1.len()
            && a[i].0 == b[j].0 implies (#[trigger] a[i].1[k]).size == (#[trigger] b[j].1[l]).size by {
        lemma_index_of_holds(x, i, k);
        lemma_index_of_holds(y, j, l);
        assert(among(snap1, snap2, a[i].1[k]));
        assert(among(snap1, snap2, b[j].1[l]));
    }
}

/// The files that have no partner by path are files of their snapshot.
pub proof fn lemma_absent_are_among(
    snap1: Seq<FileView>,
    snap2: Seq<FileView>,
    files: Seq<FileView>,
    other: Seq<FileView>,
)
    requires
        forall|f: FileView| files.contains(f) ==> among(snap1, snap2, f),
    ensures
        forall|f: FileView| #[trigger]
            files.filter(absent_from(other)).contains(f) ==> among(snap1, snap2, f),
{
    assert forall|f: FileView| #[trigger]
        files.filter(absent_from(other)).contains(f) implies among(snap1, snap2, f) by {
        lemma_filter_holds(files, absent_from(other), f);
    }
}

/// Where files with the same checksum have the same size, the second
/// total is the sum of the identical, moved, added and modified files of
/// the second snapshot in bytes too.
pub proof fn theorem_second_total_is_sum_in_bytes(snap1: Seq<FileView>, snap2: Seq<FileView>)
    requires
        distinct_paths(snap1),
        distinct_paths(snap2),
        one_size_per_checksum(snap1, snap2),
    ensures
        ({
            let r = compare(snap1, snap2);
            r.total_snap_2.count == r.identical.count.plus(r.moved.count).plus(r.added.count).plus(
                r.modified_snap_2.count,
            )
        }),
{
    theorem_outcome(snap1, snap2);
    lemma_three_ways(snap2, snap1);
    let u1 = snap1.filter(absent_from(snap2));
    let u2 = snap2.filter(absent_from(snap1));
    lemma_absent_are_among(snap1, snap2, snap1, snap2);
    lemma_absent_are_among(snap1, snap2, snap2, snap1);
    lemma_indexes_agree(snap1, snap2, u1, u2);
    lemma_index_of_well_formed(u1);
    lemma_index_of_well_formed(u2);
    lemma_matched_bytes_symmetric(index_of(u1), index_of(u2));
    lemma_parts_tally(index_of(u2), index_of(u1));
    lemma_flat_index_of(u2);
}

/// Where files with the same checksum have the same size, the moved files
/// hold as many bytes with the two snapshots in each other's place.
pub proof fn theorem_swapped_in_bytes(snap1: Seq<FileView>, snap2: Seq<FileView>)
    requires
        distinct_paths(snap1),
        distinct_paths(snap2),
        one_size_per_checksum(snap1, snap2),
    ensures
        compare(snap2, snap1).moved.count == compare(snap1, snap2).moved.count,
{
    theorem_outcome(snap1, snap2);
    theorem_outcome(snap2, snap1);
    let u1 = snap1.filter(absent_from(snap2));
    let u2 = snap2.filter(absent_from(snap1));
    lemma_absent_are_among(snap1, snap2, snap1, snap2);
    lemma_absent_are_among(snap1, snap2, snap2, snap1);
    lemma_indexes_agree(snap1, snap2, u1, u2);
    lemma_index_of_well_formed(u1);
    lemma_index_of_well_formed(u2);
    lemma_matched_bytes_symmetric(index_of(u1), index_of(u2));
}

/// Where files with the same checksum have the same size, the order in
/// which the files of either snapshot are added does not change how many
/// bytes the moved, the added and the deleted files hold.
pub proof fn theorem_order_is_immaterial_in_bytes(
    snap1: Seq<FileView>,
    snap2: Seq<FileView>,
    other1: Seq<FileView>,
    other2: Seq<FileView>,
)
    requires
        distinct_paths(snap1),
        distinct_paths(snap2),
        distinct_paths(other1),
        distinct_paths(other2),
        same_files(snap1, other1),
        same_files(snap2, other2),
        one_size_per_checksum(snap1, snap2),
    ensures
        ({
            let r = compare(snap1, snap2);
            let q = compare(other1, other2);
            &&& q.moved.count == r.moved.count
            &&& q.added.count == r.added.count
            &&& q.deleted.count == r.deleted.count
        }),
{
    theorem_outcome(snap1, snap2);
    theorem_outcome(other1, other2);
    assert forall|f: FileView| #[trigger] is_absent(snap1, f) == is_absent(other1, f) by {
        lemma_same_files_paths(snap1, other1, f.path);
    }
    assert forall|f: FileView| #[trigger] is_absent(snap2, f) == is_absent(other2, f) by {
        lemma_same_files_paths(snap2, other2, f.path);
    }
    let u1 = snap1.filter(absent_from(snap2));
    let u2 = snap2.filter(absent_from(snap1));
    let v1 = other1.filter(absent_from(other2));
    let v2 = other2.filter(absent_from(other1));
    lemma_tally_filter_same(snap1, absent_from(snap2), other1, absent_from(other2));
    lemma_tally_filter_same(snap2, absent_from(snap1), other2, absent_from(other1));
    lemma_filter_distinct(snap1, absent_from(snap2));
    lemma_filter_distinct(snap2, absent_from(snap1));
    lemma_filter_distinct(other1, absent_from(other2));
    lemma_filter_distinct(other2, absent_from(other1));
    assert forall|checksum: CheckSum|
        bucket(index_of(u1), checksum).len() == bucket(index_of(v1), checksum).len() by {
        lemma_bucket_index_of(u1, checksum);
        lemma_bucket_index_of(v1, checksum);
        lemma_tally_filter_same(u1, with_checksum(checksum), v1, with_checksum(checksum));
    }
    assert forall|checksum: CheckSum|
        bucket(index_of(u2), checksum).len() == bucket(index_of(v2), checksum).len() by {
        lemma_bucket_index_of(u2, checksum);
        lemma_bucket_index_of(v2, checksum);
        lemma_tally_filter_same(u2, with_checksum(checksum), v2, with_checksum(checksum));
    }
    let l = index_of(u1);
    let r = index_of(u2);
    let lo = index_of(v1);
    let ro = index_of(v2);
    lemma_index_of_well_formed(u1);
    lemma_index_of_well_formed(u2);
    lemma_index_of_well_formed(v1);
    lemma_index_of_well_formed(v2);
    lemma_absent_are_among(snap1, snap2, snap1, snap2);
    lemma_absent_are_among(snap1, snap2, snap2, snap1);
    assert forall|f: FileView| v1.contains(f) implies among(snap1, snap2, f) by {
        lemma_filter_holds(other1, absent_from(other2), f);
    }
    assert forall|f: FileView| v2.contains(f) implies among(snap1, snap2, f) by {
        lemma_filter_holds(other2, absent_from(other1), f);
    }
    lemma_indexes_agree(snap1, snap2, u1, u2);
    lemma_indexes_agree(snap1, snap2, u1, v2);
    lemma_indexes_agree(snap1, snap2, v2, v1);
    lemma_indexes_agree(snap1, snap2, v1, v2);
    // moved: l with r, then l with ro, then ro with lo
    lemma_matched_by_lengths(l, r, ro);
    lemma_matched_bytes_symmetric(l, ro);
    lemma_matched_by_lengths(ro, l, lo);
    lemma_matched_bytes_symmetric(ro, lo);
    assert(tally(matched_part(l, r)) == tally(matched_part(lo, ro)));
    // deleted: what is left of the first snapshot's files
    lemma_parts_tally(l, r);
    lemma_parts_tally(lo, ro);
    lemma_flat_index_of(u1);
    lemma_flat_index_of(v1);
    // added: what is left of the second snapshot's files
    lemma_matched_bytes_symmetric(l, r);
    lemma_matched_bytes_symmetric(lo, ro);
    lemma_parts_tally(r, l);
    lemma_parts_tally(ro, lo);
    lemma_flat_index_of(u2);
    lemma_flat_index_of(v2);
}

} // verus!
