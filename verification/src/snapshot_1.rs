//! The first snapshot: an index of its files by path.

use vstd::prelude::*;
use vstd::hash_map::StringHashMap;
use crate::file::{File, FileView};
use crate::snapshot::{index_of, Buckets, FilesByChecksums, Snapshot};
use crate::stats::{lemma_total_size_push, lemma_total_size_remove, tally, Stats, StatsView};

verus! {

/// How a file of the second snapshot compares with the file that the first
/// snapshot has at the same path.
#[derive(Debug, Clone, Copy, PartialEq, Eq, Structural)]
pub enum Comparison {
    Identical,
    Modified,
}

/// Whether some file stands at this path.
pub open spec fn has_path(files: Seq<FileView>, path: Seq<char>) -> bool {
    exists|i: int| 0 <= i < files.len() && (#[trigger] files[i]).path == path
}

/// The place of the file at this path, where there is one.
pub open spec fn path_index(files: Seq<FileView>, path: Seq<char>) -> int {
    choose|i: int| 0 <= i < files.len() && (#[trigger] files[i]).path == path
}

/// No two files stand at the same path.
pub open spec fn distinct_paths(files: Seq<FileView>) -> bool {
    forall|i: int, j: int|
        0 <= i < files.len() && 0 <= j < files.len() && i != j ==> (#[trigger] files[i]).path != (
        #[trigger] files[j]).path
}

/// Where paths are distinct, the file at a path is the only one there.
pub proof fn lemma_path_found(files: Seq<FileView>, i: int)
    requires
        distinct_paths(files),
        0 <= i < files.len(),
    ensures
        has_path(files, files[i].path),
        path_index(files, files[i].path) == i,
{
    let p = files[i].path;
    assert(0 <= i < files.len() && files[i].path == p);
}

/// What the first snapshot holds, as a mathematical value.
pub ghost struct Snapshot1View {
    /// The files that no file of the second snapshot has claimed yet, in
    /// the order in which they were added.
    pub files: Seq<FileView>,
    /// The count of all files ever added.
    pub total: StatsView,
}

impl Snapshot1View {
    pub open spec fn new() -> Snapshot1View {
        Snapshot1View { files: Seq::empty(), total: StatsView::empty(false) }
    }

    /// Paths are distinct, and the total counts at least the files that are
    /// still there.
    pub open spec fn wf(self) -> bool {
        &&& distinct_paths(self.files)
        &&& self.total.keeps_files == false
        &&& self.total.files.len() == 0
        &&& self.files.len() <= self.total.count.files
        &&& tally(self.files).size <= self.total.count.size
        &&& self.total.count.fits()
    }

    /// Whether a file can be added: its path is new and the total has room.
    pub open spec fn admits(self, f: FileView) -> bool {
        !has_path(self.files, f.path) && self.total.count.with_file(f).fits()
    }

    /// The snapshot with one more file.
    pub open spec fn add(self, f: FileView) -> Snapshot1View {
        Snapshot1View { files: self.files.push(f), total: self.total.record(f) }
    }

    /// What a look-up of a file of the second snapshot answers: the file at
    /// the same path, and whether the contents are the same.
    pub open spec fn answer(self, f2: FileView) -> Option<(Comparison, FileView)> {
        if has_path(self.files, f2.path) {
            let f1 = self.files[path_index(self.files, f2.path)];
            if f1.same_contents(f2) {
                Some((Comparison::Identical, f1))
            } else {
                Some((Comparison::Modified, f1))
            }
        } else {
            None
        }
    }

    /// The snapshot after a look-up at a path: the file found there has
    /// left, the others keep their order.
    pub open spec fn digested(self, path: Seq<char>) -> Snapshot1View {
        if has_path(self.files, path) {
            Snapshot1View { files: self.files.remove(path_index(self.files, path)), total: self.total }
        } else {
            self
        }
    }

    /// The remaining files grouped by checksum.
    pub open spec fn hash_index(self) -> Buckets {
        index_of(self.files)
    }
}

/// Adding an admitted file keeps a snapshot well-formed.
pub proof fn lemma_add_wf(s: Snapshot1View, f: FileView)
    requires
        s.wf(),
        s.admits(f),
    ensures
        s.add(f).wf(),
{
    let r = s.add(f);
    lemma_total_size_push(s.files, f);
    assert forall|i: int, j: int| 0 <= i < r.files.len() && 0 <= j < r.files.len() && i != j implies (
    #[trigger] r.files[i]).path != (#[trigger] r.files[j]).path by {
        if i < s.files.len() && j < s.files.len() {
            assert(r.files[i] == s.files[i]);
            assert(r.files[j] == s.files[j]);
        } else if i < s.files.len() {
            assert(r.files[i] == s.files[i]);
        } else {
            assert(r.files[j] == s.files[j]);
        }
    }
}

/// A look-up keeps a snapshot well-formed.
pub proof fn lemma_digested_wf(s: Snapshot1View, path: Seq<char>)
    requires
        s.wf(),
    ensures
        s.digested(path).wf(),
{
    if has_path(s.files, path) {
        let i = path_index(s.files, path);
        let r = s.digested(path);
        lemma_total_size_remove(s.files, i);
        assert forall|x: int, y: int| 0 <= x < r.files.len() && 0 <= y < r.files.len() && x != y implies (
        #[trigger] r.files[x]).path != (#[trigger] r.files[y]).path by {
            let sx = if x < i { x } else { x + 1 };
            let sy = if y < i { y } else { y + 1 };
            assert(r.files[x] == s.files[sx]);
            assert(r.files[y] == s.files[sy]);
        }
    }
}

/// The files that are still in their slots, in order.
pub open spec fn live(slots: Seq<Option<FileView>>) -> Seq<FileView>
    decreases slots.len(),
{
    if slots.len() == 0 {
        Seq::empty()
    } else {
        live(slots.drop_last()) + match slots.last() {
            Some(f) => seq![f],
            None => Seq::empty(),
        }
    }
}

/// The views of some slots, one for one.
pub open spec fn slot_views(slots: Seq<Option<File>>) -> Seq<Option<FileView>> {
    slots.map_values(
        |slot: Option<File>|
            match slot {
                Some(f) => Some(f@),
                None => None,
            },
    )
}

/// The files in the slots of two sequences put together are those of the
/// first and then those of the second.
pub proof fn lemma_live_concat(a: Seq<Option<FileView>>, b: Seq<Option<FileView>>)
    ensures
        live(a + b) == live(a) + live(b),
    decreases b.len(),
{
    if b.len() == 0 {
        assert(a + b =~= a);
        assert(live(a) + live(b) =~= live(a));
    } else {
        lemma_live_concat(a, b.drop_last());
        assert((a + b).drop_last() =~= a + b.drop_last());
        assert((a + b).last() == b.last());
        let tail = match b.last() {
            Some(f) => seq![f],
            None => Seq::empty(),
        };
        assert((live(a) + live(b.drop_last())) + tail =~= live(a) + (live(b.drop_last()) + tail));
    }
}

/// A file in a slot is among the files that are still there, behind those
/// of the slots before it; with its slot emptied, the others stay as they
/// are.
pub proof fn lemma_live_slot(slots: Seq<Option<FileView>>, i: int)
    requires
        0 <= i < slots.len(),
        slots[i].is_some(),
    ensures
        live(slots.take(i)).len() < live(slots).len(),
        live(slots)[live(slots.take(i)).len() as int] == slots[i].unwrap(),
        live(slots.update(i, None)) == live(slots).remove(live(slots.take(i)).len() as int),
{
    let front = slots.take(i);
    let back = slots.skip(i + 1);
    let one = seq![slots[i]];
    let none = seq![None::<FileView>];
    assert(slots =~= front + one + back);
    assert(slots.update(i, None) =~= front + none + back);
    lemma_live_concat(front + one, back);
    lemma_live_concat(front, one);
    lemma_live_concat(front + none, back);
    lemma_live_concat(front, none);
    assert(one.drop_last() =~= Seq::<Option<FileView>>::empty());
    assert(none.drop_last() =~= Seq::<Option<FileView>>::empty());
    assert(live(Seq::<Option<FileView>>::empty()) =~= Seq::<FileView>::empty());
    assert(live(one) =~= seq![slots[i].unwrap()]);
    assert(live(none) =~= Seq::<FileView>::empty());
    assert(live(slots.update(i, None)) =~= live(slots).remove(live(front).len() as int));
}

/// Every file that is still there stands in a slot.
pub proof fn lemma_live_from_slot(slots: Seq<Option<FileView>>, path: Seq<char>) -> (i: int)
    requires
        has_path(live(slots), path),
    ensures
        0 <= i < slots.len(),
        slots[i].is_some(),
        slots[i].unwrap().path == path,
    decreases slots.len(),
{
    let k = path_index(live(slots), path);
    if slots.len() == 0 {
        0
    } else {
        let rest = live(slots.drop_last());
        if k < rest.len() {
            assert(rest[k].path == path);
            let i = lemma_live_from_slot(slots.drop_last(), path);
            assert(slots.drop_last()[i] == slots[i]);
            i
        } else {
            slots.len() - 1
        }
    }
}

/// The index of the first snapshot's files by path.
pub struct Snapshot1 {
    /// A slot for every file ever added, in the order of adding; the slot
    /// of a file that was claimed is empty.
    files_by_path: Vec<Option<File>>,
    /// The slot of each file that is still there, by its path.
    places: StringHashMap<usize>,
    total: Stats,
}

impl View for Snapshot1 {
    type V = Snapshot1View;

    closed spec fn view(&self) -> Snapshot1View {
        Snapshot1View { files: live(slot_views(self.files_by_path@)), total: self.total@ }
    }
}

impl Snapshot for Snapshot1 {
    /// The snapshot is well-formed, and every file that is still there is
    /// found at its path.
    closed spec fn wf(&self) -> bool {
        &&& self@.wf()
        &&& forall|i: int|
            0 <= i < self.files_by_path@.len() && (#[trigger] self.files_by_path@[i]).is_some()
                ==> self.places@.contains_key(self.files_by_path@[i].unwrap().path@)
                && self.places@[self.files_by_path@[i].unwrap().path@] == i
        &&& forall|path: Seq<char>| #[trigger]
            self.places@.contains_key(path) ==> self.places@[path] < self.files_by_path@.len()
                && self.files_by_path@[self.places@[path] as int].is_some()
                && self.files_by_path@[self.places@[path] as int].unwrap().path@ == path
    }

    open spec fn admits(&self, f: FileView) -> bool {
        self@.admits(f)
    }

    open spec fn took_in(&self, f: FileView, after: &Self) -> bool {
        after@ == self@.add(f)
    }

    /// Tells whether a file can be added: its path is new, and the total
    /// has room for it.
    fn accepts(&self, f: &File) -> (r: bool) {
        let total = self.total.count();
        total.files < u64::MAX && f.size <= u64::MAX - total.size && !self.contains_path(&f.path)
    }

    /// Adds a file of the first snapshot. Its path must be new.
    fn add(&mut self, f1: File) {
        let ghost slots = slot_views(self.files_by_path@);
        let ghost fv = f1@;
        proof {
            lemma_add_wf(self@, f1@);
            assert forall|i: int| 0 <= i < slots.len() && (#[trigger] slots[i]).is_some() implies slots[i].unwrap().path
                != fv.path by {
                lemma_live_slot(slots, i);
                let k = live(slots.take(i)).len() as int;
                assert(live(slots)[k].path == slots[i].unwrap().path);
            }
        }
        self.total.record(&f1);
        let place = self.files_by_path.len();
        self.places.insert(f1.path.clone(), place);
        self.files_by_path.push(Some(f1));
        proof {
            let after = slot_views(self.files_by_path@);
            assert(after =~= slots.push(Some(fv)));
            assert(after.drop_last() =~= slots);
            assert(live(slots) + seq![fv] =~= live(slots).push(fv));
            assert forall|i: int|
                0 <= i < self.files_by_path@.len() && (#[trigger] self.files_by_path@[i]).is_some()
                implies self.places@.contains_key(self.files_by_path@[i].unwrap().path@)
                && self.places@[self.files_by_path@[i].unwrap().path@] == i by {
                if i < place {
                    assert(self.files_by_path@[i] == old(self).files_by_path@[i]);
                    assert(slots[i].is_some());
                    assert(slots[i].unwrap().path == self.files_by_path@[i].unwrap().path@);
                }
            }
            assert forall|path: Seq<char>| #[trigger]
                self.places@.contains_key(path) implies self.places@[path] < self.files_by_path@.len()
                && self.files_by_path@[self.places@[path] as int].is_some()
                && self.files_by_path@[self.places@[path] as int].unwrap().path@ == path by {
                if path != fv.path {
                    let k = old(self).places@[path] as int;
                    assert(self.files_by_path@[k] == old(self).files_by_path@[k]);
                }
            }
        }
    }
}

impl Snapshot1 {
    /// A snapshot in order is well-formed.
    pub proof fn lemma_wf(&self)
        requires
            self.wf(),
        ensures
            self@.wf(),
    {
    }

    pub fn new() -> (r: Snapshot1)
        ensures
            r@ == Snapshot1View::new(),
            r.wf(),
    {
        let r = Snapshot1 {
            files_by_path: Vec::new(),
            places: StringHashMap::new(),
            total: Stats::new(),
        };
        assert(slot_views(r.files_by_path@) =~= Seq::empty());
        r
    }

    /// The slot of the file at a path, if there is one.
    fn position(&self, path: &String) -> (r: Option<usize>)
        requires
            self.wf(),
        ensures
            r.is_some() == has_path(self@.files, path@),
            r.is_some() ==> r.unwrap() < self.files_by_path@.len() && self.files_by_path@[r.unwrap() as int].is_some()
                && self.files_by_path@[r.unwrap() as int].unwrap().path@ == path@ && live(
                slot_views(self.files_by_path@).take(r.unwrap() as int),
            ).len() == path_index(self@.files, path@),
    {
        let ghost slots = slot_views(self.files_by_path@);
        match self.places.get(path.as_str()) {
            Some(place) => {
                let i = *place;
                proof {
                    assert(slots[i as int].is_some());
                    lemma_live_slot(slots, i as int);
                    let k = live(slots.take(i as int)).len() as int;
                    assert(live(slots)[k].path == path@);
                    lemma_path_found(live(slots), k);
                }
                Some(i)
            },
            None => {
                proof {
                    if has_path(live(slots), path@) {
                        let i = lemma_live_from_slot(slots, path@);
                        assert(self.files_by_path@[i].is_some());
                        assert(self.files_by_path@[i].unwrap().path@ == slots[i].unwrap().path);
                    }
                }
                None
            },
        }
    }

    /// Whether the snapshot holds a file at this path that has not been
    /// claimed yet.
    pub fn contains_path(&self, path: &String) -> (r: bool)
        requires
            self.wf(),
        ensures
            r == has_path(self@.files, path@),
    {
        self.position(path).is_some()
    }

    /// Looks for the file at the path of `f2`, a file of the second
    /// snapshot. If there is one, it leaves the index and is handed out,
    /// marked as identical where size and checksum are those of `f2`, and
    /// as modified where they are not.
    pub fn digest(&mut self, f2: &File) -> (r: Option<(Comparison, File)>)
        requires
            old(self).wf(),
        ensures
            match r {
                Some((c, f1)) => old(self)@.answer(f2@) == Some((c, f1@)),
                None => old(self)@.answer(f2@).is_none(),
            },
            final(self)@ == old(self)@.digested(f2@.path),
            final(self).wf(),
    {
        let ghost slots = slot_views(self.files_by_path@);
        proof {
            lemma_digested_wf(self@, f2@.path);
        }
        match self.position(&f2.path) {
            Some(i) => {
                proof {
                    lemma_live_slot(slots, i as int);
                }
                self.places.remove(f2.path.as_str());
                let mut taken: Option<File> = None;
                std::mem::swap(&mut self.files_by_path[i], &mut taken);
                let f1 = taken.unwrap();
                proof {
                    assert(slot_views(self.files_by_path@) =~= slots.update(i as int, None));
                    assert forall|j: int|
                        0 <= j < self.files_by_path@.len() && (#[trigger] self.files_by_path@[j]).is_some()
                        implies self.places@.contains_key(self.files_by_path@[j].unwrap().path@)
                        && self.places@[self.files_by_path@[j].unwrap().path@] == j by {
                        assert(self.files_by_path@[j] == old(self).files_by_path@[j]);
                        assert(old(self).files_by_path@[j].is_some());
                    }
                    assert forall|path: Seq<char>| #[trigger]
                        self.places@.contains_key(path) implies self.places@[path]
                        < self.files_by_path@.len() && self.files_by_path@[self.places@[path] as int].is_some()
                        && self.files_by_path@[self.places@[path] as int].unwrap().path@ == path by {
                        let k = old(self).places@[path] as int;
                        assert(old(self).files_by_path@[k].is_some());
                        assert(self.files_by_path@[k] == old(self).files_by_path@[k]);
                    }
                }
                if f1.equals(f2) {
                    Some((Comparison::Identical, f1))
                } else {
                    Some((Comparison::Modified, f1))
                }
            },
            None => None,
        }
    }

    /// The count of all files ever added.
    pub fn total(&self) -> (r: &Stats)
        ensures
            r@ == self@.total,
    {
        &self.total
    }

    /// Hands out the total and the remaining files, grouped by checksum
    /// with the order of adding kept in each group. The snapshot is empty
    /// afterwards.
    pub fn conclude(&mut self) -> (r: (Stats, FilesByChecksums))
        requires
            old(self).wf(),
        ensures
            r.0@ == old(self)@.total,
            r.1@ == old(self)@.hash_index(),
            r.1.wf(),
            final(self)@ == Snapshot1View::new(),
            final(self).wf(),
    {
        let mut files_by_hash = FilesByChecksums::new();
        let mut files: Vec<Option<File>> = Vec::new();
        std::mem::swap(&mut self.files_by_path, &mut files);
        self.places.clear();
        let ghost all = slot_views(files@);
        let mut i: usize = 0;
        while i < files.len()
            invariant
                i <= files@.len(),
                files@.len() == all.len(),
                forall|k: int| i <= k < files@.len() ==> (#[trigger] slot_views(files@)[k]) == all[k],
                files_by_hash.wf(),
                files_by_hash@ == index_of(live(all.take(i as int))),
            decreases files@.len() - i,
        {
            let ghost prior = files@;
            let mut taken: Option<File> = None;
            std::mem::swap(&mut files[i], &mut taken);
            proof {
                assert(all.take(i + 1).drop_last() =~= all.take(i as int));
                assert(all.take(i + 1).last() == all[i as int]);
                assert(slot_views(prior)[i as int] == all[i as int]);
                assert forall|k: int| i + 1 <= k < files@.len() implies (#[trigger] slot_views(
                    files@,
                )[k]) == all[k] by {
                    assert(files@[k] == prior[k]);
                    assert(slot_views(prior)[k] == all[k]);
                }
            }
            match taken {
                Some(f) => {
                    proof {
                        let before = live(all.take(i as int));
                        assert((before + seq![f@]).drop_last() =~= before);
                        assert((before + seq![f@]).last() == f@);
                    }
                    files_by_hash.add(f);
                },
                None => {
                    proof {
                        let before = live(all.take(i as int));
                        assert(before + Seq::<FileView>::empty() =~= before);
                    }
                },
            }
            i += 1;
        }
        proof {
            assert(all.take(i as int) =~= all);
        }
        let mut total = Stats::new();
        std::mem::swap(&mut self.total, &mut total);
        assert(slot_views(self.files_by_path@) =~= Seq::empty());
        (total, files_by_hash)
    }
}

} // verus!
