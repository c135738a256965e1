//! What both snapshots share: the capability to take in a file, and the
//! index of files by checksum.

use vstd::prelude::*;
use std::collections::HashMap;
use crate::checksum::CheckSum;
use crate::file::{views, File, FileView};

verus! {

broadcast use vstd::std_specs::hash::group_hash_axioms;

/// Something that file records are added to, one at a time.
pub trait Snapshot {
    /// Whether the snapshot is in order.
    spec fn wf(&self) -> bool;

    /// Whether the snapshot can take this file in.
    spec fn admits(&self, f: FileView) -> bool;

    /// Whether `after` is this snapshot with the file taken in.
    spec fn took_in(&self, f: FileView, after: &Self) -> bool;

    /// Tells whether the snapshot can take this file in.
    fn accepts(&self, f: &File) -> (r: bool)
        requires
            self.wf(),
        ensures
            r == self.admits(f@),
    ;

    /// Takes a file in.
    fn add(&mut self, f1: File)
        requires
            old(self).wf(),
            old(self).admits(f1@),
        ensures
            old(self).took_in(f1@, final(self)),
            final(self).wf(),
    ;
}

/// Files grouped by checksum: each entry is a checksum with the files that
/// have it, in the order in which they were added. The entries stand in
/// the order in which their checksums were first added.
pub type Buckets = Seq<(CheckSum, Seq<FileView>)>;

/// Whether some entry is for this checksum.
pub open spec fn has_key(b: Buckets, checksum: CheckSum) -> bool {
    exists|i: int| 0 <= i < b.len() && (#[trigger] b[i]).0 == checksum
}

/// The place of the entry for this checksum, where there is one.
pub open spec fn key_index(b: Buckets, checksum: CheckSum) -> int {
    choose|i: int| 0 <= i < b.len() && (#[trigger] b[i]).0 == checksum
}

/// The files with this checksum, in the order of adding; none where the
/// checksum is unknown.
pub open spec fn bucket(b: Buckets, checksum: CheckSum) -> Seq<FileView> {
    if has_key(b, checksum) {
        b[key_index(b, checksum)].1
    } else {
        Seq::empty()
    }
}

/// No checksum has two entries, no entry is empty, and every file stands
/// under its own checksum.
pub open spec fn well_formed(b: Buckets) -> bool {
    &&& forall|i: int, j: int|
        0 <= i < b.len() && 0 <= j < b.len() && i != j ==> (#[trigger] b[i]).0 != (#[trigger] b[j]).0
    &&& forall|i: int| 0 <= i < b.len() ==> (#[trigger] b[i]).1.len() > 0
    &&& forall|i: int, k: int|
        0 <= i < b.len() && 0 <= k < b[i].1.len() ==> (#[trigger] b[i].1[k]).check_sum == b[i].0
}

/// The index with one more file: it goes to the end of its checksum's
/// files, or into a new last entry where the checksum is new.
pub open spec fn insert(b: Buckets, f: FileView) -> Buckets {
    if has_key(b, f.check_sum) {
        let i = key_index(b, f.check_sum);
        b.update(i, (f.check_sum, b[i].1.push(f)))
    } else {
        b.push((f.check_sum, seq![f]))
    }
}

/// The index without the first file of this checksum; an entry that runs
/// empty leaves.
pub open spec fn without_first(b: Buckets, checksum: CheckSum) -> Buckets {
    if has_key(b, checksum) {
        let i = key_index(b, checksum);
        if b[i].1.len() == 1 {
            b.remove(i)
        } else {
            b.update(i, (checksum, b[i].1.skip(1)))
        }
    } else {
        b
    }
}

/// All files of the index, entry after entry.
pub open spec fn flat(b: Buckets) -> Seq<FileView>
    decreases b.len(),
{
    if b.len() == 0 {
        Seq::empty()
    } else {
        flat(b.drop_last()) + b.last().1
    }
}

/// The index that results from adding the files one after the other to an
/// empty index.
pub open spec fn index_of(files: Seq<FileView>) -> Buckets
    decreases files.len(),
{
    if files.len() == 0 {
        Seq::empty()
    } else {
        insert(index_of(files.drop_last()), files.last())
    }
}

/// In a well-formed index the entry of a checksum is the only one with it.
pub proof fn lemma_key_found(b: Buckets, i: int)
    requires
        well_formed(b),
        0 <= i < b.len(),
    ensures
        has_key(b, b[i].0),
        key_index(b, b[i].0) == i,
        bucket(b, b[i].0) == b[i].1,
{
    let c = b[i].0;
    assert(0 <= i < b.len() && b[i].0 == c);
}

/// Adding a file keeps an index well-formed.
pub proof fn lemma_insert_well_formed(b: Buckets, f: FileView)
    requires
        well_formed(b),
    ensures
        well_formed(insert(b, f)),
{
    let r = insert(b, f);
    if has_key(b, f.check_sum) {
        let i = key_index(b, f.check_sum);
        assert forall|x: int, k: int| 0 <= x < r.len() && 0 <= k < r[x].1.len() implies (#[trigger] r[x].1[k]).check_sum == r[x].0 by {
            if x == i {
                if k < b[i].1.len() {
                    assert(r[x].1[k] == b[i].1[k]);
                }
            } else {
                assert(r[x].1[k] == b[x].1[k]);
            }
        }
        assert forall|x: int, y: int| 0 <= x < r.len() && 0 <= y < r.len() && x != y implies (#[trigger] r[x]).0 != (#[trigger] r[y]).0 by {
            assert(r[x].0 == b[x].0);
            assert(r[y].0 == b[y].0);
        }
        assert forall|x: int| 0 <= x < r.len() implies (#[trigger] r[x]).1.len() > 0 by {
            if x != i {
                assert(r[x] == b[x]);
            }
        }
    } else {
        assert forall|x: int, y: int| 0 <= x < r.len() && 0 <= y < r.len() && x != y implies (#[trigger] r[x]).0 != (#[trigger] r[y]).0 by {
            if x < b.len() {
                assert(r[x] == b[x]);
            }
            if y < b.len() {
                assert(r[y] == b[y]);
            }
        }
        assert forall|x: int| 0 <= x < r.len() implies (#[trigger] r[x]).1.len() > 0 by {
            if x < b.len() {
                assert(r[x] == b[x]);
            }
        }
        assert forall|x: int, k: int| 0 <= x < r.len() && 0 <= k < r[x].1.len() implies (#[trigger] r[x].1[k]).check_sum == r[x].0 by {
            if x < b.len() {
                assert(r[x].1[k] == b[x].1[k]);
            }
        }
    }
}

/// The index of any files is well-formed.
pub proof fn lemma_index_of_well_formed(files: Seq<FileView>)
    ensures
        well_formed(index_of(files)),
    decreases files.len(),
{
    if files.len() > 0 {
        lemma_index_of_well_formed(files.drop_last());
        lemma_insert_well_formed(index_of(files.drop_last()), files.last());
    }
}

/// The views of the entries of an index, one for one.
pub open spec fn bucket_views(entries: Seq<(CheckSum, Vec<File>)>) -> Buckets {
    entries.map_values(|e: (CheckSum, Vec<File>)| (e.0, views(e.1@)))
}

/// An index of files by checksum. Files with the same checksum keep the
/// order in which they were added.
#[derive(Debug)]
pub struct FilesByChecksums {
    /// The entries in the order in which their checksums were first added.
    map: Vec<(CheckSum, Vec<File>)>,
    /// The place of each checksum's entry.
    places: HashMap<CheckSum, usize>,
}

impl View for FilesByChecksums {
    type V = Buckets;

    closed spec fn view(&self) -> Buckets {
        bucket_views(self.map@)
    }
}

impl FilesByChecksums {
    /// Whether the index is in order: it is well-formed, and every entry
    /// is found at its place. Every index that this type hands out is.
    pub closed spec fn wf(&self) -> bool {
        &&& well_formed(self@)
        &&& forall|i: int|
            0 <= i < self.map@.len() ==> self.places@.contains_key((#[trigger] self.map@[i]).0)
                && self.places@[self.map@[i].0] == i
        &&& forall|c: CheckSum| #[trigger]
            self.places@.contains_key(c) ==> self.places@[c] < self.map@.len()
                && self.map@[self.places@[c] as int].0 == c
    }

    /// An index in order is well-formed.
    pub proof fn lemma_wf(&self)
        requires
            self.wf(),
        ensures
            well_formed(self@),
    {
    }

    pub fn new() -> (r: FilesByChecksums)
        ensures
            r@ == Seq::<(CheckSum, Seq<FileView>)>::empty(),
            r.wf(),
    {
        let r = FilesByChecksums { map: Vec::new(), places: HashMap::new() };
        assert(r@ =~= Seq::empty());
        r
    }

    /// The place of the entry for a checksum, if there is one.
    fn position(&self, checksum: CheckSum) -> (r: Option<usize>)
        requires
            self.wf(),
        ensures
            r.is_some() == has_key(self@, checksum),
            r.is_some() ==> r.unwrap() < self.map@.len() && r.unwrap() == key_index(self@, checksum)
                && self.map@[r.unwrap() as int].0 == checksum,
    {
        match self.places.get(&checksum) {
            Some(place) => {
                let i = *place;
                proof {
                    assert(self@[i as int].0 == checksum);
                    lemma_key_found(self@, i as int);
                }
                Some(i)
            },
            None => {
                proof {
                    if has_key(self@, checksum) {
                        let i = key_index(self@, checksum);
                        assert(self.map@[i].0 == checksum);
                    }
                }
                None
            },
        }
    }

    /// The number of entries, one for each checksum.
    pub fn len(&self) -> (r: usize)
        ensures
            r == self@.len(),
    {
        self.map.len()
    }

    /// The entry at a place: its checksum and its files.
    pub fn entry(&self, i: usize) -> (r: (CheckSum, &Vec<File>))
        requires
            i < self@.len(),
        ensures
            r.0 == self@[i as int].0,
            views(r.1@) == self@[i as int].1,
    {
        (self.map[i].0, &self.map[i].1)
    }

    /// The files with a checksum in the order of adding, if there are any.
    pub fn files_of(&self, checksum: CheckSum) -> (r: Option<&Vec<File>>)
        requires
            self.wf(),
        ensures
            r.is_some() == has_key(self@, checksum),
            r.is_some() ==> views(r.unwrap()@) == bucket(self@, checksum),
    {
        match self.position(checksum) {
            Some(i) => Some(&self.map[i].1),
            None => None,
        }
    }

    /// Adds a file under its checksum, behind the files already there.
    pub fn add(&mut self, f: File)
        requires
            old(self).wf(),
        ensures
            final(self)@ == insert(old(self)@, f@),
            final(self).wf(),
    {
        proof {
            lemma_insert_well_formed(self@, f@);
        }
        let ghost before = self.map@;
        let ghost fv = f@;
        match self.position(f.check_sum) {
            Some(i) => {
                self.map[i].1.push(f);
                proof {
                    assert(views(self.map@[i as int].1@) =~= views(before[i as int].1@).push(fv));
                    assert(self@ =~= insert(old(self)@, fv));
                    assert forall|j: int| 0 <= j < self.map@.len() implies self.places@.contains_key(
                        (#[trigger] self.map@[j]).0,
                    ) && self.places@[self.map@[j].0] == j by {
                        assert(self.map@[j].0 == before[j].0);
                    }
                    assert forall|c: CheckSum| #[trigger]
                        self.places@.contains_key(c) implies self.places@[c] < self.map@.len()
                        && self.map@[self.places@[c] as int].0 == c by {
                        assert(self.map@[self.places@[c] as int].0 == before[self.places@[c] as int].0);
                    }
                }
            },
            None => {
                let checksum = f.check_sum;
                let place = self.map.len();
                let mut files: Vec<File> = Vec::new();
                files.push(f);
                self.map.push((checksum, files));
                self.places.insert(checksum, place);
                proof {
                    assert(views(files@) =~= seq![fv]);
                    assert(self@ =~= insert(old(self)@, fv));
                    assert forall|j: int| 0 <= j < self.map@.len() implies self.places@.contains_key(
                        (#[trigger] self.map@[j]).0,
                    ) && self.places@[self.map@[j].0] == j by {
                        if j < place {
                            assert(self.map@[j] == before[j]);
                            assert(old(self)@[j].0 == before[j].0);
                        }
                    }
                    assert forall|c: CheckSum| #[trigger]
                        self.places@.contains_key(c) implies self.places@[c] < self.map@.len()
                        && self.map@[self.places@[c] as int].0 == c by {
                        if c != checksum {
                            assert(self.map@[self.places@[c] as int] == before[self.places@[c] as int]);
                        }
                    }
                }
            },
        }
    }

    /// Takes out the file that was added first under a checksum.
    pub fn withdraw(&mut self, checksum: &CheckSum) -> (r: Option<File>)
        requires
            old(self).wf(),
        ensures
            r.is_some() == has_key(old(self)@, *checksum),
            r.is_some() ==> r.unwrap()@ == bucket(old(self)@, *checksum)[0],
            final(self)@ == without_first(old(self)@, *checksum),
            final(self).wf(),
    {
        let ghost before = self.map@;
        match self.position(*checksum) {
            Some(i) => {
                proof {
                    lemma_without_first_well_formed(old(self)@, *checksum);
                    assert(views(before[i as int].1@) == old(self)@[i as int].1);
                }
                let f = self.map[i].1.remove(0);
                if self.map[i].1.is_empty() {
                    self.map.remove(i);
                    assert(self@ =~= without_first(old(self)@, *checksum));
                    self.places.remove(checksum);
                    proof {
                        assert forall|c: CheckSum| #[trigger]
                            self.places@.contains_key(c) implies exists|k: int|
                            0 <= k < self.map@.len() && (#[trigger] self.map@[k]).0 == c by {
                            let place = old(self).places@[c] as int;
                            assert(before[place].0 == c);
                            let k = if place < i { place } else { place - 1 };
                            assert(self.map@[k].0 == c);
                        }
                    }
                    self.settle(i);
                } else {
                    proof {
                        assert(views(self.map@[i as int].1@) =~= views(before[i as int].1@).skip(1));
                        assert(self@ =~= without_first(old(self)@, *checksum));
                        assert forall|j: int|
                            0 <= j < self.map@.len() implies self.places@.contains_key(
                            (#[trigger] self.map@[j]).0,
                        ) && self.places@[self.map@[j].0] == j by {
                            assert(self.map@[j].0 == before[j].0);
                        }
                        assert forall|c: CheckSum| #[trigger]
                            self.places@.contains_key(c) implies self.places@[c] < self.map@.len()
                            && self.map@[self.places@[c] as int].0 == c by {
                            let place = self.places@[c] as int;
                            assert(self.map@[place].0 == before[place].0);
                        }
                    }
                }
                Some(f)
            },
            None => None,
        }
    }

    /// Sets the places right after the entry at `from` has left: every
    /// entry behind it has moved one place to the front.
    fn settle(&mut self, from: usize)
        requires
            well_formed(old(self)@),
            from <= old(self).map@.len(),
            forall|i: int|
                0 <= i < from ==> old(self).places@.contains_key((#[trigger] old(self).map@[i]).0)
                    && old(self).places@[old(self).map@[i].0] == i,
            forall|i: int|
                from <= i < old(self).map@.len() ==> old(self).places@.contains_key(
                    (#[trigger] old(self).map@[i]).0,
                ) && old(self).places@[old(self).map@[i].0] == i + 1,
            forall|c: CheckSum| #[trigger]
                old(self).places@.contains_key(c) ==> exists|i: int|
                    0 <= i < old(self).map@.len() && (#[trigger] old(self).map@[i]).0 == c,
        ensures
            final(self)@ == old(self)@,
            final(self).wf(),
    {
        let mut j: usize = from;
        while j < self.map.len()
            invariant
                from <= j <= self.map@.len(),
                self.map@ == old(self).map@,
                well_formed(self@),
                forall|i: int|
                    0 <= i < j ==> self.places@.contains_key((#[trigger] self.map@[i]).0)
                        && self.places@[self.map@[i].0] == i,
                forall|i: int|
                    j <= i < self.map@.len() ==> self.places@.contains_key((#[trigger] self.map@[i]).0)
                        && self.places@[self.map@[i].0] == i + 1,
                forall|c: CheckSum| #[trigger]
                    self.places@.contains_key(c) ==> exists|i: int|
                        0 <= i < self.map@.len() && (#[trigger] self.map@[i]).0 == c,
            decreases self.map@.len() - j,
        {
            let ghost places_before = self.places@;
            let checksum = self.map[j].0;
            self.places.insert(checksum, j);
            proof {
                assert forall|i: int| 0 <= i < j + 1 implies self.places@.contains_key(
                    (#[trigger] self.map@[i]).0,
                ) && self.places@[self.map@[i].0] == i by {
                    if i < j {
                        assert(self@[i].0 != self@[j as int].0);
                    }
                }
                assert forall|i: int| j + 1 <= i < self.map@.len() implies self.places@.contains_key(
                    (#[trigger] self.map@[i]).0,
                ) && self.places@[self.map@[i].0] == i + 1 by {
                    assert(self@[i].0 != self@[j as int].0);
                }
                assert forall|c: CheckSum| #[trigger] self.places@.contains_key(c) implies exists|i: int|
                    0 <= i < self.map@.len() && (#[trigger] self.map@[i]).0 == c by {
                    if c == checksum {
                        assert(self.map@[j as int].0 == c);
                    } else {
                        assert(places_before.contains_key(c));
                    }
                }
            }
            j += 1;
        }
        proof {
            assert forall|c: CheckSum| #[trigger]
                self.places@.contains_key(c) implies self.places@[c] < self.map@.len()
                && self.map@[self.places@[c] as int].0 == c by {
                let i = choose|i: int| 0 <= i < self.map@.len() && (#[trigger] self.map@[i]).0 == c;
                assert(self.places@[self.map@[i].0] == i);
            }
        }
    }

    /// Hands out all entries and leaves the index empty.
    pub fn drain(&mut self) -> (r: Vec<(CheckSum, Vec<File>)>)
        ensures
            bucket_views(r@) == old(self)@,
            final(self)@ == Seq::<(CheckSum, Seq<FileView>)>::empty(),
            final(self).wf(),
    {
        let mut entries: Vec<(CheckSum, Vec<File>)> = Vec::new();
        std::mem::swap(&mut self.map, &mut entries);
        self.places.clear();
        assert(self@ =~= Seq::empty());
        entries
    }
}

/// Taking the first file of a checksum out keeps an index well-formed.
pub proof fn lemma_without_first_well_formed(b: Buckets, checksum: CheckSum)
    requires
        well_formed(b),
    ensures
        well_formed(without_first(b, checksum)),
{
    let r = without_first(b, checksum);
    if has_key(b, checksum) {
        let i = key_index(b, checksum);
        if b[i].1.len() == 1 {
            assert forall|x: int| 0 <= x < r.len() implies #[trigger] r[x] == b[if x < i {
                x
            } else {
                x + 1
            }] by {}
            assert forall|x: int, y: int| 0 <= x < r.len() && 0 <= y < r.len() && x != y implies (#[trigger] r[x]).0 != (#[trigger] r[y]).0 by {
                let bx = if x < i { x } else { x + 1 };
                let by_ = if y < i { y } else { y + 1 };
                assert(r[x] == b[bx]);
                assert(r[y] == b[by_]);
            }
            assert forall|x: int| 0 <= x < r.len() implies (#[trigger] r[x]).1.len() > 0 by {
                let bx = if x < i { x } else { x + 1 };
                assert(r[x] == b[bx]);
            }
            assert forall|x: int, k: int| 0 <= x < r.len() && 0 <= k < r[x].1.len() implies (#[trigger] r[x].1[k]).check_sum == r[x].0 by {
                let bx = if x < i { x } else { x + 1 };
                assert(r[x].1[k] == b[bx].1[k]);
            }
        } else {
            assert forall|x: int, y: int| 0 <= x < r.len() && 0 <= y < r.len() && x != y implies (#[trigger] r[x]).0 != (#[trigger] r[y]).0 by {
                assert(r[x].0 == b[x].0);
                assert(r[y].0 == b[y].0);
            }
            assert forall|x: int| 0 <= x < r.len() implies (#[trigger] r[x]).1.len() > 0 by {
                if x != i {
                    assert(r[x] == b[x]);
                }
            }
            assert forall|x: int, k: int| 0 <= x < r.len() && 0 <= k < r[x].1.len() implies (#[trigger] r[x].1[k]).check_sum == r[x].0 by {
                if x == i {
                    assert(r[x].1[k] == b[i].1[k + 1]);
                } else {
                    assert(r[x].1[k] == b[x].1[k]);
                }
            }
        }
    }
}

} // verus!
