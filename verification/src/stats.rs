//! Accumulators: how many files, how many bytes, and optionally which files.

use vstd::prelude::*;
use crate::file::{views, File, FileView, SizeBytes};

verus! {

/// A number of files and a number of bytes, as unbounded numbers.
pub ghost struct Tally {
    pub files: nat,
    pub size: nat,
}

impl Tally {
    pub open spec fn zero() -> Tally {
        Tally { files: 0, size: 0 }
    }

    pub open spec fn plus(self, other: Tally) -> Tally {
        Tally { files: self.files + other.files, size: self.size + other.size }
    }

    /// The tally with one more file of the given size.
    pub open spec fn with_file(self, f: FileView) -> Tally {
        Tally { files: self.files + 1, size: self.size + f.size as nat }
    }

    /// Whether neither number exceeds the other tally's.
    pub open spec fn le(self, other: Tally) -> bool {
        self.files <= other.files && self.size <= other.size
    }

    /// Whether both numbers can be held in 64 bits.
    pub open spec fn fits(self) -> bool {
        self.files <= u64::MAX && self.size <= u64::MAX
    }
}

/// The sum of the sizes of some files.
pub open spec fn total_size(files: Seq<FileView>) -> nat
    decreases files.len(),
{
    if files.len() == 0 {
        0
    } else {
        total_size(files.drop_last()) + files.last().size as nat
    }
}

/// The tally of some files: how many they are and their sizes added up.
pub open spec fn tally(files: Seq<FileView>) -> Tally {
    Tally { files: files.len(), size: total_size(files) }
}

/// The sizes of two sequences put together add up.
pub proof fn lemma_total_size_concat(a: Seq<FileView>, b: Seq<FileView>)
    ensures
        total_size(a + b) == total_size(a) + total_size(b),
    decreases b.len(),
{
    if b.len() == 0 {
        assert(a + b =~= a);
    } else {
        lemma_total_size_concat(a, b.drop_last());
        assert((a + b).drop_last() =~= a + b.drop_last());
        assert((a + b).last() == b.last());
    }
}

/// Adding one file at the end adds its size.
pub proof fn lemma_total_size_push(a: Seq<FileView>, f: FileView)
    ensures
        total_size(a.push(f)) == total_size(a) + f.size as nat,
{
    assert(a.push(f).drop_last() =~= a);
}

/// Taking one file out takes its size out.
pub proof fn lemma_total_size_remove(a: Seq<FileView>, i: int)
    requires
        0 <= i < a.len(),
    ensures
        total_size(a.remove(i)) + a[i].size as nat == total_size(a),
{
    let front = a.subrange(0, i);
    let back = a.subrange(i + 1, a.len() as int);
    assert(a.remove(i) =~= front + back);
    assert(a =~= front.push(a[i]) + back);
    lemma_total_size_concat(front, back);
    lemma_total_size_concat(front.push(a[i]), back);
    lemma_total_size_push(front, a[i]);
}

/// Some files hold at least as many bytes as the first of them.
pub proof fn lemma_size_of_first(a: Seq<FileView>)
    requires
        a.len() > 0,
    ensures
        total_size(a) >= a[0].size,
    decreases a.len(),
{
    if a.len() > 1 {
        lemma_size_of_first(a.drop_last());
    }
}

/// A number of files and the bytes they hold together.
#[derive(Debug, Copy, Clone, PartialEq, Eq, Structural)]
pub struct Count {
    pub files: u64,
    pub size: SizeBytes,
}

impl View for Count {
    type V = Tally;

    open spec fn view(&self) -> Tally {
        Tally { files: self.files as nat, size: self.size as nat }
    }
}

impl Count {
    pub fn new() -> (r: Count)
        ensures
            r@ == Tally::zero(),
    {
        Count { files: 0, size: 0 }
    }

    /// Adds `files` files that hold `size` bytes together.
    pub fn add(&mut self, files: u64, size: SizeBytes)
        requires
            old(self).files + files <= u64::MAX,
            old(self).size + size <= u64::MAX,
        ensures
            final(self).files == old(self).files + files,
            final(self).size == old(self).size + size,
    {
        self.size += size;
        self.files += files;
    }
}

/// What a `Stats` holds, as a mathematical value.
pub ghost struct StatsView {
    pub count: Tally,
    /// The recorded files in the order of recording; empty where the
    /// accumulator does not keep them.
    pub files: Seq<FileView>,
    pub keeps_files: bool,
}

impl StatsView {
    pub open spec fn empty(keeps_files: bool) -> StatsView {
        StatsView { count: Tally::zero(), files: Seq::empty(), keeps_files }
    }

    /// The accumulator after one more file was recorded.
    pub open spec fn record(self, f: FileView) -> StatsView {
        StatsView {
            count: self.count.with_file(f),
            files: if self.keeps_files {
                self.files.push(f)
            } else {
                self.files
            },
            keeps_files: self.keeps_files,
        }
    }

    /// The accumulator after some files were recorded one after the other.
    pub open spec fn record_all(self, fs: Seq<FileView>) -> StatsView {
        StatsView {
            count: self.count.plus(tally(fs)),
            files: if self.keeps_files {
                self.files + fs
            } else {
                self.files
            },
            keeps_files: self.keeps_files,
        }
    }
}

/// The first files of a sequence are no more and hold no more bytes than
/// all of them.
pub proof fn lemma_tally_prefix(a: Seq<FileView>, n: int)
    requires
        0 <= n <= a.len(),
    ensures
        tally(a.take(n)).le(tally(a)),
{
    assert(a =~= a.take(n) + a.skip(n));
    lemma_total_size_concat(a.take(n), a.skip(n));
}

/// Recording nothing changes nothing; recording a sequence and then one
/// more file is recording the longer sequence.
pub proof fn lemma_record_all_step(s: StatsView, fs: Seq<FileView>, f: FileView)
    ensures
        s.record_all(Seq::empty()) == s,
        s.record_all(fs).record(f) == s.record_all(fs.push(f)),
{
    assert(s.files + Seq::<FileView>::empty() =~= s.files);
    lemma_total_size_push(fs, f);
    assert((s.files + fs).push(f) =~= s.files + fs.push(f));
}

/// Recording two sequences one after the other is recording them joined.
pub proof fn lemma_record_all_concat(s: StatsView, a: Seq<FileView>, b: Seq<FileView>)
    ensures
        s.record_all(a).record_all(b) == s.record_all(a + b),
{
    lemma_total_size_concat(a, b);
    assert((s.files + a) + b =~= s.files + (a + b));
}

/// A count of files and bytes which, where asked to, also keeps the files
/// it has counted.
#[derive(Debug)]
pub struct Stats {
    pub count: Count,
    files: Vec<File>,
    shall_store_files: bool,
}

impl View for Stats {
    type V = StatsView;

    closed spec fn view(&self) -> StatsView {
        StatsView {
            count: self.count@,
            files: views(self.files@),
            keeps_files: self.shall_store_files,
        }
    }
}

impl Stats {
    /// An empty accumulator that counts without keeping the files.
    pub fn new() -> (r: Stats)
        ensures
            r@ == StatsView::empty(false),
    {
        let r = Stats { count: Count::new(), shall_store_files: false, files: Vec::new() };
        assert(views(r.files@) =~= Seq::empty());
        r
    }

    /// An empty accumulator that keeps every file it counts.
    pub fn new_with_file_storage() -> (r: Stats)
        ensures
            r@ == StatsView::empty(true),
    {
        let r = Stats { count: Count::new(), shall_store_files: true, files: Vec::new() };
        assert(views(r.files@) =~= Seq::empty());
        r
    }

    /// Counts one file, and keeps a copy of it if files are kept.
    pub fn record(&mut self, f: &File)
        requires
            old(self)@.count.with_file(f@).fits(),
        ensures
            final(self)@ == old(self)@.record(f@),
    {
        self.count.add(1, f.size);
        if self.shall_store_files {
            self.files.push(f.clone());
            assert(views(self.files@) =~= views(old(self).files@).push(f@));
        }
    }

    /// Counts the files of `files` from place `from` up to, not including,
    /// place `to`, in their order.
    pub fn record_range(&mut self, files: &Vec<File>, from: usize, to: usize)
        requires
            from <= to <= files@.len(),
            old(self)@.count.plus(tally(views(files@).subrange(from as int, to as int))).fits(),
        ensures
            final(self)@ == old(self)@.record_all(views(files@).subrange(from as int, to as int)),
    {
        let ghost all = views(files@);
        let mut i: usize = from;
        proof {
            lemma_record_all_step(self@, Seq::empty(), files@[0]@);
            assert(all.subrange(from as int, from as int) =~= Seq::empty());
        }
        while i < to
            invariant
                from <= i <= to <= files@.len(),
                all == views(files@),
                old(self)@.count.plus(tally(all.subrange(from as int, to as int))).fits(),
                self@ == old(self)@.record_all(all.subrange(from as int, i as int)),
            decreases to - i,
        {
            proof {
                let done = all.subrange(from as int, i as int);
                let rest = all.subrange(i as int, to as int);
                assert(all.subrange(from as int, to as int) =~= done + rest);
                lemma_total_size_concat(done, rest);
                assert(rest.drop_last() =~= all.subrange(i as int, to - 1));
                lemma_size_of_first(rest);
                lemma_record_all_step(old(self)@, done, all[i as int]);
                assert(done.push(all[i as int]) =~= all.subrange(from as int, i + 1));
            }
            self.record(&files[i]);
            i += 1;
        }
    }

    /// The files kept, in the order of recording; `None` where the
    /// accumulator keeps none.
    pub fn files(&self) -> (r: Option<&Vec<File>>)
        ensures
            r.is_some() == self@.keeps_files,
            r.is_some() ==> views(r.unwrap()@) == self@.files,
    {
        if !self.shall_store_files {
            return None;
        }
        Some(&self.files)
    }

    /// The files and bytes counted.
    pub fn count(&self) -> (r: Count)
        ensures
            r@ == self@.count,
    {
        self.count
    }

    /// The number of files counted.
    pub fn files_count(&self) -> (r: u64)
        ensures
            r == self@.count.files,
    {
        self.count.files
    }

    /// The number of bytes counted.
    pub fn size(&self) -> (r: SizeBytes)
        ensures
            r == self@.count.size,
    {
        self.count.size
    }
}

} // verus!
