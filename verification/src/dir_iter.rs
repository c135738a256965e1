//! The work list of a scan: which entries of a directory tree are
//! scheduled for hashing, in which order they are handed out, and what was
//! passed over.

use vstd::prelude::*;
use crate::file::SizeBytes;
use crate::filter::{is_dot_name, Filter, MatchReason};
use crate::skipped::Skipped;
use crate::snapper::CHUNK_SIZE;
use crate::stats::Count;

verus! {

/// A scheduled path with the size that the scan saw.
pub type Scheduled = (Seq<char>, SizeBytes);

/// The sizes of some scheduled paths added up.
pub open spec fn sizes(paths: Seq<Scheduled>) -> nat
    decreases paths.len(),
{
    if paths.len() == 0 {
        0
    } else {
        sizes(paths.drop_last()) + paths.last().1 as nat
    }
}

/// No path is larger than one before it.
pub open spec fn descending(paths: Seq<Scheduled>) -> bool {
    forall|i: int, j: int| 0 <= i <= j < paths.len() ==> (#[trigger] paths[i]).1 >= (#[trigger] paths[j]).1
}

/// How many of the paths are at least of this size.
pub open spec fn at_least(paths: Seq<Scheduled>, size: SizeBytes) -> nat
    decreases paths.len(),
{
    if paths.len() == 0 {
        0
    } else {
        at_least(paths.drop_last(), size) + if paths.last().1 >= size {
            1nat
        } else {
            0nat
        }
    }
}

/// Where the first `i` paths are at least of a size and the others are
/// smaller, `i` paths are at least of that size.
pub proof fn lemma_at_least(paths: Seq<Scheduled>, size: SizeBytes, i: int)
    requires
        0 <= i <= paths.len(),
        forall|j: int| 0 <= j < i ==> (#[trigger] paths[j]).1 >= size,
        forall|j: int| i <= j < paths.len() ==> (#[trigger] paths[j]).1 < size,
    ensures
        at_least(paths, size) == i,
    decreases paths.len(),
{
    if paths.len() > 0 {
        let rest = paths.drop_last();
        if i == paths.len() {
            assert forall|j: int| 0 <= j < i - 1 implies (#[trigger] rest[j]).1 >= size by {
                assert(rest[j] == paths[j]);
            }
            lemma_at_least(rest, size, i - 1);
            assert(paths[i - 1].1 >= size);
        } else {
            assert forall|j: int| 0 <= j < i implies (#[trigger] rest[j]).1 >= size by {
                assert(rest[j] == paths[j]);
            }
            assert forall|j: int| i <= j < rest.len() implies (#[trigger] rest[j]).1 < size by {
                assert(rest[j] == paths[j]);
            }
            lemma_at_least(rest, size, i);
            assert(paths[paths.len() - 1].1 < size);
        }
    }
}

/// A path put into a list adds its size to the list's.
pub proof fn lemma_sizes_insert(paths: Seq<Scheduled>, i: int, e: Scheduled)
    requires
        0 <= i <= paths.len(),
    ensures
        sizes(paths.insert(i, e)) == sizes(paths) + e.1 as nat,
    decreases paths.len(),
{
    let r = paths.insert(i, e);
    if i == paths.len() {
        assert(r.drop_last() =~= paths);
    } else {
        lemma_sizes_insert(paths.drop_last(), i, e);
        assert(r.drop_last() =~= paths.drop_last().insert(i, e));
        assert(r.last() == paths.last());
    }
}

/// The scheduled paths as mathematical values, one for one.
pub open spec fn path_views(paths: Seq<(String, SizeBytes)>) -> Seq<Scheduled> {
    paths.map_values(|e: (String, SizeBytes)| (e.0@, e.1))
}

/// What a path list holds, as a mathematical value.
pub ghost struct PathListView {
    pub paths: Seq<Scheduled>,
    /// How many of the paths were handed out.
    pub it: nat,
}

/// A list of paths that is handed out once, in order.
pub struct PathList {
    paths: Vec<(String, SizeBytes)>,
    it: usize,
}

impl View for PathList {
    type V = PathListView;

    closed spec fn view(&self) -> PathListView {
        PathListView { paths: path_views(self.paths@), it: self.it as nat }
    }
}

impl PathList {
    /// An empty list.
    pub fn new() -> (r: PathList)
        ensures
            r@ == (PathListView { paths: Seq::empty(), it: 0 }),
    {
        let r = PathList { paths: Vec::new(), it: 0 };
        assert(path_views(r.paths@) =~= Seq::empty());
        r
    }

    /// Puts a path at the end.
    fn push(&mut self, path: String, size: SizeBytes)
        ensures
            final(self)@ == (PathListView {
                paths: old(self)@.paths.push((path@, size)),
                it: old(self)@.it,
            }),
    {
        let ghost e = (path@, size);
        self.paths.push((path, size));
        assert(path_views(self.paths@) =~= path_views(old(self).paths@).push(e));
    }

    /// Puts a path behind all paths that are at least of its size.
    fn insert_by_size(&mut self, path: String, size: SizeBytes)
        requires
            descending(old(self)@.paths),
        ensures
            final(self)@ == (PathListView {
                paths: old(self)@.paths.insert(
                    at_least(old(self)@.paths, size) as int,
                    (path@, size),
                ),
                it: old(self)@.it,
            }),
            descending(final(self)@.paths),
    {
        let ghost before = self@.paths;
        let mut i: usize = 0;
        while i < self.paths.len() && self.paths[i].1 >= size
            invariant
                i <= self.paths@.len(),
                before == path_views(self.paths@),
                forall|j: int| 0 <= j < i ==> (#[trigger] before[j]).1 >= size,
            decreases self.paths@.len() - i,
        {
            i += 1;
        }
        proof {
            assert forall|j: int| i <= j < before.len() implies (#[trigger] before[j]).1 < size by {
                assert(before[i as int].1 >= before[j].1);
            }
            lemma_at_least(before, size, i as int);
        }
        let ghost e = (path@, size);
        self.paths.insert(i, (path, size));
        proof {
            let after = path_views(self.paths@);
            assert(after =~= before.insert(i as int, e));
            assert forall|x: int, y: int| 0 <= x <= y < after.len() implies (#[trigger] after[x]).1 >= (
            #[trigger] after[y]).1 by {
                let bx = if x < i { x } else { x - 1 };
                let by_ = if y < i { y } else { y - 1 };
                if x != i && y != i {
                    assert(after[x] == before[bx]);
                    assert(after[y] == before[by_]);
                } else if x == i && y != i {
                    assert(after[y] == before[by_]);
                } else if y == i && x != i {
                    assert(after[x] == before[bx]);
                }
            }
        }
    }

    /// Hands out the next path, if one is left.
    pub fn next(&mut self) -> (r: Option<String>)
        requires
            old(self)@.it <= old(self)@.paths.len(),
        ensures
            match r {
                Some(path) => old(self)@.it < old(self)@.paths.len() && path@ == old(
                    self,
                )@.paths[old(self)@.it as int].0 && final(self)@ == (PathListView {
                    paths: old(self)@.paths,
                    it: old(self)@.it + 1,
                }),
                None => old(self)@.it == old(self)@.paths.len() && final(self)@ == old(self)@,
            },
    {
        if self.it >= self.paths.len() {
            return None;
        }
        let path = self.paths[self.it].0.clone();
        self.it += 1;
        Some(path)
    }
}

/// How many entries a scan has passed over, by reason: a name that begins
/// with a dot, a symbolic link, or a file or folder that could not be
/// opened.
#[derive(Debug, Copy, Clone, PartialEq, Eq, Structural)]
pub struct SkippedStats {
    pub dot_paths: u64,
    pub symlinks: u64,
    pub no_opener: u64,
}

impl SkippedStats {
    pub fn new() -> (r: SkippedStats)
        ensures
            r == (SkippedStats { dot_paths: 0, symlinks: 0, no_opener: 0 }),
    {
        SkippedStats { dot_paths: 0, symlinks: 0, no_opener: 0 }
    }
}

/// What is to be done with an entry of a directory.
#[derive(Debug, Clone, Copy, PartialEq, Eq, Structural)]
pub enum Visit {
    /// The entry is passed over and was counted as skipped.
    Skipped(MatchReason),
    /// The entry is a directory: its entries are to be visited.
    Descend,
    /// The entry is a regular file: it is to be opened, and then either
    /// admitted with its size or reported as unreadable.
    Probe,
    /// The entry is a symbolic link and was scheduled with size 0; what
    /// it leads to is left alone.
    Scheduled,
    /// The entry is nothing that a scan takes in.
    Ignored,
}

/// What a scan holds, as a mathematical value.
pub ghost struct DirIteratorView {
    pub large: PathListView,
    pub small: PathListView,
    pub root: Seq<char>,
    pub scheduled: Count,
    pub filters: Filter,
    pub skipped: SkippedStats,
    pub skipped_entries: Skipped,
    pub num_workers: usize,
}

impl DirIteratorView {
    /// Whether a file of this size goes to the large files: it is larger
    /// than a chunk and more than one worker is there to share the work.
    pub open spec fn is_large(self, size: SizeBytes) -> bool {
        size > CHUNK_SIZE && self.num_workers > 1
    }

    /// The large files stand in descending order of size, every path is in
    /// the list where it belongs, no more paths were handed out than there
    /// are, and the scheduled count is that of both lists together.
    pub open spec fn wf(self) -> bool {
        &&& descending(self.large.paths)
        &&& forall|i: int| 0 <= i < self.large.paths.len() ==> self.is_large((#[trigger] self.large.paths[i]).1)
        &&& forall|i: int| 0 <= i < self.small.paths.len() ==> !self.is_large((#[trigger] self.small.paths[i]).1)
        &&& self.large.it <= self.large.paths.len()
        &&& self.small.it <= self.small.paths.len()
        &&& self.scheduled.files == self.large.paths.len() + self.small.paths.len()
        &&& self.scheduled.size == sizes(self.large.paths) + sizes(self.small.paths)
    }

    /// The scan with one more scheduled path: a large file goes behind the
    /// large files that are at least of its size, any other to the end of
    /// the small files.
    pub open spec fn push(self, path: Seq<char>, size: SizeBytes) -> DirIteratorView {
        let scheduled = Count {
            files: (self.scheduled.files + 1) as u64,
            size: (self.scheduled.size + size) as u64,
        };
        if self.is_large(size) {
            DirIteratorView {
                large: PathListView {
                    paths: self.large.paths.insert(
                        at_least(self.large.paths, size) as int,
                        (path, size),
                    ),
                    it: self.large.it,
                },
                scheduled,
                ..self
            }
        } else {
            DirIteratorView {
                small: PathListView { paths: self.small.paths.push((path, size)), it: self.small.it },
                scheduled,
                ..self
            }
        }
    }

    /// Whether one more path of this size can be scheduled: the count has
    /// room.
    pub open spec fn admits(self, size: SizeBytes) -> bool {
        &&& self.scheduled.files < u64::MAX
        &&& self.scheduled.size + size <= u64::MAX
    }

    /// The scan with one more entry passed over for a reason; the entry
    /// counts as a folder or as a file.
    pub open spec fn skip(self, reason: MatchReason, is_dir: bool) -> DirIteratorView {
        DirIteratorView {
            skipped: match reason {
                MatchReason::IsSymlink => SkippedStats {
                    symlinks: (self.skipped.symlinks + 1) as u64,
                    ..self.skipped
                },
                MatchReason::IsDotPath => SkippedStats {
                    dot_paths: (self.skipped.dot_paths + 1) as u64,
                    ..self.skipped
                },
            },
            skipped_entries: self.skipped_entries.recorded(is_dir),
            ..self
        }
    }

    /// The scan with one more file or folder that could not be opened.
    pub open spec fn unreadable(self, is_dir: bool) -> DirIteratorView {
        DirIteratorView {
            skipped: SkippedStats { no_opener: (self.skipped.no_opener + 1) as u64, ..self.skipped },
            skipped_entries: self.skipped_entries.recorded(is_dir),
            ..self
        }
    }

    /// Whether the counters of skipped entries have room for one more.
    pub open spec fn can_skip(self) -> bool {
        &&& self.skipped.symlinks < u64::MAX
        &&& self.skipped.dot_paths < u64::MAX
        &&& self.skipped.no_opener < u64::MAX
        &&& self.skipped_entries.files.files < u64::MAX
        &&& self.skipped_entries.folders.files < u64::MAX
    }

    /// What is to be done with an entry, by what it is: passed over where
    /// the filter says so; else scheduled as it stands where it is a
    /// symbolic link, whatever the link leads to; else entered where it is
    /// a directory and opened where it is a regular file.
    pub open spec fn decide(
        self,
        name: Option<Seq<char>>,
        is_symlink: bool,
        is_dir: bool,
        is_file: bool,
    ) -> Visit {
        match self.filters.verdict(is_symlink, name) {
            Some(reason) => Visit::Skipped(reason),
            None => if is_symlink {
                Visit::Scheduled
            } else if is_dir {
                Visit::Descend
            } else if is_file {
                Visit::Probe
            } else {
                Visit::Ignored
            },
        }
    }

    /// The scan after an entry was visited.
    pub open spec fn visit(
        self,
        path: Seq<char>,
        name: Option<Seq<char>>,
        is_symlink: bool,
        is_dir: bool,
        is_file: bool,
    ) -> DirIteratorView {
        match self.decide(name, is_symlink, is_dir, is_file) {
            Visit::Skipped(reason) => self.skip(reason, is_dir),
            Visit::Scheduled => self.push(path, 0),
            _ => self,
        }
    }

    /// The path that is handed out next, if one is left: the large files
    /// first, then the small ones.
    pub open spec fn next_path(self) -> Option<Seq<char>> {
        if self.large.it < self.large.paths.len() {
            Some(self.large.paths[self.large.it as int].0)
        } else if self.small.it < self.small.paths.len() {
            Some(self.small.paths[self.small.it as int].0)
        } else {
            None
        }
    }

    /// The scan after a path was handed out.
    pub open spec fn advanced(self) -> DirIteratorView {
        if self.large.it < self.large.paths.len() {
            DirIteratorView {
                large: PathListView { paths: self.large.paths, it: self.large.it + 1 },
                ..self
            }
        } else if self.small.it < self.small.paths.len() {
            DirIteratorView {
                small: PathListView { paths: self.small.paths, it: self.small.it + 1 },
                ..self
            }
        } else {
            self
        }
    }
}

/// An entry whose name begins with a dot is passed over by a scan that
/// does not include such names, whatever the entry is: it is not entered,
/// not opened and not scheduled, so that neither it nor, where it is a
/// directory, anything under it reaches a snapshot.
pub proof fn theorem_dot_names_are_skipped(
    s: DirIteratorView,
    path: Seq<char>,
    name: Seq<char>,
    is_symlink: bool,
    is_dir: bool,
    is_file: bool,
)
    requires
        !s.filters.include_dot_paths,
        is_dot_name(Some(name)),
    ensures
        s.decide(Some(name), is_symlink, is_dir, is_file) is Skipped,
        s.visit(path, Some(name), is_symlink, is_dir, is_file).large == s.large,
        s.visit(path, Some(name), is_symlink, is_dir, is_file).small == s.small,
        s.visit(path, Some(name), is_symlink, is_dir, is_file).scheduled == s.scheduled,
{
}

/// A symbolic link that the filter lets pass is scheduled once, with no
/// bytes, whatever it leads to: it is neither entered nor opened, so that
/// nothing below a linked directory is visited and no byte of a linked
/// file is counted.
pub proof fn theorem_links_are_not_followed(
    s: DirIteratorView,
    path: Seq<char>,
    name: Option<Seq<char>>,
    is_dir: bool,
    is_file: bool,
)
    requires
        s.filters.verdict(true, name).is_none(),
    ensures
        s.decide(name, true, is_dir, is_file) == Visit::Scheduled,
        s.visit(path, name, true, is_dir, is_file) == s.push(path, 0),
        s.visit(path, name, true, is_dir, is_file).scheduled.files == (s.scheduled.files + 1) as u64,
        s.visit(path, name, true, is_dir, is_file).scheduled.size == s.scheduled.size,
{
}

/// Scheduling a path keeps a scan well-formed.
pub proof fn lemma_push_wf(s: DirIteratorView, path: Seq<char>, size: SizeBytes)
    requires
        s.wf(),
        s.admits(size),
    ensures
        s.push(path, size).wf(),
{
    let r = s.push(path, size);
    let e = (path, size);
    if s.is_large(size) {
        let before = s.large.paths;
        let i = at_least(before, size) as int;
        lemma_at_least_bound(before, size);
        lemma_sizes_insert(before, i, e);
        lemma_insert_descending(before, size, e);
        assert forall|x: int| 0 <= x < r.large.paths.len() implies r.is_large((#[trigger] r.large.paths[x]).1) by {
            if x < i {
                assert(r.large.paths[x] == before[x]);
            } else if x > i {
                assert(r.large.paths[x] == before[x - 1]);
            }
        }
    } else {
        let before = s.small.paths;
        assert(before.push(e).drop_last() =~= before);
        assert forall|x: int| 0 <= x < r.small.paths.len() implies !r.is_large((#[trigger] r.small.paths[x]).1) by {
            if x < before.len() {
                assert(r.small.paths[x] == before[x]);
            }
        }
    }
}

/// No more paths are at least of a size than there are paths.
pub proof fn lemma_at_least_bound(paths: Seq<Scheduled>, size: SizeBytes)
    ensures
        at_least(paths, size) <= paths.len(),
    decreases paths.len(),
{
    if paths.len() > 0 {
        lemma_at_least_bound(paths.drop_last(), size);
    }
}

/// In a descending list the paths that are at least of a size come first.
pub proof fn lemma_at_least_front(paths: Seq<Scheduled>, size: SizeBytes)
    requires
        descending(paths),
    ensures
        at_least(paths, size) <= paths.len(),
        forall|j: int| 0 <= j < at_least(paths, size) ==> (#[trigger] paths[j]).1 >= size,
        forall|j: int| at_least(paths, size) <= j < paths.len() ==> (#[trigger] paths[j]).1 < size,
    decreases paths.len(),
{
    if paths.len() > 0 {
        let rest = paths.drop_last();
        assert forall|i: int, j: int| 0 <= i <= j < rest.len() implies (#[trigger] rest[i]).1 >= (
        #[trigger] rest[j]).1 by {
            assert(rest[i] == paths[i]);
            assert(rest[j] == paths[j]);
        }
        lemma_at_least_front(rest, size);
        let n = at_least(rest, size);
        assert forall|j: int| 0 <= j < at_least(paths, size) implies (#[trigger] paths[j]).1 >= size by {
            if j < rest.len() {
                assert(rest[j] == paths[j]);
                if j >= n {
                    assert(paths[j].1 >= paths[paths.len() - 1].1);
                }
            }
        }
        assert forall|j: int| at_least(paths, size) <= j < paths.len() implies (#[trigger] paths[j]).1
            < size by {
            if j < rest.len() {
                assert(rest[j] == paths[j]);
            }
        }
    }
}

/// A path put behind all that are at least of its size leaves a
/// descending list descending.
pub proof fn lemma_insert_descending(paths: Seq<Scheduled>, size: SizeBytes, e: Scheduled)
    requires
        descending(paths),
        e.1 == size,
    ensures
        descending(paths.insert(at_least(paths, size) as int, e)),
{
    lemma_at_least_front(paths, size);
    let i = at_least(paths, size) as int;
    let after = paths.insert(i, e);
    assert forall|x: int, y: int| 0 <= x <= y < after.len() implies (#[trigger] after[x]).1 >= (
    #[trigger] after[y]).1 by {
        let bx = if x < i { x } else { x - 1 };
        let by_ = if y < i { y } else { y - 1 };
        if x != i && y != i {
            assert(after[x] == paths[bx]);
            assert(after[y] == paths[by_]);
        } else if x == i && y != i {
            assert(after[y] == paths[by_]);
        } else if y == i && x != i {
            assert(after[x] == paths[bx]);
        }
    }
}

/// The work list of one snapshot: the files that a scan has scheduled for
/// hashing, the large ones first, and the count of what it passed over.
pub struct DirIterator {
    large_files: PathList,
    small_files: PathList,
    root: String,
    scheduled: Count,
    filters: Filter,
    skipped: SkippedStats,
    skipped_entries: Skipped,
    num_workers: usize,
}

impl View for DirIterator {
    type V = DirIteratorView;

    closed spec fn view(&self) -> DirIteratorView {
        DirIteratorView {
            large: self.large_files@,
            small: self.small_files@,
            root: self.root@,
            scheduled: self.scheduled,
            filters: self.filters,
            skipped: self.skipped,
            skipped_entries: self.skipped_entries,
            num_workers: self.num_workers,
        }
    }
}

impl DirIterator {
    /// A scan of the tree under `root` before any entry was visited.
    pub fn new(num_workers: usize, root: String, filters: Filter) -> (r: DirIterator)
        ensures
            r@ == (DirIteratorView {
                large: PathListView { paths: Seq::empty(), it: 0 },
                small: PathListView { paths: Seq::empty(), it: 0 },
                root: root@,
                scheduled: Count { files: 0, size: 0 },
                filters,
                skipped: SkippedStats { dot_paths: 0, symlinks: 0, no_opener: 0 },
                skipped_entries: Skipped {
                    files: Count { files: 0, size: 0 },
                    folders: Count { files: 0, size: 0 },
                    symlinks: !filters.include_symlinks,
                    dot_paths: !filters.include_dot_paths,
                },
                num_workers,
            }),
            r@.wf(),
    {
        DirIterator {
            root,
            large_files: PathList::new(),
            small_files: PathList::new(),
            scheduled: Count::new(),
            filters,
            skipped: SkippedStats::new(),
            skipped_entries: Skipped::new(!filters.include_symlinks, !filters.include_dot_paths),
            num_workers,
        }
    }

    /// Tells whether one more entry can be counted as skipped and one more
    /// path of this size can be scheduled.
    pub fn has_room(&self, size: SizeBytes) -> (r: bool)
        requires
            self@.wf(),
        ensures
            r == (self@.can_skip() && self@.admits(size)),
    {
        self.skipped.symlinks < u64::MAX && self.skipped.dot_paths < u64::MAX
            && self.skipped.no_opener < u64::MAX && self.skipped_entries.files.files < u64::MAX
            && self.skipped_entries.folders.files < u64::MAX && self.scheduled.files < u64::MAX
            && size <= u64::MAX - self.scheduled.size
    }

    /// Decides what is to be done with an entry of a directory, and counts
    /// or schedules it where that is all there is to do. `name` is the
    /// last part of the entry's path, where that is text; the flags say
    /// what the entry is. The flags for directory and file may tell what a
    /// link leads to: a link is never entered and never opened.
    pub fn visit(
        &mut self,
        path: String,
        name: Option<&str>,
        is_symlink: bool,
        is_dir: bool,
        is_file: bool,
    ) -> (r: Visit)
        requires
            old(self)@.wf(),
            old(self)@.can_skip(),
            old(self)@.admits(0),
        ensures
            r == old(self)@.decide(
                match name {
                    Some(n) => Some(n@),
                    None => None,
                },
                is_symlink,
                is_dir,
                is_file,
            ),
            final(self)@ == old(self)@.visit(
                path@,
                match name {
                    Some(n) => Some(n@),
                    None => None,
                },
                is_symlink,
                is_dir,
                is_file,
            ),
            final(self)@.wf(),
    {
        match self.filters.matches(is_symlink, name) {
            Some(reason) => {
                match reason {
                    MatchReason::IsSymlink => {
                        self.skipped.symlinks += 1;
                    },
                    MatchReason::IsDotPath => {
                        self.skipped.dot_paths += 1;
                    },
                }
                if is_dir {
                    self.skipped_entries.record_folder();
                } else {
                    self.skipped_entries.record_file();
                }
                Visit::Skipped(reason)
            },
            None => {
                if is_symlink {
                    self.push(path, 0);
                    Visit::Scheduled
                } else if is_dir {
                    Visit::Descend
                } else if is_file {
                    Visit::Probe
                } else {
                    Visit::Ignored
                }
            },
        }
    }

    /// Counts a folder that could not be read.
    pub fn unreadable_dir(&mut self)
        requires
            old(self)@.wf(),
            old(self)@.can_skip(),
        ensures
            final(self)@ == old(self)@.unreadable(true),
            final(self)@.wf(),
    {
        self.skipped.no_opener += 1;
        self.skipped_entries.record_folder();
    }

    /// Counts a file that could not be opened.
    pub fn unreadable_file(&mut self)
        requires
            old(self)@.wf(),
            old(self)@.can_skip(),
        ensures
            final(self)@ == old(self)@.unreadable(false),
            final(self)@.wf(),
    {
        self.skipped.no_opener += 1;
        self.skipped_entries.record_file();
    }

    /// Schedules a path with the size that the scan saw.
    pub fn push(&mut self, p: String, size: SizeBytes)
        requires
            old(self)@.wf(),
            old(self)@.admits(size),
        ensures
            final(self)@ == old(self)@.push(p@, size),
            final(self)@.wf(),
    {
        proof {
            lemma_push_wf(self@, p@, size);
        }
        self.scheduled.add(1, size);
        if size > CHUNK_SIZE && self.num_workers > 1 {
            self.large_files.insert_by_size(p, size);
        } else {
            self.small_files.push(p, size);
        }
    }

    /// Hands out the next path to hash: the large files first, in
    /// descending order of size, then the small ones in the order in which
    /// they were scheduled.
    pub fn next_file(&mut self) -> (r: Option<String>)
        requires
            old(self)@.wf(),
        ensures
            match r {
                Some(path) => old(self)@.next_path() == Some(path@),
                None => old(self)@.next_path().is_none(),
            },
            final(self)@ == old(self)@.advanced(),
            final(self)@.wf(),
    {
        match self.large_files.next() {
            Some(path) => Some(path),
            None => self.small_files.next(),
        }
    }

    /// The root of the tree.
    pub fn root(&self) -> (r: &String)
        ensures
            r@ == self@.root,
    {
        &self.root
    }

    /// How many files were scheduled, and how many bytes the scan saw in
    /// them.
    pub fn scheduled(&self) -> (r: Count)
        ensures
            r == self@.scheduled,
    {
        self.scheduled
    }

    /// How many entries were passed over, by reason.
    pub fn skipped(&self) -> (r: SkippedStats)
        ensures
            r == self@.skipped,
    {
        self.skipped
    }

    /// How many files and folders were passed over.
    pub fn skipped_entries(&self) -> (r: Skipped)
        ensures
            r == self@.skipped_entries,
    {
        self.skipped_entries
    }
}

} // verus!
