//! The count of what a scan has passed over: files and folders.

use vstd::prelude::*;
use crate::filter::{is_dot_name, starts_with_dot};
use crate::stats::Count;

verus! {

/// What a scan skips, and how many files and folders it has skipped.
#[derive(Debug, Copy, Clone)]
pub struct Skipped {
    pub files: Count,
    pub folders: Count,
    pub symlinks: bool,
    pub dot_paths: bool,
}

impl Skipped {
    /// Nothing skipped yet. The flags say whether symbolic links and names
    /// that begin with a dot are to be skipped.
    pub fn new(skip_symlinks: bool, skip_dots_paths: bool) -> (r: Skipped)
        ensures
            r.symlinks == skip_symlinks,
            r.dot_paths == skip_dots_paths,
            r.files == (Count { files: 0, size: 0 }),
            r.folders == (Count { files: 0, size: 0 }),
    {
        Skipped {
            symlinks: skip_symlinks,
            dot_paths: skip_dots_paths,
            files: Count::new(),
            folders: Count::new(),
        }
    }

    /// Whether an entry is skipped: a symbolic link where links are
    /// skipped, or a name that begins with a dot where such names are.
    pub open spec fn skips(self, is_symlink: bool, name: Option<Seq<char>>) -> bool {
        (self.symlinks && is_symlink) || (self.dot_paths && is_dot_name(name))
    }

    /// The state with one more skipped entry: a folder or a file.
    pub open spec fn recorded(self, is_dir: bool) -> Skipped {
        if is_dir {
            Skipped {
                folders: Count { files: (self.folders.files + 1) as u64, size: self.folders.size },
                ..self
            }
        } else {
            Skipped {
                files: Count { files: (self.files.files + 1) as u64, size: self.files.size },
                ..self
            }
        }
    }

    /// Skips an entry if it is to be skipped, counts it as a folder or as a
    /// file, and tells whether it was skipped. `is_symlink` and `is_dir`
    /// say what the entry is; `name` is the last part of its path, where
    /// that is text.
    pub fn record_if_match(&mut self, is_symlink: bool, is_dir: bool, name: Option<&str>) -> (r: bool)
        requires
            old(self).files.files < u64::MAX,
            old(self).folders.files < u64::MAX,
        ensures
            r == old(self).skips(
                is_symlink,
                match name {
                    Some(n) => Some(n@),
                    None => None,
                },
            ),
            *final(self) == if r {
                old(self).recorded(is_dir)
            } else {
                *old(self)
            },
    {
        if self.symlinks && is_symlink {
            self.record(is_dir);
            return true;
        }
        if self.dot_paths && starts_with_dot(name) {
            self.record(is_dir);
            return true;
        }
        false
    }

    /// Counts one skipped file.
    pub fn record_file(&mut self)
        requires
            old(self).files.files < u64::MAX,
        ensures
            *final(self) == old(self).recorded(false),
    {
        self.files.files += 1;
    }

    /// Counts one skipped folder.
    pub fn record_folder(&mut self)
        requires
            old(self).folders.files < u64::MAX,
        ensures
            *final(self) == old(self).recorded(true),
    {
        self.folders.files += 1;
    }

    /// Counts one skipped entry, as a folder or as a file.
    fn record(&mut self, is_dir: bool)
        requires
            old(self).files.files < u64::MAX,
            old(self).folders.files < u64::MAX,
        ensures
            *final(self) == old(self).recorded(is_dir),
    {
        if is_dir {
            self.record_folder();
        } else {
            self.record_file();
        }
    }
}

} // verus!
