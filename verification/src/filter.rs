//! Which directory entries a scan passes over.

use vstd::prelude::*;
use vstd::string::StrSliceExecFns;

verus! {

/// Whether a name begins with a dot. An entry whose name is no text has
/// no such name.
pub open spec fn is_dot_name(name: Option<Seq<char>>) -> bool {
    match name {
        Some(n) => n.len() > 0 && n[0] == '.',
        None => false,
    }
}

/// Whether the name of an entry begins with a dot.
pub fn starts_with_dot(name: Option<&str>) -> (r: bool)
    ensures
        r == is_dot_name(
            match name {
                Some(n) => Some(n@),
                None => None,
            },
        ),
{
    match name {
        Some(n) => !n.is_empty() && n.get_char(0) == '.',
        None => false,
    }
}

/// Why an entry is passed over.
#[derive(Debug, Clone, Copy, PartialEq, Eq, Structural)]
pub enum MatchReason {
    IsSymlink,
    IsDotPath,
}

/// What a scan takes in beyond regular files with plain names.
#[derive(Debug, Copy, Clone, PartialEq, Eq, Structural)]
pub struct Filter {
    pub include_symlinks: bool,
    pub include_dot_paths: bool,
}

impl Filter {
    pub fn new(include_symlinks: bool, include_dot_paths: bool) -> (r: Filter)
        ensures
            r == (Filter { include_symlinks, include_dot_paths }),
    {
        Filter { include_symlinks, include_dot_paths }
    }

    /// Why an entry is passed over, if it is: a symbolic link where links
    /// are not included, else a name that begins with a dot where such
    /// names are not included.
    pub open spec fn verdict(self, is_symlink: bool, name: Option<Seq<char>>) -> Option<MatchReason> {
        if !self.include_symlinks && is_symlink {
            Some(MatchReason::IsSymlink)
        } else if !self.include_dot_paths && is_dot_name(name) {
            Some(MatchReason::IsDotPath)
        } else {
            None
        }
    }

    /// Tells whether an entry is passed over, and why. `is_symlink` says
    /// whether the entry is a symbolic link; `name` is the last part of its
    /// path, where that is text.
    pub fn matches(&self, is_symlink: bool, name: Option<&str>) -> (r: Option<MatchReason>)
        ensures
            r == self.verdict(
                is_symlink,
                match name {
                    Some(n) => Some(n@),
                    None => None,
                },
            ),
    {
        if !self.include_symlinks && is_symlink {
            return Some(MatchReason::IsSymlink);
        }
        if !self.include_dot_paths && starts_with_dot(name) {
            return Some(MatchReason::IsDotPath);
        }
        None
    }
}

} // verus!
