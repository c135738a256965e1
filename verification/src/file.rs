//! File records: a path, a size and a content checksum.

use vstd::prelude::*;
use vstd::string::StringSliceAdditionalSpecFns;
use crate::checksum::{crc64_redis, CheckSum, CheckSummer, Crc64};

verus! {

/// A size or a number of bytes.
pub type SizeBytes = u64;

/// What a file record says, as a mathematical value.
pub ghost struct FileView {
    pub path: Seq<char>,
    pub size: SizeBytes,
    pub check_sum: CheckSum,
}

impl FileView {
    /// Two records have the same contents when size and checksum agree; the
    /// path plays no part.
    pub open spec fn same_contents(self, other: FileView) -> bool {
        self.check_sum == other.check_sum && self.size == other.size
    }
}

/// A file of a snapshot: its path relative to the snapshot's root, the
/// number of bytes read from it and the checksum of those bytes.
#[derive(Debug, PartialEq, Eq, Hash)]
pub struct File {
    pub path: String,
    pub size: SizeBytes,
    pub check_sum: CheckSum,
}

impl View for File {
    type V = FileView;

    open spec fn view(&self) -> FileView {
        FileView { path: self.path@, size: self.size, check_sum: self.check_sum }
    }
}

impl Clone for File {
    fn clone(&self) -> (r: File)
        ensures
            r@ == self@,
    {
        File { path: self.path.clone(), size: self.size, check_sum: self.check_sum }
    }
}

/// The views of a sequence of records, one for one.
pub open spec fn views(files: Seq<File>) -> Seq<FileView> {
    files.map_values(|f: File| f@)
}

impl File {
    pub fn new(path: String, size_bytes: SizeBytes, check_sum: CheckSum) -> (r: File)
        ensures
            r@ == (FileView { path: path@, size: size_bytes, check_sum }),
    {
        File { path, size: size_bytes, check_sum }
    }

    /// Whether both records have the same contents.
    pub fn equals(&self, f2: &File) -> (r: bool)
        ensures
            r == self@.same_contents(f2@),
    {
        self.check_sum == f2.check_sum && self.size == f2.size
    }

    /// The record of a file at `path` that holds the bytes of `contents`.
    pub fn from_strings(path: &str, contents: &str) -> (r: File)
        ensures
            r@.path == path@,
            r@.size == contents.spec_bytes().len(),
            r@.check_sum == crc64_redis(contents.spec_bytes()),
    {
        let algorithm = Crc64::new();
        let mut summer = CheckSummer::new(&algorithm);
        let bytes = contents.as_bytes();
        let check_sum = summer.consume(bytes).finalize();
        assert(Seq::<u8>::empty() + bytes@ =~= bytes@);
        File { path: String::from_str(path), size: bytes.len() as u64, check_sum }
    }
}

} // verus!
