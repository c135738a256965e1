//! The hashing of one file, chunk by chunk.

use vstd::prelude::*;
use vstd::string::{StrSliceExecFns, StringExecFns};
use crate::checksum::{crc64, CheckSummer, Crc64, Parameters};
use crate::file::{File, FileView, SizeBytes};

verus! {

/// The size of the chunks in which files are read, and the size above
/// which a file counts as large: 10 MiB.
pub const CHUNK_SIZE: u64 = 1024 * 1024 * 10;

/// The character that stands between the parts of a path.
pub const SEPARATOR: char = '/';

/// A root as the front of every path below it: the root with a separator
/// behind it, unless it ends in one.
pub open spec fn root_front(root: Seq<char>) -> Seq<char> {
    if root.len() > 0 && root.last() == SEPARATOR {
        root
    } else {
        root.push(SEPARATOR)
    }
}

/// A path relative to a root: what follows the root and its separator.
/// There is none where the path does not begin with them.
pub open spec fn relative(root: Seq<char>, path: Seq<char>) -> Option<Seq<char>> {
    let front = root_front(root);
    if front.is_prefix_of(path) {
        Some(path.skip(front.len() as int))
    } else {
        None
    }
}

/// The path of a file relative to the root of its snapshot, if the file
/// stands below that root: for the root `a/b` and the path `a/b/c/d` it is
/// `c/d`.
pub fn relative_to(root: &str, path: &str) -> (r: Option<String>)
    ensures
        match r {
            Some(rest) => relative(root@, path@) == Some(rest@),
            None => relative(root@, path@).is_none(),
        },
{
    let root_len = root.unicode_len();
    let path_len = path.unicode_len();
    let closed = root_len > 0 && root.get_char(root_len - 1) == SEPARATOR;
    if path_len < root_len || (!closed && path_len == root_len) {
        return None;
    }
    let head = path.substring_char(0, root_len);
    if String::from_str(head) != String::from_str(root) {
        proof {
            if root_front(root@).is_prefix_of(path@) {
                assert(root@ =~= path@.subrange(0, root_len as int)) by {
                    assert(root_front(root@).subrange(0, root_len as int) =~= root@);
                }
            }
        }
        return None;
    }
    if !closed && path.get_char(root_len) != SEPARATOR {
        proof {
            if root_front(root@).is_prefix_of(path@) {
                assert(path@.subrange(0, root_len + 1)[root_len as int] == SEPARATOR);
            }
        }
        return None;
    }
    let front_len = if closed {
        root_len
    } else {
        root_len + 1
    };
    let rest = path.substring_char(front_len, path_len);
    proof {
        assert(root_front(root@) =~= path@.subrange(0, front_len as int));
        assert(rest@ =~= path@.skip(front_len as int));
    }
    Some(String::from_str(rest))
}

/// The state of a worker that reads a file: the checksum of the chunks
/// read so far and their length.
pub struct Hashing<'a> {
    checksummer: CheckSummer<'a>,
    size_bytes: SizeBytes,
}

impl<'a> View for Hashing<'a> {
    type V = Seq<u8>;

    /// The bytes read so far of the file at hand.
    closed spec fn view(&self) -> Seq<u8> {
        self.checksummer@
    }
}

impl<'a> Hashing<'a> {
    /// The length read so far is the length of the bytes read, and the
    /// checksummer is in order.
    pub closed spec fn wf(&self) -> bool {
        self.size_bytes == self.checksummer@.len() && self.checksummer.wf()
    }

    /// The parameters of the algorithm that the checksums are taken with.
    pub closed spec fn parameters(&self) -> Parameters {
        self.checksummer.parameters()
    }

    /// A worker before it has read anything. It takes its checksums with
    /// the given algorithm.
    pub fn new(algorithm: &'a Crc64) -> (r: Hashing<'a>)
        ensures
            r@ == Seq::<u8>::empty(),
            r.parameters() == algorithm.parameters(),
            r.wf(),
    {
        Hashing { checksummer: CheckSummer::new(algorithm), size_bytes: 0 }
    }

    /// How many bytes were read of the file at hand.
    pub fn size(&self) -> (r: SizeBytes)
        requires
            self.wf(),
        ensures
            r == self@.len(),
    {
        self.size_bytes
    }

    /// Takes in the next chunk of the file.
    pub fn consume(&mut self, chunk: &[u8])
        requires
            old(self).wf(),
            old(self)@.len() + chunk@.len() <= u64::MAX,
        ensures
            final(self)@ == old(self)@ + chunk@,
            final(self).parameters() == old(self).parameters(),
            final(self).wf(),
    {
        self.checksummer.consume(chunk);
        self.size_bytes += chunk.len() as u64;
    }

    /// Takes in the next chunk of the file if the length read so far has
    /// room for it, and tells whether it did.
    pub fn try_consume(&mut self, chunk: &[u8]) -> (r: bool)
        requires
            old(self).wf(),
        ensures
            r == (old(self)@.len() + chunk@.len() <= u64::MAX),
            final(self)@ == if r {
                old(self)@ + chunk@
            } else {
                old(self)@
            },
            final(self).parameters() == old(self).parameters(),
            final(self).wf(),
    {
        if chunk.len() as u64 > u64::MAX - self.size_bytes {
            return false;
        }
        self.consume(chunk);
        true
    }

    /// The record of the file that was read: its path, the number of bytes
    /// that were read, which is the size that counts, and their checksum
    /// under the worker's algorithm. The worker is ready for the next file.
    pub fn finish(&mut self, path: String) -> (r: File)
        requires
            old(self).wf(),
        ensures
            r@ == (FileView {
                path: path@,
                size: old(self)@.len() as u64,
                check_sum: crc64(old(self).parameters(), old(self)@),
            }),
            final(self)@ == Seq::<u8>::empty(),
            final(self).parameters() == old(self).parameters(),
            final(self).wf(),
    {
        let check_sum = self.checksummer.finalize();
        let size = self.size_bytes;
        self.size_bytes = 0;
        File::new(path, size, check_sum)
    }

    /// The record of a symbolic link: its path, no bytes, and the checksum
    /// of what was taken in, which is the text that the link holds. What
    /// the link leads to plays no part. The worker is ready for the next
    /// file.
    pub fn finish_link(&mut self, path: String) -> (r: File)
        requires
            old(self).wf(),
        ensures
            r@ == (FileView {
                path: path@,
                size: 0,
                check_sum: crc64(old(self).parameters(), old(self)@),
            }),
            final(self)@ == Seq::<u8>::empty(),
            final(self).parameters() == old(self).parameters(),
            final(self).wf(),
    {
        let check_sum = self.checksummer.finalize();
        self.size_bytes = 0;
        File::new(path, 0, check_sum)
    }
}

} // verus!
