//! What kind of entry stands at a path.

use vstd::prelude::*;

verus! {

/// The kinds of entry that can be told apart.
#[derive(Debug, Clone, Copy, PartialEq, Eq, Structural)]
pub enum FileType {
    /// A directory.
    Dir,
    /// A regular file.
    File,
    /// A symbolic link, whatever it points to.
    Symlink,
}

/// What the file system says of one entry, read without following a link:
/// an entry that is a symbolic link is reported as a link, never as what
/// the link points to.
#[derive(Debug, Clone, Copy, PartialEq, Eq, Structural)]
pub struct Metadata {
    /// The entry is a directory.
    pub is_dir: bool,
    /// The entry is a regular file.
    pub is_file: bool,
    /// The entry is a symbolic link.
    pub is_symlink: bool,
}

impl Metadata {
    /// Whether the entry is of one of the kinds that can be told apart. A
    /// socket, a device or a pipe is of none.
    pub open spec fn known(self) -> bool {
        self.is_dir || self.is_file || self.is_symlink
    }

    /// The kind of the entry: the first that applies of directory, regular
    /// file and symbolic link.
    pub open spec fn kind(self) -> FileType {
        if self.is_dir {
            FileType::Dir
        } else if self.is_file {
            FileType::File
        } else {
            FileType::Symlink
        }
    }

    /// Whether the entry is of one of the kinds that can be told apart.
    pub fn is_known(&self) -> (r: bool)
        ensures
            r == self.known(),
    {
        self.is_dir || self.is_file || self.is_symlink
    }
}

/// Tells the kind of an entry from what the file system says of it.
pub fn file_type(metadata: &Metadata) -> (r: FileType)
    requires
        metadata.known(),
    ensures
        r == metadata.kind(),
{
    if metadata.is_dir {
        FileType::Dir
    } else if metadata.is_file {
        FileType::File
    } else {
        FileType::Symlink
    }
}

} // verus!
