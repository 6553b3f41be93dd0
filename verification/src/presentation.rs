//! Paths as they are reported: with the type of the entry found on disk.
use vstd::prelude::*;

use crate::fs;
use crate::fs::unix::walker;
use crate::fs::TypeChar;

verus! {

/// A path reported with the type of what was found there.
pub struct UntrackedPath<P> {
    pub path: P,
    pub path_type: walker::PathType,
}

impl<P> UntrackedPath<P> {
    /// The path with the type found there.
    pub fn new(path: P, path_type: walker::PathType) -> (res: Self)
        ensures
            res.path == path,
            res.path_type == path_type,
    {
        Self { path, path_type }
    }
}

/// The type character of an entry found on disk: `d` for a directory.
pub open spec fn spec_path_type_char(path_type: walker::PathType) -> char {
    match path_type {
        fs::Entry::Dir(()) => 'd',
        fs::Entry::File(file_type) => fs::unix::spec_type_char(file_type),
    }
}

impl TypeChar for fs::Entry<(), walker::FileType> {
    fn type_char(&self) -> (c: char)
        ensures
            c == spec_path_type_char(*self),
    {
        match self {
            fs::Entry::Dir(()) => 'd',
            fs::Entry::File(file_type) => file_type.file_type_char(),
        }
    }
}

impl UntrackedPath<String> {
    /// The line that reports the path: its type character, a space, and the
    /// path.
    pub fn to_string(&self) -> (res: String)
        ensures
            res@ == seq![spec_path_type_char(self.path_type), ' '] + self.path@,
    {
        let prefix = match self.path_type {
            fs::Entry::Dir(()) => "d ",
            fs::Entry::File(fs::unix::FileType::Regular) => "f ",
            fs::Entry::File(fs::unix::FileType::Symlink) => "l ",
            fs::Entry::File(fs::unix::FileType::Fifo) => "p ",
            fs::Entry::File(fs::unix::FileType::CharDevice) => "c ",
            fs::Entry::File(fs::unix::FileType::BlockDevice) => "b ",
            fs::Entry::File(fs::unix::FileType::Other(())) => "? ",
        };
        proof {
            reveal_strlit("d ");
            reveal_strlit("f ");
            reveal_strlit("l ");
            reveal_strlit("p ");
            reveal_strlit("c ");
            reveal_strlit("b ");
            reveal_strlit("? ");
        }
        let mut line = String::from_str(prefix);
        line.append(self.path.as_str());
        line
    }
}

} // verus!
