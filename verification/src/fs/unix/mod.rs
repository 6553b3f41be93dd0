//! The kinds of non-directory entries a Unix file system holds.
pub mod walker;

use vstd::prelude::*;

use crate::fs::TypeChar;

verus! {

/// The kind of a non-directory entry; `Other` carries whatever describes
/// a kind this library does not name.
#[derive(Copy, Clone, Debug, PartialEq, Eq)]
pub enum FileType<O> {
    Regular,
    Symlink,
    Fifo,
    CharDevice,
    BlockDevice,
    Other(O),
}

/// The type character of each kind: `f`, `l`, `p`, `c`, `b`, and `?` for
/// any other kind.
pub open spec fn spec_type_char<O>(file_type: FileType<O>) -> char {
    match file_type {
        FileType::Regular => 'f',
        FileType::Symlink => 'l',
        FileType::Fifo => 'p',
        FileType::CharDevice => 'c',
        FileType::BlockDevice => 'b',
        FileType::Other(_) => '?',
    }
}

impl<O> FileType<O> {
    /// Replaces the payload of `Other` by `f` of it; the named kinds stay.
    pub fn map_other<T, G: FnOnce(O) -> T>(self, f: G) -> (res: FileType<T>)
        requires
            self matches FileType::Other(o) ==> f.requires((o,)),
        ensures
            match self {
                FileType::Regular => res == FileType::<T>::Regular,
                FileType::Symlink => res == FileType::<T>::Symlink,
                FileType::Fifo => res == FileType::<T>::Fifo,
                FileType::CharDevice => res == FileType::<T>::CharDevice,
                FileType::BlockDevice => res == FileType::<T>::BlockDevice,
                FileType::Other(o) => res matches FileType::Other(t) && f.ensures((o,), t),
            },
    {
        match self {
            FileType::Regular => FileType::Regular,
            FileType::Symlink => FileType::Symlink,
            FileType::Fifo => FileType::Fifo,
            FileType::CharDevice => FileType::CharDevice,
            FileType::BlockDevice => FileType::BlockDevice,
            FileType::Other(o) => FileType::Other(f(o)),
        }
    }

    /// The type character of this kind (see `spec_type_char`).
    pub fn file_type_char(&self) -> (c: char)
        ensures
            c == spec_type_char(*self),
    {
        match self {
            Self::Regular => 'f',
            Self::Symlink => 'l',
            Self::Fifo => 'p',
            Self::CharDevice => 'c',
            Self::BlockDevice => 'b',
            Self::Other(_file_type) => '?',
        }
    }
}

impl<O> TypeChar for FileType<O> {
    fn type_char(&self) -> (c: char)
        ensures
            c == spec_type_char(*self),
    {
        self.file_type_char()
    }
}

} // verus!
