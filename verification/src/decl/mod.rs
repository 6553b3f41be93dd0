//! The declared paths of a system, collected into a tree.
pub mod tmpfiles;
pub mod tree;

pub use crate::declarative::{Entry, FileType, Owner, PathType, StorageClass};

use vstd::prelude::*;

verus! {

/// Properties of a declared path.
pub type Props<'a> = crate::declarative::Properties<'a>;

/// Properties of a declared directory.
pub type DirProps = crate::declarative::DirectoryProperties;

/// The tree of declared paths with their properties.
pub type Tree<'a> = tree::Tree<Props<'a>>;

} // verus!
