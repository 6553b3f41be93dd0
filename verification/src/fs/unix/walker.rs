//! What a walk over the file system decides at each entry it meets, given
//! the tree of declared paths.
use vstd::prelude::*;

use crate::decl;
use crate::decl::tree::{info_path_type, info_props, sub_view, NodeChildren};
use crate::fs;

verus! {

/// The kind of a non-directory entry met on disk; kinds this library does
/// not name carry nothing.
pub type FileType = super::FileType<()>;

/// The type of an entry met on disk.
pub type PathType = fs::Entry<(), FileType>;

/// The type an entry declared with `path_type` has on disk.
pub open spec fn spec_from_declarative_path_type(path_type: decl::PathType) -> PathType {
    match path_type {
        fs::Entry::Dir(_) => fs::Entry::Dir(()),
        fs::Entry::File(file_type) => fs::Entry::File(
            match file_type {
                decl::FileType::Regular => super::FileType::Regular,
                decl::FileType::Symlink => super::FileType::Symlink,
                decl::FileType::Fifo => super::FileType::Fifo,
                decl::FileType::CharDevice => super::FileType::CharDevice,
                decl::FileType::BlockDevice => super::FileType::BlockDevice,
            },
        ),
    }
}

impl fs::Entry<(), FileType> {
    /// The type an entry declared with `path_type` has on disk.
    pub fn from_declarative_path_type(path_type: decl::PathType) -> (res: Self)
        ensures
            res == spec_from_declarative_path_type(path_type),
    {
        match path_type {
            fs::Entry::Dir(_) => fs::Entry::Dir(()),
            fs::Entry::File(file_type) => fs::Entry::File(
                match file_type {
                    decl::FileType::Regular => super::FileType::Regular,
                    decl::FileType::Symlink => super::FileType::Symlink,
                    decl::FileType::Fifo => super::FileType::Fifo,
                    decl::FileType::CharDevice => super::FileType::CharDevice,
                    decl::FileType::BlockDevice => super::FileType::BlockDevice,
                },
            ),
        }
    }

    /// Whether both are the same type.
    pub fn same_as(&self, other: &Self) -> (res: bool)
        ensures
            res == (*self == *other),
    {
        match (self, other) {
            (fs::Entry::Dir(a), fs::Entry::Dir(b)) => {
                assert(*a == *b);
                true
            },
            (fs::Entry::File(a), fs::Entry::File(b)) => match (a, b) {
                (super::FileType::Regular, super::FileType::Regular) => true,
                (super::FileType::Symlink, super::FileType::Symlink) => true,
                (super::FileType::Fifo, super::FileType::Fifo) => true,
                (super::FileType::CharDevice, super::FileType::CharDevice) => true,
                (super::FileType::BlockDevice, super::FileType::BlockDevice) => true,
                (super::FileType::Other(x), super::FileType::Other(y)) => {
                    assert(*x == *y);
                    true
                },
                _ => false,
            },
            _ => false,
        }
    }

    /// Whether this type is what was declared; an entry with no declared
    /// type matches.
    pub fn matches(&self, maybe_path_type: Option<decl::PathType>) -> (res: bool)
        ensures
            res == match maybe_path_type {
                Some(path_type) => spec_from_declarative_path_type(path_type) == *self,
                None => true,
            },
    {
        match maybe_path_type {
            Some(path_type) => Self::from_declarative_path_type(path_type).same_as(self),
            None => true,
        }
    }
}

/// A walk over the file system reports each entry it meets to a visitor;
/// the visitor decides whether the walk descends into a directory.
pub trait Visitor<P> {
    /// A directory at `path`; `has_declared_children` tells whether paths
    /// below it are declared.
    fn visit_dir(
        &mut self,
        path: &str,
        declared: decl::Entry<P>,
        has_declared_children: bool,
    ) -> core::ops::ControlFlow<(), ()>;

    /// A non-directory entry at `path`, of `len` bytes.
    fn visit_file(&mut self, path: &str, file_type: FileType, declared: decl::Entry<P>, len: u64);
}

/// What the tree declares about the entry `name` of a directory whose
/// declared children are `maybe_node_children` (none where the directory
/// lies outside the tree), given the properties the directory hands down.
pub open spec fn spec_declared_entry<P>(
    maybe_children: Option<Map<decl::tree::Components, decl::tree::Info<P>>>,
    name: Seq<char>,
    inherited_props: Option<P>,
) -> decl::Entry<P> {
    match maybe_children {
        Some(children) if children.contains_key(seq![name]) => decl::Entry {
            maybe_path_type: Some(info_path_type(children[seq![name]])),
            maybe_props: match info_props(children[seq![name]]) {
                Some(props) => Some(props),
                None => inherited_props,
            },
        },
        _ => decl::Entry { maybe_path_type: None, maybe_props: inherited_props },
    }
}

/// The view of optional children.
pub open spec fn maybe_children_view<P>(maybe_children: Option<&NodeChildren<P>>) -> Option<
    Map<decl::tree::Components, decl::tree::Info<P>>,
> {
    match maybe_children {
        Some(children) => Some(children@),
        None => None,
    }
}

/// What the tree declares about the entry `name` of a directory (see
/// `spec_declared_entry`), the declared children of the entry where it is a
/// declared directory, and whether it has any.
pub fn declare_entry<'t, P: Copy>(
    maybe_node_children: Option<&'t NodeChildren<P>>,
    name: &str,
    inherited_props: Option<P>,
) -> (res: (decl::Entry<P>, Option<&'t NodeChildren<P>>, bool))
    ensures
        res.0 == spec_declared_entry(maybe_children_view(maybe_node_children), name@, inherited_props),
        match maybe_node_children {
            Some(children) if children@.contains_key(seq![name@]) && children@[seq![
                name@,
            ]] is Dir => res.1 matches Some(below) && below@ == sub_view(children@, name@),
            _ => res.1 is None,
        },
        res.2 == (res.1 matches Some(below) && below@.dom() != Set::<decl::tree::Components>::empty()),
{
    let maybe_tree_node = match maybe_node_children {
        Some(tree_dir) => tree_dir.get(name),
        None => None,
    };
    let maybe_declared_props = match maybe_tree_node {
        Some(tree_node) => match tree_node.get_props() {
            Some(props) => Some(props),
            None => inherited_props,
        },
        None => inherited_props,
    };
    let maybe_declared_path_type = match maybe_tree_node {
        Some(tree_node) => Some(tree_node.path_type()),
        None => None,
    };
    let declared = decl::Entry {
        maybe_path_type: maybe_declared_path_type,
        maybe_props: maybe_declared_props,
    };
    let maybe_children = match maybe_tree_node {
        Some(tree_node) => tree_node.get_children(),
        None => None,
    };
    let has_declared_children = match maybe_children {
        Some(children) => !children.is_empty(),
        None => false,
    };
    (declared, maybe_children, has_declared_children)
}

/// Whether a declared directory owns its contents.
fn owns_contents(d: decl::DirProps) -> (res: bool)
    ensures
        res == d.owns_contents,
{
    d.owns_contents
}

/// The properties a directory hands down to what lies below it: its own,
/// where it is declared as owning its contents, and none otherwise.
pub open spec fn spec_props_for_children<P>(
    maybe_declared_path_type: Option<decl::PathType>,
    maybe_declared_props: Option<P>,
) -> Option<P> {
    if maybe_declared_path_type matches Some(fs::Entry::Dir(d)) && d.owns_contents {
        maybe_declared_props
    } else {
        None
    }
}

/// The properties a directory hands down to what lies below it (see
/// `spec_props_for_children`).
pub fn props_for_children<P: Copy>(
    maybe_declared_path_type: Option<decl::PathType>,
    maybe_declared_props: Option<P>,
) -> (res: Option<P>)
    ensures
        res == spec_props_for_children(maybe_declared_path_type, maybe_declared_props),
{
    let propagate_props = match maybe_declared_path_type {
        Some(path_type) => path_type.map_dir_or(false, owns_contents),
        None => false,
    };
    if propagate_props {
        maybe_declared_props
    } else {
        None
    }
}

/// What the walk goes on with below a directory once the visitor has
/// decided `flow`: nothing where it stops there; otherwise the directory's
/// declared children and the properties it hands down.
pub fn descend<'t, P: Copy>(
    flow: core::ops::ControlFlow<(), ()>,
    declared: decl::Entry<P>,
    maybe_children: Option<&'t NodeChildren<P>>,
) -> (res: Option<(Option<&'t NodeChildren<P>>, Option<P>)>)
    ensures
        flow is Break ==> res is None,
        flow is Continue ==> res == Some(
            (
                maybe_children,
                spec_props_for_children(declared.maybe_path_type, declared.maybe_props),
            ),
        ),
{
    match flow {
        core::ops::ControlFlow::Continue(()) => Some(
            (maybe_children, props_for_children(declared.maybe_path_type, declared.maybe_props)),
        ),
        core::ops::ControlFlow::Break(()) => None,
    }
}

} // verus!
