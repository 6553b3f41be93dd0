//! A tree that tests build path by path.
use vstd::prelude::*;

use crate::decl;
use crate::decl::tree::{spec_add, spec_add_path_unsupported, spec_path_components, Components, Info};

verus! {

/// A tree of declared paths, each of which must be accepted.
pub struct TestTree<P> {
    tree: decl::tree::Tree<P>,
}

impl<P> View for TestTree<P> {
    type V = Map<Components, Info<P>>;

    closed spec fn view(&self) -> Map<Components, Info<P>> {
        self.tree@
    }
}

/// Whether the tree accepts `path` declared with `path_type`.
pub open spec fn accepts<P>(
    view: Map<Components, Info<P>>,
    path: Seq<char>,
    path_type: decl::PathType,
    props: P,
) -> bool {
    &&& spec_path_components(path) is Ok
    &&& spec_add(view, spec_path_components(path)->Ok_0, path_type, props) is Ok
    &&& !spec_add_path_unsupported(view, path, path_type)
}

/// The tree after accepting `path` declared with `path_type`.
pub open spec fn accepted<P>(
    view: Map<Components, Info<P>>,
    path: Seq<char>,
    path_type: decl::PathType,
    props: P,
) -> Map<Components, Info<P>> {
    spec_add(view, spec_path_components(path)->Ok_0, path_type, props)->Ok_0
}

impl<P> TestTree<P> {
    /// The tree records each path once.
    #[verifier::type_invariant]
    closed spec fn inv(self) -> bool {
        self.tree.wf()
    }
}

impl<P: Copy + std::fmt::Debug> TestTree<P> {
    /// An empty tree.
    pub fn new() -> (res: Self)
        ensures
            res@ == Map::<Components, Info<P>>::empty(),
    {
        Self { tree: decl::tree::Tree::new() }
    }

    /// The tree built so far.
    pub fn tree(&self) -> (res: &decl::tree::Tree<P>)
        ensures
            res@ == self@,
            res.wf(),
    {
        proof {
            use_type_invariant(self);
        }
        &self.tree
    }

    /// Declares the directory `path`.
    pub fn dir(&mut self, path: &str, owns_contents: bool, props: P)
        requires
            accepts(
                old(self)@,
                path@,
                decl::PathType::Dir(decl::DirProps { owns_contents }),
                props,
            ),
        ensures
            final(self)@ == accepted(
                old(self)@,
                path@,
                decl::PathType::Dir(decl::DirProps { owns_contents }),
                props,
            ),
    {
        let path_type = decl::PathType::Dir(decl::DirProps { owns_contents });

        self.add(path, path_type, props)
    }

    /// Declares the regular file `path`.
    pub fn file(&mut self, path: &str, props: P)
        requires
            accepts(old(self)@, path@, decl::PathType::File(decl::FileType::Regular), props),
        ensures
            final(self)@ == accepted(
                old(self)@,
                path@,
                decl::PathType::File(decl::FileType::Regular),
                props,
            ),
    {
        let path_type = decl::PathType::File(decl::FileType::Regular);

        self.add(path, path_type, props)
    }

    /// Declares `path`, which must be accepted.
    fn add(&mut self, path: &str, path_type: decl::PathType, props: P)
        requires
            accepts(old(self)@, path@, path_type, props),
        ensures
            final(self)@ == accepted(old(self)@, path@, path_type, props),
    {
        proof {
            use_type_invariant(&*self);
        }
        let mut tree = decl::tree::Tree::new();
        std::mem::swap(&mut tree, &mut self.tree);
        let res = tree.add_path(path, path_type, props);
        self.tree = tree;
        res.expect("add_path failed")
    }
}

} // verus!
