use gardener::decl::tree::{DirKind, Node, NodeChildren, Tree, TreeError};
use gardener::declarative::{DirectoryProperties, FileType, PathType};
use gardener::fs::Entry;

fn dir(owns_contents: bool) -> PathType {
    Entry::Dir(DirectoryProperties { owns_contents })
}

fn file() -> PathType {
    Entry::File(FileType::Regular)
}

fn lookup<'t>(tree: &'t Tree<u32>, path: &[&str]) -> Option<&'t Node<u32>> {
    let mut children: &NodeChildren<u32> = &tree.root;
    let mut found = None;
    for name in path {
        let node = children.get(name)?;
        found = Some(node);
        if let Some(c) = node.get_children() {
            children = c;
        }
    }
    found
}

#[test]
fn add_records_path_and_intermediate_dirs() {
    let mut tree = Tree::new();
    assert!(tree.add_path("/a/b/c", file(), 7).is_ok());

    let a = lookup(&tree, &["a"]).unwrap();
    assert_eq!(a.path_type(), dir(false));
    assert_eq!(a.get_props(), None);
    let b = lookup(&tree, &["a", "b"]).unwrap();
    assert_eq!(b.get_props(), None);
    let c = lookup(&tree, &["a", "b", "c"]).unwrap();
    assert_eq!(c.path_type(), file());
    assert_eq!(c.get_props(), Some(7));
    assert!(lookup(&tree, &["a", "x"]).is_none());
}

#[test]
fn add_ignores_empty_and_current_components() {
    let mut tree = Tree::new();
    assert!(tree.add_path("//a/./b/", dir(true), 1).is_ok());
    let b = lookup(&tree, &["a", "b"]).unwrap();
    assert_eq!(b.path_type(), dir(true));
    assert_eq!(b.get_props(), Some(1));
    assert_eq!(tree.root.entries.len(), 1);
}

#[test]
fn add_refuses_relative_path() {
    let mut tree: Tree<u32> = Tree::new();
    assert!(matches!(tree.add_path("a/b", file(), 1), Err(TreeError::RelativePath)));
    assert!(matches!(tree.add_path("", file(), 1), Err(TreeError::RelativePath)));
    assert!(tree.root.is_empty());
}

#[test]
fn add_refuses_root() {
    let mut tree: Tree<u32> = Tree::new();
    assert!(matches!(tree.add_path("/", dir(true), 1), Err(TreeError::EmptyPath)));
    assert!(matches!(tree.add_path("/./", dir(true), 1), Err(TreeError::EmptyPath)));
}

#[test]
fn add_refuses_parent_component() {
    let mut tree: Tree<u32> = Tree::new();
    match tree.add_path("/a/../b", file(), 1) {
        Err(TreeError::UnexpectedPathComponent(s)) => assert_eq!(s, "ParentDir"),
        other => panic!("unexpected {:?}", other.is_ok()),
    }
    assert!(tree.root.is_empty());
}

#[test]
fn add_refuses_path_below_file() {
    let mut tree = Tree::new();
    assert!(tree.add_path("/a", file(), 1).is_ok());
    assert!(matches!(tree.add_path("/a/b", file(), 2), Err(TreeError::ConflictingPathType)));
}

#[test]
fn add_refuses_other_type_at_dir() {
    let mut tree = Tree::new();
    assert!(tree.add_path("/a/b", file(), 1).is_ok());
    assert!(matches!(tree.add_path("/a", file(), 2), Err(TreeError::ConflictingPathType)));
    assert!(matches!(
        tree.add_path("/a/b", Entry::File(FileType::Symlink), 3),
        Err(TreeError::ConflictingPathType)
    ));
    assert!(matches!(tree.add_path("/a/b", dir(true), 3), Err(TreeError::ConflictingPathType)));
}

#[test]
fn add_refuses_dir_declared_twice() {
    let mut tree = Tree::new();
    assert!(tree.add_path("/a", dir(true), 1).is_ok());
    assert!(matches!(tree.add_path("/a", dir(true), 2), Err(TreeError::ExistingProps(1))));
    assert!(matches!(tree.add_path("/a", dir(false), 2), Err(TreeError::ExistingProps(1))));

    assert!(tree.add_path("/b", dir(false), 3).is_ok());
    assert!(matches!(tree.add_path("/b", dir(true), 4), Err(TreeError::ExistingProps(3))));
}

#[test]
fn owning_dir_over_intermediate_takes_props() {
    let mut tree = Tree::new();
    assert!(tree.add_path("/a/b", file(), 1).is_ok());
    assert!(tree.add_path("/a", dir(true), 2).is_ok());
    let a = lookup(&tree, &["a"]).unwrap();
    assert_eq!(a.path_type(), dir(true));
    assert_eq!(a.get_props(), Some(2));
    assert_eq!(lookup(&tree, &["a", "b"]).unwrap().get_props(), Some(1));
}

#[test]
fn non_owning_dir_over_intermediate_keeps_nothing() {
    let mut tree = Tree::new();
    assert!(tree.add_path("/a/b", file(), 1).is_ok());
    assert!(tree.add_path("/a", dir(false), 2).is_ok());
    let a = lookup(&tree, &["a"]).unwrap();
    assert_eq!(a.path_type(), dir(false));
    assert_eq!(a.get_props(), None);
    // Since nothing was recorded, it can be declared again.
    assert!(tree.add_path("/a", dir(true), 3).is_ok());
    assert_eq!(lookup(&tree, &["a"]).unwrap().get_props(), Some(3));
}

#[test]
fn add_path_unsupported_only_for_file_redeclared_with_same_type() {
    let mut tree = Tree::new();
    assert!(tree.add_path("/a/f", file(), 1).is_ok());
    assert!(tree.add_path_unsupported("/a/f", file()));
    assert!(!tree.add_path_unsupported("/a/f", Entry::File(FileType::Symlink)));
    assert!(!tree.add_path_unsupported("/a", dir(true)));
    assert!(!tree.add_path_unsupported("/a/g", file()));
    assert!(!tree.add_path_unsupported("relative", file()));
}

#[test]
fn dir_kind_props() {
    assert_eq!(DirKind::OwnsContents(5u32).get_props(), Some(5));
    assert_eq!(DirKind::Empty(Some(6u32)).get_props(), Some(6));
    assert_eq!(DirKind::<u32>::Empty(None).get_props(), None);
}

#[test]
fn children_position_and_get() {
    let mut tree = Tree::new();
    assert!(tree.add_path("/x", file(), 1).is_ok());
    assert!(tree.add_path("/y", file(), 2).is_ok());
    assert_eq!(tree.root.position("y"), Some(1));
    assert_eq!(tree.root.position("z"), None);
    assert_eq!(tree.root.get("x").unwrap().get_props(), Some(1));
    assert!(NodeChildren::<u32>::new().is_empty());
}

#[test]
fn children_are_kept_in_name_order() {
    let mut tree = Tree::new();
    assert!(tree.add_path("/b", file(), 1).is_ok());
    assert!(tree.add_path("/a/x", file(), 2).is_ok());
    assert!(tree.add_path("/c", file(), 3).is_ok());
    assert!(tree.add_path("/ab", file(), 4).is_ok());
    let names: Vec<&str> = tree.root.entries.iter().map(|(n, _)| n.as_str()).collect();
    assert_eq!(names, vec!["a", "ab", "b", "c"]);
}
