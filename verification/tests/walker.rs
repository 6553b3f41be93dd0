use std::ops::ControlFlow;

use gardener::decl::tree::util::TestTree;
use gardener::decl::tree::NodeChildren;
use gardener::declarative::{DirectoryProperties, Entry, FileType as DeclFileType, PathType};
use gardener::fs::unix::walker::{self, declare_entry, descend, props_for_children};
use gardener::fs::unix::FileType;
use gardener::fs::{self as gfs, TypeChar};
use Fake::{Dir, File};

/// An entry of an in-memory file system: a directory with its entries in
/// the order a listing gives them, or a regular file.
enum Fake {
    Dir(&'static str, Vec<Fake>),
    File(&'static str),
}

#[derive(Debug, PartialEq)]
struct Visit {
    path: String,
    dir_with_declared_children: Option<bool>,
    declared: Entry<&'static str>,
}

fn visit(path: &str, dir: Option<bool>) -> Visit {
    Visit {
        path: path.to_owned(),
        dir_with_declared_children: dir,
        declared: Entry {
            maybe_path_type: None,
            maybe_props: None,
        },
    }
}

impl Visit {
    fn declared_dir(mut self, owns_contents: bool) -> Self {
        self.declared.maybe_path_type = Some(gfs::Entry::Dir(DirectoryProperties { owns_contents }));
        self
    }

    fn declared_file(mut self) -> Self {
        self.declared.maybe_path_type = Some(gfs::Entry::File(DeclFileType::Regular));
        self
    }

    fn props(mut self, props: &'static str) -> Self {
        self.declared.maybe_props = Some(props);
        self
    }
}

/// Walks `entries` below `dir` as the program walks a directory.
fn walk(
    dir: &str,
    entries: &[Fake],
    maybe_children: Option<&NodeChildren<&'static str>>,
    inherited: Option<&'static str>,
    visits: &mut Vec<Visit>,
) {
    for entry in entries {
        match entry {
            Fake::Dir(name, below) => {
                let path = format!("{dir}/{name}");
                let (declared, children, has_declared_children) =
                    declare_entry(maybe_children, name, inherited);
                visits.push(Visit {
                    path: path.clone(),
                    dir_with_declared_children: Some(has_declared_children),
                    declared,
                });
                let handed_down = props_for_children(declared.maybe_path_type, declared.maybe_props);
                walk(&path, below, children, handed_down, visits);
            }
            Fake::File(name) => {
                let (declared, _, _) = declare_entry(maybe_children, name, inherited);
                visits.push(Visit {
                    path: format!("{dir}/{name}"),
                    dir_with_declared_children: None,
                    declared,
                });
            }
        }
    }
}

#[test]
fn walk_decisions_follow_the_tree() {
    let listing = vec![
        File("non-dir"),
        Dir("untracked", vec![File("untracked")]),
        Dir("conflicting-type-dir", vec![]),
        Dir(
            "non-owning",
            vec![File("untracked"), Dir("intermediate", vec![File("tracked")])],
        ),
        File("conflicting-type-file"),
        Dir(
            "owning",
            vec![Dir(
                "inside-dir",
                vec![Dir("nested-owning", vec![File("tracked")])],
            )],
        ),
    ];

    let mut test_tree = TestTree::<&str>::new();
    test_tree.dir("/conflicting-type-file", true, "conflicting");
    test_tree.file("/conflicting-type-dir", "conflicting");
    test_tree.dir("/non-owning", false, "non-owning");
    test_tree.file("/non-owning/intermediate/tracked", "non-owning");
    test_tree.dir("/owning", true, "owning");
    test_tree.dir("/owning/inside-dir/nested-owning", true, "nested-owning");
    test_tree.file("/non-dir/inside-non-dir", "inside-non-dir");

    let mut visits = Vec::new();
    walk("", &listing, Some(&test_tree.tree().root), None, &mut visits);

    assert_eq!(
        visits,
        vec![
            visit("/non-dir", None).declared_dir(false),
            visit("/untracked", Some(false)),
            visit("/untracked/untracked", None),
            visit("/conflicting-type-dir", Some(false))
                .declared_file()
                .props("conflicting"),
            visit("/non-owning", Some(true))
                .declared_dir(false)
                .props("non-owning"),
            visit("/non-owning/untracked", None),
            visit("/non-owning/intermediate", Some(true)).declared_dir(false),
            visit("/non-owning/intermediate/tracked", None)
                .declared_file()
                .props("non-owning"),
            visit("/conflicting-type-file", None)
                .declared_dir(true)
                .props("conflicting"),
            visit("/owning", Some(true)).declared_dir(true).props("owning"),
            visit("/owning/inside-dir", Some(true))
                .declared_dir(false)
                .props("owning"),
            visit("/owning/inside-dir/nested-owning", Some(false))
                .declared_dir(true)
                .props("nested-owning"),
            visit("/owning/inside-dir/nested-owning/tracked", None).props("nested-owning"),
        ]
    );
}

#[test]
fn props_handed_down_only_by_owning_dirs() {
    let owning: PathType = gfs::Entry::Dir(DirectoryProperties { owns_contents: true });
    let non_owning: PathType = gfs::Entry::Dir(DirectoryProperties { owns_contents: false });
    let file: PathType = gfs::Entry::File(DeclFileType::Regular);
    assert_eq!(props_for_children(Some(owning), Some(1)), Some(1));
    assert_eq!(props_for_children(Some(owning), None::<u8>), None);
    assert_eq!(props_for_children(Some(non_owning), Some(1)), None);
    assert_eq!(props_for_children(Some(file), Some(1)), None);
    assert_eq!(props_for_children(None, Some(1)), None);
}

#[test]
fn declare_entry_outside_tree_inherits() {
    let (declared, children, has) = declare_entry::<u8>(None, "x", Some(3));
    assert_eq!(declared.maybe_path_type, None);
    assert_eq!(declared.maybe_props, Some(3));
    assert!(children.is_none());
    assert!(!has);
}

#[test]
fn disk_type_matches_declared_type() {
    let on_disk_dir: walker::PathType = gfs::Entry::Dir(());
    let on_disk_file: walker::PathType = gfs::Entry::File(FileType::Regular);
    let declared_dir: PathType = gfs::Entry::Dir(DirectoryProperties { owns_contents: false });
    let declared_link: PathType = gfs::Entry::File(DeclFileType::Symlink);
    assert!(on_disk_dir.matches(Some(declared_dir)));
    assert!(!on_disk_file.matches(Some(declared_dir)));
    assert!(!on_disk_file.matches(Some(declared_link)));
    assert!(on_disk_file.matches(None));
    assert_eq!(
        walker::PathType::from_declarative_path_type(declared_link),
        gfs::Entry::File(FileType::Symlink)
    );
    assert!(on_disk_dir.same_as(&gfs::Entry::Dir(())));
    assert!(!on_disk_dir.same_as(&on_disk_file));
}

#[test]
fn type_chars() {
    assert_eq!(FileType::<()>::Regular.type_char(), 'f');
    assert_eq!(FileType::<()>::Symlink.type_char(), 'l');
    assert_eq!(FileType::<()>::Fifo.type_char(), 'p');
    assert_eq!(FileType::<()>::CharDevice.type_char(), 'c');
    assert_eq!(FileType::<()>::BlockDevice.type_char(), 'b');
    assert_eq!(FileType::Other(7u8).type_char(), '?');
    assert_eq!(FileType::Other(7u8).map_other(|x| x + 1), FileType::Other(8u8));
    let dir: walker::PathType = gfs::Entry::Dir(());
    assert_eq!(dir.type_char(), 'd');
    let file: walker::PathType = gfs::Entry::File(FileType::Fifo);
    assert_eq!(file.type_char(), 'p');
}

#[test]
fn entry_combinators() {
    let d: gfs::Entry<u8, char> = gfs::Entry::Dir(1);
    let f: gfs::Entry<u8, char> = gfs::Entry::File('x');
    assert_eq!(d.map_dir(|x| x + 1), gfs::Entry::Dir(2));
    assert_eq!(f.map_dir(|x| x + 1), gfs::Entry::File('x'));
    assert_eq!(d.map_dir_or(0, |x| x + 5), 6);
    assert_eq!(f.map_dir_or(0, |x| x + 5), 0);
    assert_eq!(f.map_file(|c| c == 'x'), gfs::Entry::File(true));
    assert_eq!(d.dir(), Some(1));
    assert_eq!(d.file(), None);
    assert_eq!(f.file(), Some('x'));
    assert_eq!(gfs::Entry::<u8, u8>::File(4).unwrap_either(), 4);
    assert_eq!(d.as_ref(), gfs::Entry::Dir(&1));
}

#[test]
fn descend_follows_the_visitor() {
    let owning: PathType = gfs::Entry::Dir(DirectoryProperties { owns_contents: true });
    let declared = Entry {
        maybe_path_type: Some(owning),
        maybe_props: Some(4u8),
    };
    let children = NodeChildren::<u8>::new();
    assert!(descend(ControlFlow::Break(()), declared, Some(&children)).is_none());
    let (below, props) = descend(ControlFlow::Continue(()), declared, Some(&children)).unwrap();
    assert!(below.unwrap().is_empty());
    assert_eq!(props, Some(4));
    let plain = Entry {
        maybe_path_type: None,
        maybe_props: Some(4u8),
    };
    assert!(matches!(
        descend(ControlFlow::Continue(()), plain, None),
        Some((None, None))
    ));
}
