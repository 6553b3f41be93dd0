use gardener::config::{join, AvailableModules, Config, ConfigError, Module, Paths, UserConfig};
use gardener::decl::tmpfiles::{
    add_systemd_tmpfiles, add_tmpfiles_entries, directive_path_type, DirectiveKind, TmpfilesEntry,
    TmpfilesError,
};
use gardener::decl::tree::{Node, Tree, TreeError};
use gardener::declarative::{
    DirectoryProperties, FileType, Owner, PathType, Properties, StorageClass,
};
use gardener::fs::unix::walker;
use gardener::fs::unix::FileType as DiskFileType;
use gardener::fs::Entry;
use gardener::tracked_paths::tracked_problem;

fn strings(list: &[&str]) -> Vec<String> {
    list.iter().map(|s| s.to_string()).collect()
}

fn paths(directories: &[&str], files: &[&str], symlinks: &[&str]) -> Paths {
    Paths {
        directories: strings(directories),
        files: strings(files),
        symlinks: strings(symlinks),
    }
}

fn empty() -> Paths {
    paths(&[], &[], &[])
}

fn module(cache: Paths, data: Paths, ephemeral: Paths) -> Module {
    Module {
        cache,
        data,
        ephemeral,
    }
}

fn owning() -> PathType {
    Entry::Dir(DirectoryProperties {
        owns_contents: true,
    })
}

fn sample() -> Config {
    Config {
        available_modules: AvailableModules {
            user: vec![(
                "shell".to_owned(),
                module(empty(), paths(&[], &[".bashrc"], &[]), empty()),
            )],
            system: vec![
                (
                    "base".to_owned(),
                    module(empty(), empty(), paths(&[], &[], &["/etc/localtime"])),
                ),
                (
                    "nginx".to_owned(),
                    module(
                        paths(&["/var/cache/nginx"], &[], &[]),
                        paths(&["/var/lib/nginx"], &["/etc/nginx.conf"], &[]),
                        empty(),
                    ),
                ),
            ],
        },
        enabled_modules: vec![("base".to_owned(), true), ("nginx".to_owned(), false)],
        users: vec![(
            "alice".to_owned(),
            UserConfig {
                adhoc: vec![(
                    "notes".to_owned(),
                    module(empty(), paths(&["notes"], &[], &[]), empty()),
                )],
                home: "/home/alice".to_owned(),
                modules: vec![("shell".to_owned(), true)],
            },
        )],
    }
}

fn lookup<'t, P: Copy>(tree: &'t Tree<P>, path: &[&str]) -> Option<&'t Node<P>> {
    let mut children = &tree.root;
    let mut found = None;
    for name in path {
        let node = children.get(name)?;
        found = Some(node);
        if let Some(c) = node.get_children() {
            children = c;
        }
    }
    found
}

#[test]
fn join_follows_path_join() {
    assert_eq!(join("/home/a", "x/y"), "/home/a/x/y");
    assert_eq!(join("/home/a/", "x"), "/home/a/x");
    assert_eq!(join("/home/a", "/etc/x"), "/etc/x");
    assert_eq!(join("/home/a", ""), "/home/a/");
    assert_eq!(join("", "x"), "x");
}

#[test]
fn paths_lists_users_then_system_modules() {
    let config = sample();
    let listed: Vec<(String, PathType, Properties)> = config.paths();
    let summary: Vec<(&str, PathType, Owner, StorageClass)> = listed
        .iter()
        .map(|(p, t, props)| (p.as_str(), *t, props.owner, props.storage_class))
        .collect();
    assert_eq!(
        summary,
        vec![
            (
                "/home/alice/notes",
                owning(),
                Owner::AdhocUser {
                    name: "notes",
                    user: "alice"
                },
                StorageClass::Data
            ),
            (
                "/home/alice/.bashrc",
                Entry::File(FileType::Regular),
                Owner::User {
                    name: "shell",
                    user: "alice",
                    enabled: true
                },
                StorageClass::Data
            ),
            (
                "/etc/localtime",
                Entry::File(FileType::Symlink),
                Owner::System {
                    name: "base",
                    enabled: true
                },
                StorageClass::Ephemeral
            ),
            (
                "/var/cache/nginx",
                owning(),
                Owner::System {
                    name: "nginx",
                    enabled: false
                },
                StorageClass::Cache
            ),
            (
                "/var/lib/nginx",
                owning(),
                Owner::System {
                    name: "nginx",
                    enabled: false
                },
                StorageClass::Data
            ),
            (
                "/etc/nginx.conf",
                Entry::File(FileType::Regular),
                Owner::System {
                    name: "nginx",
                    enabled: false
                },
                StorageClass::Data
            ),
        ]
    );
}

#[test]
fn tracked_paths_keeps_enabled_modules_only() {
    let config = sample();
    let kept = config.tracked_paths();
    let names: Vec<&str> = kept.iter().map(|(p, _, _)| p.as_str()).collect();
    assert_eq!(
        names,
        vec!["/home/alice/notes", "/home/alice/.bashrc", "/etc/localtime"]
    );
}

#[test]
fn to_tree_adds_config_then_tmpfiles() {
    let config = sample();
    let tmpfiles = "# comment\nd /var/lib/nginx 0755 - - -\nd /run/app 0755 root root -\nL /etc/mtab - - - - ../proc/self/mounts\nq /var/tmp 1777 root root 30d\n";
    let tree = config.to_tree(tmpfiles).unwrap();

    // Declared by the configuration: the tmpfiles line does not override.
    let nginx = lookup(&tree, &["var", "lib", "nginx"]).unwrap();
    assert_eq!(nginx.path_type(), owning());
    assert_eq!(
        nginx.get_props().unwrap().owner,
        Owner::System {
            name: "nginx",
            enabled: false
        }
    );

    let run_app = lookup(&tree, &["run", "app"]).unwrap();
    assert_eq!(
        run_app.path_type(),
        Entry::Dir(DirectoryProperties {
            owns_contents: false
        })
    );
    let props = run_app.get_props().unwrap();
    assert_eq!(
        props.owner,
        Owner::AdhocSystem {
            name: "systemd-tmpfiles"
        }
    );
    assert_eq!(props.storage_class, StorageClass::Ephemeral);

    let mtab = lookup(&tree, &["etc", "mtab"]).unwrap();
    assert_eq!(mtab.path_type(), Entry::File(FileType::Symlink));
    // `q` creates a subvolume.
    assert!(lookup(&tree, &["var", "tmp"]).is_some());
}

#[test]
fn to_tree_refuses_glob_paths() {
    let config = sample();
    match config.to_tree("w /sys/class/*/x - - - - 1\n") {
        Err(ConfigError::Tmpfiles(TmpfilesError::GlobPath(p))) => assert_eq!(p, "/sys/class/*/x"),
        other => panic!("unexpected: {:?}", other.map(|_| ())),
    }
}

#[test]
fn to_tree_refuses_unparsable_tmpfiles() {
    let config = sample();
    assert!(matches!(
        config.to_tree("J /foo - - - -\n"),
        Err(ConfigError::Tmpfiles(TmpfilesError::Parse(_)))
    ));
}

#[test]
fn to_tree_refuses_file_declared_again() {
    let config = sample();
    match config.to_tree("f /etc/nginx.conf 0644 root root -\n") {
        Err(ConfigError::Tmpfiles(TmpfilesError::DuplicateFile(p))) => {
            assert_eq!(p, "/etc/nginx.conf")
        }
        other => panic!("unexpected: {:?}", other.map(|_| ())),
    }
}

#[test]
fn to_tree_reports_conflicting_config_paths() {
    let mut config = sample();
    // base declares a file at /var/lib/nginx, then nginx declares a
    // directory there.
    config.enabled_modules = vec![("base".to_owned(), true), ("nginx".to_owned(), true)];
    config.available_modules.system[0].1.ephemeral = paths(&[], &["/var/lib/nginx"], &[]);
    match config.to_tree("") {
        Err(ConfigError::AddPath(p, TreeError::ConflictingPathType)) => {
            assert_eq!(p, "/var/lib/nginx")
        }
        other => panic!("unexpected: {:?}", other.map(|_| ())),
    }
}

#[test]
fn to_tree_reports_file_declared_twice_in_config() {
    let mut config = sample();
    config.available_modules.system[0].1.data = paths(&[], &["/etc/nginx.conf"], &[]);
    config.enabled_modules = vec![("base".to_owned(), true), ("nginx".to_owned(), true)];
    match config.to_tree("") {
        Err(ConfigError::DuplicateFile(p)) => assert_eq!(p, "/etc/nginx.conf"),
        other => panic!("unexpected: {:?}", other.map(|_| ())),
    }
}

#[test]
fn tmpfiles_entries_declare_by_directive() {
    let mut tree = Tree::new();
    let entries = vec![
        TmpfilesEntry {
            kind: DirectiveKind::CreateFifo,
            path: "/run/fifo".to_owned(),
            path_is_glob: false,
        },
        TmpfilesEntry {
            kind: DirectiveKind::Other,
            path: "/ignored/*".to_owned(),
            path_is_glob: true,
        },
        TmpfilesEntry {
            kind: DirectiveKind::CreateDirectory,
            path: "relative".to_owned(),
            path_is_glob: false,
        },
    ];
    match add_tmpfiles_entries(&mut tree, &entries) {
        Err(TmpfilesError::AddPath(p, TreeError::RelativePath)) => assert_eq!(p, "relative"),
        other => panic!("unexpected: {:?}", other.is_ok()),
    }
    assert_eq!(
        lookup(&tree, &["run", "fifo"]).unwrap().path_type(),
        Entry::File(FileType::Fifo)
    );
    assert!(lookup(&tree, &["ignored"]).is_none());
}

#[test]
fn tmpfiles_parse_goes_through_the_parser() {
    let mut tree = Tree::new();
    assert!(add_systemd_tmpfiles(&mut tree, "c /dev/x 0600 - - - 1:3\nb /dev/y 0600 - - - 8:0\np /run/f - - - -\n").is_ok());
    assert_eq!(
        lookup(&tree, &["dev", "x"]).unwrap().path_type(),
        Entry::File(FileType::CharDevice)
    );
    assert_eq!(
        lookup(&tree, &["dev", "y"]).unwrap().path_type(),
        Entry::File(FileType::BlockDevice)
    );
    assert_eq!(
        lookup(&tree, &["run", "f"]).unwrap().path_type(),
        Entry::File(FileType::Fifo)
    );
}

#[test]
fn directive_types() {
    assert_eq!(
        directive_path_type(DirectiveKind::WriteToFile),
        Some(Entry::File(FileType::Regular))
    );
    assert_eq!(
        directive_path_type(DirectiveKind::CreateSubvolume),
        Some(Entry::Dir(DirectoryProperties {
            owns_contents: false
        }))
    );
    assert_eq!(directive_path_type(DirectiveKind::Other), None);
}

#[test]
fn tracked_problem_messages() {
    let found_dir: walker::PathType = Entry::Dir(());
    let found_file: walker::PathType = Entry::File(DiskFileType::Regular);
    let found_link: walker::PathType = Entry::File(DiskFileType::Symlink);
    assert_eq!(tracked_problem(owning(), found_dir), None);
    assert_eq!(tracked_problem(owning(), found_file), Some("not a dir"));
    assert_eq!(tracked_problem(Entry::File(FileType::Regular), found_file), None);
    assert_eq!(
        tracked_problem(Entry::File(FileType::Regular), found_link),
        Some("not a file")
    );
    assert_eq!(tracked_problem(Entry::File(FileType::Symlink), found_link), None);
    assert_eq!(
        tracked_problem(Entry::File(FileType::Symlink), found_dir),
        Some("not a symlink")
    );
}

#[test]
fn modules_must_be_available() {
    let mut config = sample();
    assert!(config.modules_are_available());
    config.enabled_modules.push(("missing".to_owned(), false));
    assert!(!config.modules_are_available());

    let mut config = sample();
    config.users[0].1.modules.push(("missing".to_owned(), true));
    assert!(!config.modules_are_available());
}

#[test]
fn names_must_be_in_order() {
    let mut config = sample();
    assert!(config.names_in_order());
    config.available_modules.system.swap(0, 1);
    assert!(!config.names_in_order());

    let mut config = sample();
    config.users[0].1.modules.push(("shell".to_owned(), false));
    assert!(!config.names_in_order());
}
