use std::ops::ControlFlow;

use gardener::declarative::{DirectoryProperties, Entry, FileType as DeclFileType, Owner, Properties, StorageClass};
use gardener::fs::unix::walker::{self, Visitor};
use gardener::fs::unix::FileType;
use gardener::fs::Entry as FsEntry;
use gardener::presentation::UntrackedPath;
use gardener::untracked::{ReportLine, SuggestError, UntrackedVisitor};

fn props(owner: Owner<'static>) -> Properties<'static> {
    Properties {
        owner,
        storage_class: StorageClass::Data,
    }
}

fn system(name: &'static str, enabled: bool) -> Owner<'static> {
    Owner::System { name, enabled }
}

fn user(name: &'static str, user: &'static str, enabled: bool) -> Owner<'static> {
    Owner::User {
        name,
        user,
        enabled,
    }
}

fn undeclared() -> Entry<Properties<'static>> {
    Entry {
        maybe_path_type: None,
        maybe_props: None,
    }
}

fn declared_dir(owns_contents: bool, owner: Owner<'static>) -> Entry<Properties<'static>> {
    Entry {
        maybe_path_type: Some(FsEntry::Dir(DirectoryProperties { owns_contents })),
        maybe_props: Some(props(owner)),
    }
}

fn declared_file(owner: Owner<'static>) -> Entry<Properties<'static>> {
    Entry {
        maybe_path_type: Some(FsEntry::File(DeclFileType::Regular)),
        maybe_props: Some(props(owner)),
    }
}

fn inherited(owner: Owner<'static>) -> Entry<Properties<'static>> {
    Entry {
        maybe_path_type: None,
        maybe_props: Some(props(owner)),
    }
}

fn paths(list: &[UntrackedPath<String>]) -> Vec<String> {
    list.iter().map(|u| u.to_string()).collect()
}

#[test]
fn undeclared_entries_are_untracked() {
    let mut visitor = UntrackedVisitor::new();
    assert!(visitor.visit_directory("/srv", undeclared()).is_break());
    visitor.visit_file_entry("/notes", FileType::Regular, undeclared());
    assert_eq!(paths(visitor.untracked()), vec!["d /srv", "f /notes"]);
    assert!(visitor.tracked_by_disabled_module().is_empty());
    assert!(visitor.take_mismatching().is_empty());
}

#[test]
fn enabled_dirs_descend_unless_owning() {
    let mut visitor = UntrackedVisitor::new();
    let owner = system("base", true);
    assert!(visitor.visit_directory("/etc", declared_dir(false, owner)).is_continue());
    assert!(visitor.visit_directory("/var/lib/x", declared_dir(true, owner)).is_break());
    visitor.visit_file_entry("/etc/hosts", FileType::Regular, declared_file(owner));
    visitor.visit_file_entry("/var/lib/x/inner", FileType::Regular, inherited(owner));
    assert!(visitor.untracked().is_empty());
    assert!(visitor.tracked_by_disabled_module().is_empty());
}

#[test]
fn disabled_modules_are_grouped_by_owner_in_order() {
    let mut visitor = UntrackedVisitor::new();
    let b = system("b", false);
    let a = system("a", false);
    let u = user("shell", "alice", false);
    visitor.visit_file_entry("/u1", FileType::Regular, declared_file(u));
    visitor.visit_file_entry("/b1", FileType::Regular, declared_file(b));
    assert!(visitor.visit_directory("/a1", declared_dir(true, a)).is_break());
    visitor.visit_file_entry("/b2", FileType::Symlink, inherited(b));

    let groups = visitor.tracked_by_disabled_module();
    let owners: Vec<Owner> = groups.iter().map(|g| g.0).collect();
    assert_eq!(owners, vec![a, b, u]);
    assert_eq!(paths(&groups[0].1), vec!["d /a1"]);
    assert_eq!(paths(&groups[1].1), vec!["f /b1", "l /b2"]);
    assert_eq!(paths(&groups[2].1), vec!["f /u1"]);
}

#[test]
fn mismatching_types_are_reported() {
    let mut visitor = UntrackedVisitor::new();
    let owner = system("base", true);
    assert!(visitor.visit_directory("/etc/file-expected", declared_file(owner)).is_break());
    visitor.visit_file_entry("/dir-expected", FileType::Regular, declared_dir(true, owner));
    let mismatching = visitor.take_mismatching();
    assert_eq!(mismatching.len(), 2);
    assert_eq!(mismatching[0].maybe_owner, Some(owner));
    assert_eq!(mismatching[0].path, "/etc/file-expected");
    assert_eq!(mismatching[0].expected, FsEntry::File(FileType::Regular));
    assert_eq!(mismatching[0].found, FsEntry::Dir(()));
    assert_eq!(mismatching[1].path, "/dir-expected");
    assert_eq!(mismatching[1].expected, FsEntry::Dir(()));
    assert_eq!(mismatching[1].found, FsEntry::File(FileType::Regular));
    assert!(visitor.take_mismatching().is_empty());
    // A mismatch of an enabled module is not untracked.
    assert!(visitor.untracked().is_empty());
}

#[test]
fn check_path_continues_only_for_enabled_matching_entries() {
    let mut visitor = UntrackedVisitor::new();
    let dir: walker::PathType = FsEntry::Dir(());
    assert!(visitor
        .check_path("/ok", dir, declared_dir(false, system("m", true)))
        .is_continue());
    assert!(visitor
        .check_path("/off", dir, declared_dir(false, system("m", false)))
        .is_break());
    assert!(visitor.check_path("/none", dir, undeclared()).is_break());
    assert_eq!(paths(visitor.untracked()), vec!["d /none"]);
    assert_eq!(visitor.tracked_by_disabled_module().len(), 1);
}

#[test]
fn visitor_trait_goes_through_the_same_decisions() {
    let mut visitor = UntrackedVisitor::new();
    assert_eq!(
        Visitor::visit_dir(&mut visitor, "/x", undeclared(), true),
        ControlFlow::Break(())
    );
    Visitor::visit_file(&mut visitor, "/y", FileType::Fifo, undeclared(), 3);
    assert_eq!(paths(visitor.untracked()), vec!["d /x", "p /y"]);
}

#[test]
fn suggested_config_lists_disabled_modules() {
    let mut visitor = UntrackedVisitor::new();
    visitor.visit_file_entry("/1", FileType::Regular, declared_file(user("vim", "bob", false)));
    visitor.visit_file_entry("/2", FileType::Regular, declared_file(system("nginx", false)));
    visitor.visit_file_entry("/3", FileType::Regular, declared_file(user("git", "alice", false)));
    visitor.visit_file_entry("/4", FileType::Regular, declared_file(user("emacs", "bob", false)));
    visitor.visit_file_entry("/5", FileType::Regular, declared_file(system("cron", false)));

    let suggestion = visitor.suggested_config().unwrap();
    assert_eq!(suggestion.system_modules, vec!["cron", "nginx"]);
    assert_eq!(
        suggestion.user_modules,
        vec![("alice", vec!["git"]), ("bob", vec!["emacs", "vim"])]
    );
}

#[test]
fn suggested_config_refuses_adhoc_and_enabled_owners() {
    let mut visitor = UntrackedVisitor::new();
    visitor.visit_file_entry(
        "/adhoc",
        FileType::Regular,
        declared_file(Owner::AdhocSystem { name: "x" }),
    );
    // An ad hoc owner is always enabled, so nothing is reported.
    assert!(visitor.tracked_by_disabled_module().is_empty());

    // An undeclared entry that inherits properties of an enabled module is
    // grouped under that module.
    assert!(visitor
        .check_path("/inside", FsEntry::Dir(()), inherited(system("on", true)))
        .is_break());
    assert!(matches!(visitor.suggested_config(), Err(SuggestError::EnabledModule)));

    let mut adhoc = UntrackedVisitor::new();
    assert!(adhoc
        .check_path("/inside", FsEntry::Dir(()), inherited(Owner::AdhocSystem { name: "x" }))
        .is_break());
    assert!(matches!(adhoc.suggested_config(), Err(SuggestError::AdhocOwner)));
}

#[test]
fn untracked_path_lines() {
    let dir = UntrackedPath::new("/a".to_owned(), FsEntry::Dir(()));
    assert_eq!(dir.to_string(), "d /a");
    let other = UntrackedPath::new("/b".to_owned(), FsEntry::File(FileType::Other(())));
    assert_eq!(other.to_string(), "? /b");
    let dev = UntrackedPath::new("/c".to_owned(), FsEntry::File(FileType::BlockDevice));
    assert_eq!(dev.to_string(), "b /c");
}

fn line_text(line: &ReportLine) -> String {
    match line {
        ReportLine::Text(text) => text.clone(),
        ReportLine::OwnerHeading(owner) => format!("  {:?}", owner),
    }
}

#[test]
fn report_lines_list_both_parts() {
    let mut visitor = UntrackedVisitor::new();
    visitor.visit_file_entry("/notes", FileType::Regular, undeclared());
    visitor.visit_file_entry("/b1", FileType::Regular, declared_file(system("b", false)));
    assert!(visitor.visit_directory("/a1", declared_dir(true, system("a", false))).is_break());
    let lines: Vec<String> = visitor.report_lines().iter().map(line_text).collect();
    assert_eq!(
        lines,
        vec![
            "Untracked paths:",
            "  f /notes",
            "",
            "Tracked by disabled modules:",
            "  System { name: \"a\", enabled: false }",
            "    d /a1",
            "  System { name: \"b\", enabled: false }",
            "    f /b1",
        ]
    );
    assert!(UntrackedVisitor::new().report_lines().is_empty());
}

#[test]
fn suggestion_lines_are_nix() {
    let mut visitor = UntrackedVisitor::new();
    visitor.visit_file_entry("/1", FileType::Regular, declared_file(user("vim", "bob", false)));
    visitor.visit_file_entry("/2", FileType::Regular, declared_file(system("nginx", false)));
    visitor.visit_file_entry("/3", FileType::Regular, declared_file(user("git", "bob", false)));
    let lines = visitor.suggested_config().unwrap().lines();
    assert_eq!(
        lines,
        vec![
            "services.gardener = {",
            "  enabledModules = {",
            "    nginx = true;",
            "  };",
            "  users = {",
            "    bob = {",
            "      modules = {",
            "        git = true;",
            "        vim = true;",
            "      };",
            "    };",
            "  };",
            "};",
        ]
    );
}
