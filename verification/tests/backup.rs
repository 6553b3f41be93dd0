use gardener::backup::exclude_visitor;
use gardener::backup::file_visitor;
use gardener::backup::file_visitor::Reporter;
use gardener::backup::{size_report, SizeReporter};
use gardener::decl::tree::util::TestTree;
use gardener::declarative::{Entry, Owner, Properties, StorageClass};
use gardener::fs::unix::walker::{self, Visitor};
use gardener::fs::unix::FileType;
use Backup::{Exclude, Include};

#[test]
fn borg_exclude() {
    let mut test_tree = TestTree::new();

    test_tree.dir("/backup", true, Include);
    test_tree.dir("/backup/backup", true, Include);
    test_tree.dir("/backup/exclude", true, Exclude);
    test_tree.dir("/exclude", true, Exclude);
    test_tree.dir("/exclude/backup", true, Include);
    test_tree.dir("/exclude/exclude", true, Exclude);
    test_tree.dir("/exclude-non-owning", false, Exclude);
    test_tree.dir("/exclude-non-owning/backup", true, Include);
    test_tree.dir("/exclude-non-owning/exclude", true, Exclude);
    test_tree.dir("/backup-non-owning", false, Include);
    test_tree.dir("/backup-non-owning/backup", true, Include);
    test_tree.dir("/backup-non-owning/exclude", true, Exclude);
}

#[derive(Clone, Copy, Debug)]
enum Backup {
    Include,
    Exclude,
}

fn props(storage_class: StorageClass) -> Properties<'static> {
    Properties {
        owner: Owner::System {
            name: "module",
            enabled: true,
        },
        storage_class,
    }
}

fn declared(maybe_props: Option<Properties<'static>>) -> Entry<Properties<'static>> {
    Entry {
        maybe_path_type: None,
        maybe_props,
    }
}

#[test]
fn size_report_formats_binary_units() {
    assert_eq!(size_report(0), "Backup size: 0 B");
    assert_eq!(size_report(1024), "Backup size: 1 KiB");
    assert_eq!(size_report(1536), "Backup size: 1.50 KiB");
}

#[test]
fn size_reporter_adds_lengths() {
    let mut reporter = SizeReporter::new();
    reporter.report_file("/a", FileType::Regular, 10, None);
    reporter.report_file("/b", FileType::Regular, 32, Some(props(StorageClass::Data)));
    assert_eq!(reporter.size, 42);
}

#[test]
fn size_reporter_wraps_past_max() {
    let mut reporter = SizeReporter::new();
    reporter.report_file("/a", FileType::Regular, u64::MAX, None);
    reporter.report_file("/b", FileType::Regular, 2, None);
    assert_eq!(reporter.size, 1);
}

#[test]
fn file_visitor_reports_only_backed_up_files() {
    let mut visitor = file_visitor::Visitor::new(SizeReporter::new());
    visitor.visit_file("/data", FileType::Regular, declared(Some(props(StorageClass::Data))), 5);
    visitor.visit_file("/cache", FileType::Regular, declared(Some(props(StorageClass::Cache))), 7);
    visitor.visit_file(
        "/ephemeral",
        FileType::Regular,
        declared(Some(props(StorageClass::Ephemeral))),
        11,
    );
    visitor.visit_file("/undeclared", FileType::Regular, declared(None), 13);
    assert_eq!(visitor.into_reporter().size, 18);
}

#[test]
fn file_visitor_descends_into_backed_up_or_declared_dirs() {
    let mut visitor = file_visitor::Visitor::new(SizeReporter::new());
    assert!(visitor
        .visit_dir("/cache", declared(Some(props(StorageClass::Cache))), false)
        .is_break());
    assert!(visitor
        .visit_dir("/cache", declared(Some(props(StorageClass::Cache))), true)
        .is_continue());
    assert!(visitor.visit_dir("/none", declared(None), false).is_continue());
    assert!(visitor
        .visit_dir("/data", declared(Some(props(StorageClass::Data))), false)
        .is_continue());
}

struct Excluded(Vec<(String, walker::PathType)>);

impl exclude_visitor::Reporter for Excluded {
    fn spec_exclude(mut self, path: &str, path_type: walker::PathType) -> Self {
        self.0.push((path.to_owned(), path_type));
        self
    }

    fn exclude(&mut self, path: &str, path_type: walker::PathType) {
        self.0.push((path.to_owned(), path_type));
    }
}

#[test]
fn exclude_visitor_leaves_out_caches() {
    let mut visitor = exclude_visitor::Visitor::new(Excluded(Vec::new()));
    let cache = declared(Some(props(StorageClass::Cache)));
    assert!(visitor.visit_directory("/cache", cache, false).is_break());
    assert!(visitor.visit_directory("/cache-with-data", cache, true).is_continue());
    visitor.visit_file_entry("/cache-file", FileType::Regular, cache);
    visitor.visit_file_entry("/data-file", FileType::Regular, declared(Some(props(StorageClass::Data))));
    let mismatched = Entry {
        maybe_path_type: Some(gardener::declarative::PathType::Dir(
            gardener::declarative::DirectoryProperties {
                owns_contents: true,
            },
        )),
        maybe_props: Some(props(StorageClass::Cache)),
    };
    visitor.visit_file_entry("/not-a-dir", FileType::Regular, mismatched);
    let excluded = visitor.into_reporter().0;
    assert_eq!(
        excluded,
        vec![
            ("/cache".to_owned(), walker::PathType::Dir(())),
            ("/cache-file".to_owned(), walker::PathType::File(FileType::Regular)),
        ]
    );
}

#[test]
fn exclude_decisions_look_below() {
    let cache = declared(Some(props(StorageClass::Cache)));
    let data = declared(Some(props(StorageClass::Data)));
    assert!(exclude_visitor::looks_below(cache, true));
    assert!(!exclude_visitor::looks_below(cache, false));
    let declared_file = Entry {
        maybe_path_type: Some(gardener::declarative::PathType::File(
            gardener::declarative::FileType::Regular,
        )),
        maybe_props: Some(props(StorageClass::Cache)),
    };
    assert!(!exclude_visitor::looks_below(declared_file, true));

    // A cache directory is kept only where something below it is.
    assert!(!exclude_visitor::dir_kept(cache, false));
    assert!(exclude_visitor::dir_kept(cache, true));
    assert!(exclude_visitor::dir_kept(data, false));
    // A directory where a file is declared is kept whole.
    assert!(exclude_visitor::dir_kept(declared_file, false));

    assert!(!exclude_visitor::file_kept(FileType::Regular, cache));
    assert!(exclude_visitor::file_kept(FileType::Regular, data));
    assert!(exclude_visitor::file_kept(FileType::Regular, declared(None)));

    // A cache directory with nothing kept below it is left out whole.
    let mut visitor = exclude_visitor::Visitor::new(Excluded(Vec::new()));
    assert!(visitor.visit_directory("/cache", cache, false).is_break());
    assert_eq!(visitor.into_reporter().0.len(), 1);
}
