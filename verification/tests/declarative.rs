use gardener::declarative::{DirectoryProperties, ExpectedPathType, FileType, Owner, PathType, StorageClass};
use gardener::fs::Entry;
use gardener::text::{str_eq, str_lt};

fn owners() -> Vec<Owner<'static>> {
    vec![
        Owner::AdhocSystem { name: "b" },
        Owner::AdhocSystem { name: "a" },
        Owner::AdhocUser { name: "a", user: "z" },
        Owner::AdhocUser { name: "a", user: "y" },
        Owner::System { name: "m", enabled: true },
        Owner::System { name: "m", enabled: false },
        Owner::System { name: "é", enabled: false },
        Owner::System { name: "mm", enabled: false },
        Owner::User { name: "m", user: "u", enabled: true },
        Owner::User { name: "m", user: "u", enabled: false },
        Owner::User { name: "m", user: "t", enabled: true },
        Owner::User { name: "", user: "t", enabled: true },
    ]
}

#[test]
fn precedes_orders_owners_as_their_ord() {
    for a in owners() {
        for b in owners() {
            assert_eq!(a.precedes(&b), a < b, "{:?} {:?}", a, b);
            assert_eq!(a.same(&b), a == b, "{:?} {:?}", a, b);
        }
    }
}

#[test]
fn enabled_owners() {
    assert!(Owner::AdhocSystem { name: "x" }.enabled());
    assert!(Owner::AdhocUser { name: "x", user: "u" }.enabled());
    assert!(Owner::System { name: "x", enabled: true }.enabled());
    assert!(!Owner::System { name: "x", enabled: false }.enabled());
    assert!(!Owner::User { name: "x", user: "u", enabled: false }.enabled());
}

#[test]
fn only_data_is_backed_up() {
    assert!(StorageClass::Data.should_backup());
    assert!(!StorageClass::Cache.should_backup());
    assert!(!StorageClass::Ephemeral.should_backup());
}

#[test]
fn expected_path_type_forgets_ownership() {
    let dir: PathType = Entry::Dir(DirectoryProperties { owns_contents: true });
    assert_eq!(dir.expected_path_type(), ExpectedPathType::Dir(()));
    let link: PathType = Entry::File(FileType::Symlink);
    assert_eq!(link.expected_path_type(), ExpectedPathType::File(FileType::Symlink));
}

#[test]
fn string_order_is_byte_order() {
    let words = ["", "a", "ab", "b", "B", "é", "z", "zz", "\u{10000}", "\u{ffff}"];
    for a in words {
        for b in words {
            assert_eq!(str_lt(a, b), a < b, "{:?} {:?}", a, b);
            assert_eq!(str_eq(a, b), a == b);
        }
    }
}
