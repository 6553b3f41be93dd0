//! What the configuration declares about a path: its type, which module
//! owns it, and how its data is to be kept.
use vstd::prelude::*;

use crate::text::{
    chars_lt, lemma_chars_lt_irreflexive, lemma_chars_lt_total, lemma_chars_lt_transitive, str_eq,
    str_lt,
};

verus! {

/// What is declared about one path as it is met on disk: its declared type
/// where the path itself is declared, and the properties that apply to it,
/// declared on it or inherited from a directory that owns its contents.
#[derive(Debug, Clone, Copy, PartialEq, Eq)]
pub struct Entry<P> {
    pub maybe_path_type: Option<PathType>,
    pub maybe_props: Option<P>,
}

/// The declared type of a path: a directory with its properties, or a file
/// of some kind.
pub type PathType = crate::fs::Entry<DirectoryProperties, FileType>;

/// A declared type without the directory's properties.
pub type ExpectedPathType = crate::fs::Entry<(), FileType>;

impl crate::fs::Entry<DirectoryProperties, FileType> {
    /// The declared type, forgetting whether a directory owns its contents.
    pub fn expected_path_type(self) -> (res: ExpectedPathType)
        ensures
            match self {
                crate::fs::Entry::Dir(_) => res == ExpectedPathType::Dir(()),
                crate::fs::Entry::File(file_type) => res == ExpectedPathType::File(file_type),
            },
    {
        match self {
            Self::Dir(_) => ExpectedPathType::Dir(()),
            Self::File(file_type) => ExpectedPathType::File(file_type),
        }
    }
}

/// Whether a declared directory owns everything below it, or only itself
/// (what lies below must then be declared on its own).
#[derive(Debug, Eq, PartialEq, Clone, Copy)]
pub struct DirectoryProperties {
    pub owns_contents: bool,
}

/// The kinds of non-directory paths a configuration can declare.
#[derive(Debug, Eq, PartialEq, Clone, Copy)]
pub enum FileType {
    Regular,
    Symlink,
    Fifo,
    CharDevice,
    BlockDevice,
}

/// How the data at a path is to be kept.
#[derive(Debug, Eq, PartialEq, Clone, Copy)]
pub enum StorageClass {
    Ephemeral,
    Cache,
    Data,
}

impl StorageClass {
    /// Only data is backed up; caches and ephemeral paths are not.
    pub fn should_backup(&self) -> (res: bool)
        ensures
            res == (*self == StorageClass::Data),
    {
        match self {
            Self::Data => true,
            _ => false,
        }
    }
}

/// Who declared a path, and how it is to be kept.
#[derive(Debug, Eq, PartialEq, Clone, Copy)]
pub struct Properties<'a> {
    pub owner: Owner<'a>,
    pub storage_class: StorageClass,
}

/// Properties with the owner's names as character sequences.
pub struct PropertiesView {
    pub owner: OwnerView,
    pub storage_class: StorageClass,
}

impl<'a> View for Properties<'a> {
    type V = PropertiesView;

    open spec fn view(&self) -> PropertiesView {
        PropertiesView { owner: self.owner@, storage_class: self.storage_class }
    }
}

/// The module that declares a path: an ad hoc declaration of the system or
/// of a user, or a named system or user module that may be disabled.
#[derive(Clone, Copy, Debug, PartialEq, Eq, PartialOrd, Ord)]
pub enum Owner<'a> {
    AdhocSystem { name: &'a str },
    AdhocUser { name: &'a str, user: &'a str },
    System { name: &'a str, enabled: bool },
    User { name: &'a str, user: &'a str, enabled: bool },
}

/// An owner with its names as character sequences.
pub enum OwnerView {
    AdhocSystem { name: Seq<char> },
    AdhocUser { name: Seq<char>, user: Seq<char> },
    System { name: Seq<char>, enabled: bool },
    User { name: Seq<char>, user: Seq<char>, enabled: bool },
}

impl<'a> View for Owner<'a> {
    type V = OwnerView;

    open spec fn view(&self) -> OwnerView {
        match *self {
            Owner::AdhocSystem { name } => OwnerView::AdhocSystem { name: name@ },
            Owner::AdhocUser { name, user } => OwnerView::AdhocUser { name: name@, user: user@ },
            Owner::System { name, enabled } => OwnerView::System { name: name@, enabled },
            Owner::User { name, user, enabled } => OwnerView::User {
                name: name@,
                user: user@,
                enabled,
            },
        }
    }
}

/// Ad hoc owners are always enabled; a module is enabled when the
/// configuration enables it.
pub open spec fn owner_enabled(owner: OwnerView) -> bool {
    match owner {
        OwnerView::AdhocSystem { .. } => true,
        OwnerView::AdhocUser { .. } => true,
        OwnerView::System { enabled, .. } => enabled,
        OwnerView::User { enabled, .. } => enabled,
    }
}

impl<'a> Owner<'a> {
    /// Whether the owner is enabled (see `owner_enabled`).
    pub fn enabled(&self) -> (res: bool)
        ensures
            res == owner_enabled(self@),
    {
        match self {
            Owner::AdhocSystem { .. } => true,
            Owner::AdhocUser { .. } => true,
            Owner::System { enabled, .. } => *enabled,
            Owner::User { enabled, .. } => *enabled,
        }
    }
}

/// The position of an owner's kind in the order of owners.
pub open spec fn owner_rank(owner: OwnerView) -> int {
    match owner {
        OwnerView::AdhocSystem { .. } => 0,
        OwnerView::AdhocUser { .. } => 1,
        OwnerView::System { .. } => 2,
        OwnerView::User { .. } => 3,
    }
}

/// The order of booleans: `false` first.
pub open spec fn bool_lt(a: bool, b: bool) -> bool {
    !a && b
}

/// The order of owners: by kind in the order of declaration, then by their
/// fields in order, names by `chars_lt`.
pub open spec fn owner_lt(a: OwnerView, b: OwnerView) -> bool {
    if owner_rank(a) != owner_rank(b) {
        owner_rank(a) < owner_rank(b)
    } else {
        match (a, b) {
            (OwnerView::AdhocSystem { name: n1 }, OwnerView::AdhocSystem { name: n2 }) => chars_lt(
                n1,
                n2,
            ),
            (
                OwnerView::AdhocUser { name: n1, user: u1 },
                OwnerView::AdhocUser { name: n2, user: u2 },
            ) => chars_lt(n1, n2) || (n1 == n2 && chars_lt(u1, u2)),
            (
                OwnerView::System { name: n1, enabled: e1 },
                OwnerView::System { name: n2, enabled: e2 },
            ) => chars_lt(n1, n2) || (n1 == n2 && bool_lt(e1, e2)),
            (
                OwnerView::User { name: n1, user: u1, enabled: e1 },
                OwnerView::User { name: n2, user: u2, enabled: e2 },
            ) => chars_lt(n1, n2) || (n1 == n2 && (chars_lt(u1, u2) || (u1 == u2 && bool_lt(
                e1,
                e2,
            )))),
            _ => false,
        }
    }
}

/// The name an owner holds.
pub open spec fn owner_name(owner: OwnerView) -> Seq<char> {
    match owner {
        OwnerView::AdhocSystem { name } => name,
        OwnerView::AdhocUser { name, .. } => name,
        OwnerView::System { name, .. } => name,
        OwnerView::User { name, .. } => name,
    }
}

/// The user an owner holds, empty where it has none.
pub open spec fn owner_user(owner: OwnerView) -> Seq<char> {
    match owner {
        OwnerView::AdhocUser { user, .. } => user,
        OwnerView::User { user, .. } => user,
        _ => seq![],
    }
}

/// No owner comes before itself.
pub proof fn lemma_owner_lt_irreflexive(a: OwnerView)
    ensures
        !owner_lt(a, a),
{
    lemma_chars_lt_irreflexive(owner_name(a));
    lemma_chars_lt_irreflexive(owner_user(a));
}

/// The order of owners is transitive.
pub proof fn lemma_owner_lt_transitive(a: OwnerView, b: OwnerView, c: OwnerView)
    requires
        owner_lt(a, b),
        owner_lt(b, c),
    ensures
        owner_lt(a, c),
{
    if owner_rank(a) == owner_rank(b) && owner_rank(b) == owner_rank(c) {
        let (n1, n2, n3) = (owner_name(a), owner_name(b), owner_name(c));
        let (u1, u2, u3) = (owner_user(a), owner_user(b), owner_user(c));
        if chars_lt(n1, n2) && chars_lt(n2, n3) {
            lemma_chars_lt_transitive(n1, n2, n3);
        }
        if chars_lt(u1, u2) && chars_lt(u2, u3) {
            lemma_chars_lt_transitive(u1, u2, u3);
        }
    }
}

/// Any two owners are the same or ordered one way.
pub proof fn lemma_owner_lt_total(a: OwnerView, b: OwnerView)
    ensures
        a == b || owner_lt(a, b) || owner_lt(b, a),
{
    lemma_chars_lt_total(owner_name(a), owner_name(b));
    lemma_chars_lt_total(owner_user(a), owner_user(b));
}

impl<'a> Owner<'a> {
    /// Whether both are the same owner.
    pub fn same(&self, other: &Owner<'_>) -> (res: bool)
        ensures
            res == (self@ == other@),
    {
        match (*self, *other) {
            (Owner::AdhocSystem { name: n1 }, Owner::AdhocSystem { name: n2 }) => str_eq(n1, n2),
            (Owner::AdhocUser { name: n1, user: u1 }, Owner::AdhocUser { name: n2, user: u2 }) => {
                str_eq(n1, n2) && str_eq(u1, u2)
            },
            (
                Owner::System { name: n1, enabled: e1 },
                Owner::System { name: n2, enabled: e2 },
            ) => str_eq(n1, n2) && e1 == e2,
            (
                Owner::User { name: n1, user: u1, enabled: e1 },
                Owner::User { name: n2, user: u2, enabled: e2 },
            ) => str_eq(n1, n2) && str_eq(u1, u2) && e1 == e2,
            _ => false,
        }
    }

    /// Whether this owner comes before `other` (see `owner_lt`).
    pub fn precedes(&self, other: &Owner<'_>) -> (res: bool)
        ensures
            res == owner_lt(self@, other@),
    {
        match (*self, *other) {
            (Owner::AdhocSystem { name: n1 }, Owner::AdhocSystem { name: n2 }) => str_lt(n1, n2),
            (Owner::AdhocUser { name: n1, user: u1 }, Owner::AdhocUser { name: n2, user: u2 }) => {
                str_lt(n1, n2) || (str_eq(n1, n2) && str_lt(u1, u2))
            },
            (
                Owner::System { name: n1, enabled: e1 },
                Owner::System { name: n2, enabled: e2 },
            ) => str_lt(n1, n2) || (str_eq(n1, n2) && !e1 && e2),
            (
                Owner::User { name: n1, user: u1, enabled: e1 },
                Owner::User { name: n2, user: u2, enabled: e2 },
            ) => str_lt(n1, n2) || (str_eq(n1, n2) && (str_lt(u1, u2) || (str_eq(u1, u2) && !e1
                && e2))),
            _ => self.rank() < other.rank(),
        }
    }

    /// The position of the owner's kind (see `owner_rank`).
    fn rank(&self) -> (res: u8)
        ensures
            res as int == owner_rank(self@),
    {
        match self {
            Owner::AdhocSystem { .. } => 0,
            Owner::AdhocUser { .. } => 1,
            Owner::System { .. } => 2,
            Owner::User { .. } => 3,
        }
    }
}

} // verus!
