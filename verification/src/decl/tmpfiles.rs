//! The paths that the systemd-tmpfiles configuration creates, declared as
//! ephemeral paths of the system.
use vstd::prelude::*;

use systemd_tmpfiles::parser::ParseError;
use systemd_tmpfiles::Directive;

use crate::decl::{self, FileType, Owner, PathType, Props};
use crate::decl::tree::{
    path_error_matches, spec_add, spec_add_path_unsupported, spec_path_components, Components, Info,
    TreeError,
};
use crate::decl::tree::laws::{
    law_tree_prefix_closed, lemma_add_prefix_closed, lemma_add_records_path, lemma_add_shape,
    prefix_closed,
};

verus! {

#[verifier::external_type_specification]
#[verifier::external_body]
pub struct ExParseError(ParseError);

/// The directives of systemd-tmpfiles that this library tells apart; all
/// others are `Other`.
#[derive(Debug, Clone, Copy, PartialEq, Eq)]
pub enum DirectiveKind {
    CreateFile,
    WriteToFile,
    CreateDirectory,
    CreateSubvolume,
    CreateFifo,
    CreateSymlink,
    CreateCharDeviceNode,
    CreateBlockDeviceNode,
    Other,
}

/// One line of the systemd-tmpfiles configuration: its directive, its
/// path, and whether the path is a glob.
pub struct TmpfilesEntry {
    pub kind: DirectiveKind,
    pub path: String,
    pub path_is_glob: bool,
}

impl View for TmpfilesEntry {
    type V = (DirectiveKind, Seq<char>, bool);

    open spec fn view(&self) -> (DirectiveKind, Seq<char>, bool) {
        (self.kind, self.path@, self.path_is_glob)
    }
}

/// What `systemd_tmpfiles::parser::parse_str` gives for a configuration
/// text: its lines in order, or nothing where the text does not parse.
pub uninterp spec fn spec_parse_tmpfiles(text: Seq<char>) -> Option<
    Seq<(DirectiveKind, Seq<char>, bool)>,
>;

/// Whether a path holds a character that makes it a glob.
pub open spec fn has_glob_char(path: Seq<char>) -> bool {
    exists|i: int| 0 <= i < path.len() && (path[i] == '*' || path[i] == '?' || path[i] == '[')
}

/// Parses a systemd-tmpfiles configuration with
/// `systemd_tmpfiles::parser::parse_str`, keeping of each line its
/// directive, its path and whether the path is a glob. The result is
/// named by `spec_parse_tmpfiles`; as the crate's source shows, only a
/// write directive, among those told apart, can have a glob path, which it
/// has exactly when the path holds `*`, `?` or `[`. What the parser accepts
/// and how it reads a line is not stated.
#[verifier::external_body]
fn parse_tmpfiles(text: &str) -> (res: Result<Vec<TmpfilesEntry>, ParseError>)
    ensures
        res is Ok <==> spec_parse_tmpfiles(text@) is Some,
        res matches Ok(entries) ==> entries@.map_values(|e: TmpfilesEntry| e@)
            == spec_parse_tmpfiles(text@)->Some_0,
        res matches Ok(entries) ==> forall|i: int|
            0 <= i < entries@.len() ==> {
                let e = #[trigger] entries@[i];
                &&& e.kind == DirectiveKind::WriteToFile ==> (e.path_is_glob <==> has_glob_char(
                    e.path@,
                ))
                &&& e.kind != DirectiveKind::WriteToFile && e.kind != DirectiveKind::Other
                    ==> !e.path_is_glob
            },
{
    Ok(systemd_tmpfiles::parser::parse_str(text)?.iter().map(|entry| TmpfilesEntry {
        kind: match entry.directive() {
            Directive::CreateFile { .. } => DirectiveKind::CreateFile,
            Directive::WriteToFile { .. } => DirectiveKind::WriteToFile,
            Directive::CreateDirectory { .. } => DirectiveKind::CreateDirectory,
            Directive::CreateSubvolume { .. } => DirectiveKind::CreateSubvolume,
            Directive::CreateFifo { .. } => DirectiveKind::CreateFifo,
            Directive::CreateSymlink { .. } => DirectiveKind::CreateSymlink,
            Directive::CreateCharDeviceNode { .. } => DirectiveKind::CreateCharDeviceNode,
            Directive::CreateBlockDeviceNode { .. } => DirectiveKind::CreateBlockDeviceNode,
            _ => DirectiveKind::Other,
        },
        path: entry.path().to_string(), path_is_glob: entry.path_is_glob(),
    }).collect())
}

/// The declared type of the path a directive creates: symlinks, regular
/// files, fifos and device nodes, and directories (also subvolumes) that
/// own only themselves; nothing for directives that create nothing.
pub open spec fn spec_directive_path_type(kind: DirectiveKind) -> Option<PathType> {
    match kind {
        DirectiveKind::CreateSymlink => Some(PathType::File(FileType::Symlink)),
        DirectiveKind::CreateFile => Some(PathType::File(FileType::Regular)),
        DirectiveKind::WriteToFile => Some(PathType::File(FileType::Regular)),
        DirectiveKind::CreateFifo => Some(PathType::File(FileType::Fifo)),
        DirectiveKind::CreateCharDeviceNode => Some(PathType::File(FileType::CharDevice)),
        DirectiveKind::CreateBlockDeviceNode => Some(PathType::File(FileType::BlockDevice)),
        DirectiveKind::CreateDirectory => Some(
            PathType::Dir(decl::DirProps { owns_contents: false }),
        ),
        DirectiveKind::CreateSubvolume => Some(
            PathType::Dir(decl::DirProps { owns_contents: false }),
        ),
        DirectiveKind::Other => None,
    }
}

/// The declared type of the path a directive creates (see
/// `spec_directive_path_type`).
pub fn directive_path_type(kind: DirectiveKind) -> (res: Option<PathType>)
    ensures
        res == spec_directive_path_type(kind),
{
    match kind {
        DirectiveKind::CreateSymlink => Some(PathType::File(FileType::Symlink)),
        DirectiveKind::CreateFile | DirectiveKind::WriteToFile => Some(
            PathType::File(FileType::Regular),
        ),
        DirectiveKind::CreateFifo => Some(PathType::File(FileType::Fifo)),
        DirectiveKind::CreateCharDeviceNode => Some(PathType::File(FileType::CharDevice)),
        DirectiveKind::CreateBlockDeviceNode => Some(PathType::File(FileType::BlockDevice)),
        DirectiveKind::CreateDirectory | DirectiveKind::CreateSubvolume => Some(
            PathType::Dir(decl::DirProps { owns_contents: false }),
        ),
        DirectiveKind::Other => None,
    }
}

/// Why the systemd-tmpfiles paths could not be declared.
#[derive(Debug)]
pub enum TmpfilesError<'a> {
    /// The configuration does not parse.
    Parse(ParseError),
    /// A line that creates a path names a glob.
    GlobPath(String),
    /// A line declares again a file declared before with the same type.
    DuplicateFile(String),
    /// The tree refused the path.
    AddPath(String, TreeError<Props<'a>>),
}

/// What the tree becomes when the line `entry` is declared: `None` where
/// declaring stops with an error. A directory declared before keeps its
/// properties, since declared paths come first and are not overridden.
pub open spec fn spec_tmpfiles_step<'a>(
    view: Map<Components, Info<Props<'a>>>,
    entry: (DirectiveKind, Seq<char>, bool),
    props: Props<'a>,
) -> Option<Map<Components, Info<Props<'a>>>> {
    let (kind, path, is_glob) = entry;
    match spec_directive_path_type(kind) {
        None => Some(view),
        Some(path_type) => if is_glob || spec_add_path_unsupported(view, path, path_type) {
            None
        } else {
            match spec_path_components(path) {
                Err(_) => None,
                Ok(comps) => match spec_add(view, comps, path_type, props) {
                    Ok(added) => Some(added),
                    Err(TreeError::ExistingProps(_)) => Some(view),
                    Err(_) => None,
                },
            }
        },
    }
}

/// The tree after declaring `entries` in order, and the position of the
/// line where declaring stopped, if it did.
pub open spec fn spec_tmpfiles_fold<'a>(
    view: Map<Components, Info<Props<'a>>>,
    entries: Seq<(DirectiveKind, Seq<char>, bool)>,
    props: Props<'a>,
) -> (Map<Components, Info<Props<'a>>>, Option<int>)
    decreases entries.len(),
{
    if entries.len() == 0 {
        (view, None)
    } else {
        let (before, stopped) = spec_tmpfiles_fold(view, entries.drop_last(), props);
        if stopped is Some {
            (before, stopped)
        } else {
            match spec_tmpfiles_step(before, entries.last(), props) {
                Some(after) => (after, None),
                None => (before, Some(entries.len() - 1)),
            }
        }
    }
}

/// Once declaring has stopped, the lines after make no difference.
proof fn lemma_fold_stays<'a>(
    view: Map<Components, Info<Props<'a>>>,
    entries: Seq<(DirectiveKind, Seq<char>, bool)>,
    props: Props<'a>,
    i: int,
    n: int,
)
    requires
        0 <= i < n <= entries.len(),
        spec_tmpfiles_fold(view, entries.take(i + 1), props).1 == Some(i),
    ensures
        spec_tmpfiles_fold(view, entries.take(n), props) == spec_tmpfiles_fold(
            view,
            entries.take(i + 1),
            props,
        ),
    decreases n,
{
    if n > i + 1 {
        lemma_fold_stays(view, entries, props, i, n - 1);
        assert(entries.take(n).drop_last() =~= entries.take(n - 1));
    }
}

/// Declaring one line keeps every path recorded before as it was, and
/// keeps every path on the way to a recorded path a recorded directory.
proof fn lemma_tmpfiles_step_keeps<'a>(
    view: Map<Components, Info<Props<'a>>>,
    entry: (DirectiveKind, Seq<char>, bool),
    props: Props<'a>,
)
    requires
        prefix_closed(view),
    ensures
        spec_tmpfiles_step(view, entry, props) matches Some(after) ==> {
            &&& prefix_closed(after)
            &&& forall|p: Components| #[trigger]
                view.contains_key(p) ==> after.contains_key(p) && after[p] == view[p]
        },
{
    let (kind, path, is_glob) = entry;
    if let Some(path_type) = spec_directive_path_type(kind) {
        if !is_glob && !spec_add_path_unsupported(view, path, path_type) {
            if let Ok(comps) = spec_path_components(path) {
                if spec_add(view, comps, path_type, props) is Ok {
                    lemma_add_records_path(view, comps, path_type, props);
                    lemma_add_shape(view, comps, path_type, props);
                    lemma_add_prefix_closed(view, comps, path_type, props);
                }
            }
        }
    }
}

/// Declaring lines keeps every path recorded before as it was.
pub proof fn lemma_tmpfiles_fold_keeps<'a>(
    view: Map<Components, Info<Props<'a>>>,
    entries: Seq<(DirectiveKind, Seq<char>, bool)>,
    props: Props<'a>,
)
    requires
        prefix_closed(view),
    ensures
        prefix_closed(spec_tmpfiles_fold(view, entries, props).0),
        forall|p: Components| #[trigger]
            view.contains_key(p) ==> spec_tmpfiles_fold(view, entries, props).0.contains_key(p)
                && spec_tmpfiles_fold(view, entries, props).0[p] == view[p],
    decreases entries.len(),
{
    if entries.len() > 0 {
        lemma_tmpfiles_fold_keeps(view, entries.drop_last(), props);
        let before = spec_tmpfiles_fold(view, entries.drop_last(), props).0;
        lemma_tmpfiles_step_keeps(before, entries.last(), props);
    }
}

/// The paths systemd-tmpfiles creates never override what was declared
/// before them: every path of the tree keeps exactly what it recorded,
/// whatever lines are declared.
pub proof fn law_tmpfiles_keep_declared<'a>(
    tree: decl::Tree<'a>,
    lines: Seq<(DirectiveKind, Seq<char>, bool)>,
)
    ensures
        forall|p: Components| #[trigger]
            tree@.contains_key(p) ==> spec_tmpfiles_fold(tree@, lines, tmpfiles_props()).0.contains_key(p)
                && spec_tmpfiles_fold(tree@, lines, tmpfiles_props()).0[p] == tree@[p],
{
    law_tree_prefix_closed(tree);
    lemma_tmpfiles_fold_keeps(tree@, lines, tmpfiles_props());
}

/// The error that stops declaring `entry` into a tree whose paths are
/// `view`.
pub open spec fn tmpfiles_error_matches<'a>(
    error: TmpfilesError<'a>,
    view: Map<Components, Info<Props<'a>>>,
    entry: (DirectiveKind, Seq<char>, bool),
    props: Props<'a>,
) -> bool {
    let (kind, path, is_glob) = entry;
    let path_type = spec_directive_path_type(kind)->Some_0;
    if is_glob {
        error matches TmpfilesError::GlobPath(p) && p@ == path
    } else if spec_add_path_unsupported(view, path, path_type) {
        error matches TmpfilesError::DuplicateFile(p) && p@ == path
    } else {
        error matches TmpfilesError::AddPath(p, e) && p@ == path && match spec_path_components(
            path,
        ) {
            Err(pe) => path_error_matches(e, pe),
            Ok(comps) => spec_add(view, comps, path_type, props) == Err::<
                Map<Components, Info<Props<'a>>>,
                TreeError<Props<'a>>,
            >(e),
        }
    }
}

/// The properties of the paths systemd-tmpfiles creates: ephemeral paths
/// of the ad hoc system owner `systemd-tmpfiles`.
pub open spec fn tmpfiles_props<'a>() -> Props<'a> {
    Props {
        owner: Owner::AdhocSystem { name: "systemd-tmpfiles" },
        storage_class: decl::StorageClass::Ephemeral,
    }
}

/// Declares the paths the lines create, as ephemeral paths of
/// systemd-tmpfiles (see `spec_tmpfiles_fold`); on an error, the lines
/// declared before it stay declared.
pub fn add_tmpfiles_entries<'a>(tree: &mut decl::Tree<'a>, entries: &Vec<TmpfilesEntry>) -> (res:
    Result<(), TmpfilesError<'a>>)
    ensures
        ({
            let (after, stopped) = spec_tmpfiles_fold(
                old(tree)@,
                entries@.map_values(|e: TmpfilesEntry| e@),
                tmpfiles_props(),
            );
            &&& final(tree)@ == after
            &&& res is Ok <==> stopped is None
            &&& res is Err ==> 0 <= stopped->Some_0 < entries@.len()
            &&& res matches Err(error) ==> tmpfiles_error_matches(
                error,
                after,
                entries@[stopped->Some_0]@,
                tmpfiles_props(),
            )
        }),
{
    let owner = Owner::AdhocSystem { name: "systemd-tmpfiles" };
    let props = Props { owner, storage_class: decl::StorageClass::Ephemeral };
    assert(props == tmpfiles_props());
    let ghost lines = entries@.map_values(|e: TmpfilesEntry| e@);
    let mut i: usize = 0;
    while i < entries.len()
        invariant
            0 <= i <= entries@.len(),
            lines == entries@.map_values(|e: TmpfilesEntry| e@),
            props == tmpfiles_props(),
            spec_tmpfiles_fold(old(tree)@, lines.take(i as int), props) == (tree@, None::<int>),
        decreases entries@.len() - i,
    {
        let entry = &entries[i];
        proof {
            assert(lines.take(i + 1).drop_last() =~= lines.take(i as int));
            assert(lines.take(i + 1).last() == entry@);
        }
        if let Some(path_type) = directive_path_type(entry.kind) {
            if entry.path_is_glob {
                proof {
                    lemma_fold_stays(old(tree)@, lines, props, i as int, lines.len() as int);
                    assert(lines.take(lines.len() as int) =~= lines);
                }
                return Err(TmpfilesError::GlobPath(entry.path.clone()));
            }
            if tree.add_path_unsupported(entry.path.as_str(), path_type) {
                proof {
                    lemma_fold_stays(old(tree)@, lines, props, i as int, lines.len() as int);
                    assert(lines.take(lines.len() as int) =~= lines);
                }
                return Err(TmpfilesError::DuplicateFile(entry.path.clone()));
            }
            match tree.add_path(entry.path.as_str(), path_type, props) {
                Ok(()) => {},
                Err(TreeError::ExistingProps(_existing_props)) => {
                    // systemd-tmpfiles are added after declared ones and should not
                    // override them
                },
                Err(e) => {
                    proof {
                    lemma_fold_stays(old(tree)@, lines, props, i as int, lines.len() as int);
                    assert(lines.take(lines.len() as int) =~= lines);
                }
                return Err(TmpfilesError::AddPath(entry.path.clone(), e));
                },
            }
        }
        i += 1;
    }
    assert(lines.take(i as int) =~= lines);
    Ok(())
}

/// Parses the systemd-tmpfiles configuration `config_text` and declares
/// the paths its lines create (see `add_tmpfiles_entries`); a text that
/// does not parse leaves the tree as it was.
pub fn add_systemd_tmpfiles<'a>(tree: &mut decl::Tree<'a>, config_text: &str) -> (res: Result<
    (),
    TmpfilesError<'a>,
>)
    ensures
        spec_parse_tmpfiles(config_text@) is None ==> (res matches Err(TmpfilesError::Parse(_))
            && final(tree)@ == old(tree)@),
        spec_parse_tmpfiles(config_text@) matches Some(lines) ==> ({
            let (after, stopped) = spec_tmpfiles_fold(old(tree)@, lines, tmpfiles_props());
            &&& final(tree)@ == after
            &&& res is Ok <==> stopped is None
            &&& res is Err ==> 0 <= stopped->Some_0 < lines.len()
            &&& res matches Err(error) ==> tmpfiles_error_matches(
                error,
                after,
                lines[stopped->Some_0],
                tmpfiles_props(),
            )
        }),
{
    let entries = match parse_tmpfiles(config_text) {
        Ok(entries) => entries,
        Err(e) => {
            return Err(TmpfilesError::Parse(e));
        },
    };
    proof {
        let lines = spec_parse_tmpfiles(config_text@)->Some_0;
        assert forall|k: int| 0 <= k < entries@.len() implies #[trigger] entries@[k]@ == lines[k] by {
            assert(entries@.map_values(|e: TmpfilesEntry| e@)[k] == entries@[k]@);
        }
    }
    add_tmpfiles_entries(tree, &entries)
}

} // verus!
