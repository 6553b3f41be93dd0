//! Reports the paths a backup leaves out.
use vstd::prelude::*;

use crate::decl::{self, Props};
use crate::fs;
use crate::fs::unix::walker;
use crate::backup::file_visitor::{backed_up, spec_backed_up};

verus! {

/// Receives each path the backup leaves out.
pub trait Reporter: Sized {
    /// The reporter after it is handed `path`, of type `path_type`.
    spec fn spec_exclude(self, path: &str, path_type: walker::PathType) -> Self;

    /// Takes the left-out `path` (see `spec_exclude`).
    fn exclude(&mut self, path: &str, path_type: walker::PathType)
        ensures
            *final(self) == old(self).spec_exclude(path, path_type),
    ;
}

/// Walks the file system for a backup, handing each left-out path to its
/// reporter.
pub struct Visitor<R: Reporter> {
    reporter: R,
}

/// Whether an entry of type `path_type` is backed up: an entry of another
/// type than declared always is; otherwise its properties decide.
pub open spec fn spec_keeps(path_type: walker::PathType, declared: decl::Entry<Props>) -> bool {
    let matches_declared = match declared.maybe_path_type {
        Some(declared_path_type) => walker::spec_from_declarative_path_type(declared_path_type)
            == path_type,
        None => true,
    };
    !matches_declared || spec_backed_up(declared.maybe_props)
}

/// A non-directory entry of the type it is declared with, or undeclared,
/// is left out of a backup exactly when the file visitor does not hand it
/// to its reporter.
pub proof fn law_excluded_iff_not_kept(file_type: walker::FileType, declared: decl::Entry<Props>)
    requires
        declared.maybe_path_type matches Some(t) ==> walker::spec_from_declarative_path_type(t)
            == fs::Entry::<(), walker::FileType>::File(file_type),
    ensures
        spec_keeps(fs::Entry::File(file_type), declared) == spec_backed_up(declared.maybe_props),
{
}

/// Whether a directory is of the type it is declared with.
pub open spec fn spec_matches_dir(declared: decl::Entry<Props>) -> bool {
    match declared.maybe_path_type {
        Some(t) => walker::spec_from_declarative_path_type(t) == fs::Entry::<
            (),
            walker::FileType,
        >::Dir(()),
        None => true,
    }
}

/// Whether a directory is looked below before it is decided on: where it
/// is of the type declared and declared paths lie below it.
pub fn looks_below(declared: decl::Entry<Props>, has_declared_children: bool) -> (res: bool)
    ensures
        res == (has_declared_children && spec_matches_dir(declared)),
{
    has_declared_children && fs::Entry::<(), walker::FileType>::Dir(()).matches(
        declared.maybe_path_type,
    )
}

/// Whether a directory is kept by a backup: where something below it is
/// kept (`has_backups_inside`, see `looks_below`), or where the directory
/// itself is.
pub open spec fn spec_dir_kept(declared: decl::Entry<Props>, has_backups_inside: bool) -> bool {
    has_backups_inside || spec_keeps(fs::Entry::Dir(()), declared)
}

/// Whether a directory is kept by a backup (see `spec_dir_kept`).
pub fn dir_kept(declared: decl::Entry<Props>, has_backups_inside: bool) -> (res: bool)
    ensures
        res == spec_dir_kept(declared, has_backups_inside),
        declared.maybe_props is None ==> res,
{
    let matches_declared = fs::Entry::<(), walker::FileType>::Dir(()).matches(
        declared.maybe_path_type,
    );
    has_backups_inside || !matches_declared || backed_up(declared.maybe_props)
}

/// Whether a non-directory entry is kept by a backup (see `spec_keeps`).
pub fn file_kept(file_type: walker::FileType, declared: decl::Entry<Props>) -> (res: bool)
    ensures
        res == spec_keeps(fs::Entry::File(file_type), declared),
        declared.maybe_props is None ==> res,
{
    let matches_declared = fs::Entry::<(), walker::FileType>::File(file_type).matches(
        declared.maybe_path_type,
    );
    !matches_declared || backed_up(declared.maybe_props)
}

/// An entry that carries no properties is always backed up: whatever its
/// type and whatever lies below it, nothing leaves it out.
pub proof fn law_unpropertied_kept(
    path_type: walker::PathType,
    declared: decl::Entry<Props>,
    has_backups_inside: bool,
)
    requires
        declared.maybe_props is None,
    ensures
        spec_keeps(path_type, declared),
        spec_dir_kept(declared, has_backups_inside),
{
}

impl<R: Reporter> Visitor<R> {
    /// A visitor handing left-out paths to `reporter`.
    pub fn new(reporter: R) -> (res: Self)
        ensures
            res.reporter() == reporter,
    {
        Self { reporter }
    }

    /// The reporter.
    pub closed spec fn reporter(&self) -> R {
        self.reporter
    }


    /// Ends the walk, handing back the reporter.
    pub fn into_reporter(self) -> (res: R)
        ensures
            res == self.reporter(),
    {
        self.reporter
    }

    /// Visits a directory, where `has_backups_inside` tells whether anything
    /// below it is kept; the walk looks below only where `looks_below`, and
    /// passes `false` elsewhere. A directory that is kept (see
    /// `spec_dir_kept`) is descended into; any other is left out whole.
    pub fn visit_directory(
        &mut self,
        path: &str,
        declared: decl::Entry<Props>,
        has_backups_inside: bool,
    ) -> (res: core::ops::ControlFlow<(), ()>)
        ensures
            res is Break <==> !has_backups_inside && !spec_keeps(fs::Entry::Dir(()), declared),
            res is Continue <==> spec_dir_kept(declared, has_backups_inside),
            res is Continue ==> *final(self) == *old(self),
            declared.maybe_props is None ==> res is Continue,
            res is Break ==> final(self).reporter() == old(self).reporter().spec_exclude(
                path,
                fs::Entry::Dir(()),
            ),
    {
        let path_type = fs::Entry::Dir(());
        let matches_declared = path_type.matches(declared.maybe_path_type);
        let should_backup_this = !matches_declared || backed_up(declared.maybe_props);

        if !matches_declared {
            core::ops::ControlFlow::Continue(())
        } else if !has_backups_inside && !should_backup_this {
            self.reporter.exclude(path, path_type);
            core::ops::ControlFlow::Break(())
        } else {
            core::ops::ControlFlow::Continue(())
        }
    }

    /// Visits a non-directory entry: one that is not backed up is left out.
    pub fn visit_file_entry(
        &mut self,
        path: &str,
        file_type: walker::FileType,
        declared: decl::Entry<Props>,
    )
        ensures
            spec_keeps(fs::Entry::File(file_type), declared) ==> *final(self) == *old(self),
            declared.maybe_props is None ==> *final(self) == *old(self),
            !spec_keeps(fs::Entry::File(file_type), declared) ==> final(self).reporter() == old(
                self,
            ).reporter().spec_exclude(path, fs::Entry::File(file_type)),
    {
        let path_type = fs::Entry::File(file_type);

        let matches_declared = path_type.matches(declared.maybe_path_type);

        let should_backup = !matches_declared || backed_up(declared.maybe_props);

        if !should_backup {
            self.reporter.exclude(path, path_type);
        }
    }
}

} // verus!
