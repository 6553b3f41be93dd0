//! Reports the files a backup keeps.
use vstd::prelude::*;

use crate::decl::{self, Props};
use crate::fs::unix::walker;

verus! {

/// Receives each file the backup keeps.
pub trait Reporter: Sized {
    /// The reporter after it is handed the file at `path` of kind
    /// `file_type`, `len` bytes long, with these properties.
    spec fn spec_report<'a>(
        self,
        path: &str,
        file_type: walker::FileType,
        len: u64,
        maybe_props: Option<Props<'a>>,
    ) -> Self;

    /// Takes the file at `path` (see `spec_report`).
    fn report_file<'a>(
        &mut self,
        path: &str,
        file_type: walker::FileType,
        len: u64,
        maybe_props: Option<Props<'a>>,
    )
        ensures
            *final(self) == old(self).spec_report(path, file_type, len, maybe_props),
    ;
}

/// Walks the file system for a backup, handing each kept file to its
/// reporter.
pub struct Visitor<R: Reporter> {
    reporter: R,
}

/// A path is backed up unless it is declared with a storage class other
/// than data.
pub open spec fn spec_backed_up(maybe_props: Option<Props>) -> bool {
    match maybe_props {
        Some(props) => props.storage_class == decl::StorageClass::Data,
        None => true,
    }
}

/// Whether a path with these properties is backed up (see
/// `spec_backed_up`).
pub fn backed_up(maybe_props: Option<Props>) -> (res: bool)
    ensures
        res == spec_backed_up(maybe_props),
{
    match maybe_props {
        Some(props) => props.storage_class.should_backup(),
        None => true,
    }
}

impl<R: Reporter> Visitor<R> {
    /// A visitor handing kept files to `reporter`.
    pub fn new(reporter: R) -> (res: Self)
        ensures
            res.reporter() == reporter,
    {
        Self { reporter }
    }

    /// The reporter.
    pub closed spec fn reporter(&self) -> R {
        self.reporter
    }

    /// Ends the walk, handing back the reporter.
    pub fn into_reporter(self) -> (res: R)
        ensures
            res == self.reporter(),
    {
        self.reporter
    }
}

impl<'a, R: Reporter> walker::Visitor<Props<'a>> for Visitor<R> {
    /// Descends into a directory with declared paths below it, or whose own
    /// contents are backed up.
    fn visit_dir(
        &mut self,
        _path: &str,
        declared: decl::Entry<Props<'a>>,
        has_declared_children: bool,
    ) -> (res: core::ops::ControlFlow<(), ()>)
        ensures
            res is Continue == (has_declared_children || spec_backed_up(declared.maybe_props)),
            *final(self) == *old(self),
    {
        if has_declared_children || backed_up(declared.maybe_props) {
            core::ops::ControlFlow::Continue(())
        } else {
            core::ops::ControlFlow::Break(())
        }
    }

    /// Hands a backed-up file to the reporter; other files are skipped.
    fn visit_file(
        &mut self,
        path: &str,
        file_type: walker::FileType,
        declared: decl::Entry<Props<'a>>,
        len: u64,
    )
        ensures
            !spec_backed_up(declared.maybe_props) ==> *final(self) == *old(self),
            spec_backed_up(declared.maybe_props) ==> final(self).reporter() == old(
                self,
            ).reporter().spec_report(path, file_type, len, declared.maybe_props),
    {
        if backed_up(declared.maybe_props) {
            self.reporter.report_file(path, file_type, len, declared.maybe_props);
        }
    }
}

} // verus!
