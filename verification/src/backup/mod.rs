//! What a backup keeps: files not declared as cache or ephemeral.
pub mod exclude_visitor;
pub mod file_visitor;

use vstd::prelude::*;

use crate::decl::Props;
use crate::fs::unix::walker;

verus! {

/// What `humansize::format_size` gives for a byte count in binary units.
pub uninterp spec fn spec_format_size_binary(size: u64) -> Seq<char>;

/// Formats a byte count in binary units (KiB, MiB, ...) with
/// `humansize::format_size` and `humansize::BINARY`; the text is named by
/// `spec_format_size_binary`.
#[verifier::external_body]
fn format_size_binary(size: u64) -> (res: String)
    ensures
        res@ == spec_format_size_binary(size),
{
    humansize::format_size(size, humansize::BINARY)
}

/// The line that reports the size of a backup.
pub fn size_report(size: u64) -> (res: String)
    ensures
        res@ == "Backup size: "@ + spec_format_size_binary(size),
{
    let mut line = String::from_str("Backup size: ");
    line.append(format_size_binary(size).as_str());
    line
}

/// Adds up the lengths of the files reported.
pub struct SizeReporter {
    pub size: u64,
}

impl SizeReporter {
    /// Nothing counted yet.
    pub fn new() -> (res: Self)
        ensures
            res.size == 0,
    {
        Self { size: 0 }
    }
}

impl file_visitor::Reporter for SizeReporter {
    /// The length is added; a total past `u64::MAX` wraps around.
    open spec fn spec_report<'a>(
        self,
        path: &str,
        file_type: walker::FileType,
        len: u64,
        maybe_props: Option<Props<'a>>,
    ) -> Self {
        SizeReporter { size: ((self.size + len) % 0x1_0000_0000_0000_0000) as u64 }
    }

    /// Counts the file's length; a total past `u64::MAX` wraps around.
    fn report_file<'a>(
        &mut self,
        _path: &str,
        _file_type: walker::FileType,
        len: u64,
        _maybe_props: Option<Props<'a>>,
    )
        ensures
            final(self).size == (old(self).size + len) % 0x1_0000_0000_0000_0000,
    {
        self.size = self.size.wrapping_add(len);
    }
}

} // verus!
