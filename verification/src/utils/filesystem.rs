//! The one snapshot format that is read.

use vstd::prelude::*;
use crate::errors::{CliError, CliErrorView};
use crate::text::{compare_text, Comparison};

verus! {

/// The extension of the files that can be read.
pub open spec fn supported_extension() -> Seq<char> {
    "json"@
}

/// Accepts a snapshot by the extension of its file: `json` is read, every
/// other extension, and a file without one, is refused with the file's name.
pub fn check_format(filename: String, extension: Option<&str>) -> (result: Result<(), CliError>)
    ensures
        match extension {
            Some(ext) if ext@ == supported_extension() => result is Ok,
            _ => result matches Err(e) && e@ == CliErrorView::UnsupportedFormat(filename@),
        },
{
    match extension {
        Some(ext) => {
            if compare_text(ext, "json") == Comparison::Equal {
                Ok(())
            } else {
                Err(CliError::UnsupportedFormat(filename))
            }
        },
        None => Err(CliError::UnsupportedFormat(filename)),
    }
}

} // verus!
