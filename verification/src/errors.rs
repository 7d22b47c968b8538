//! The ways in which a command can fail.

use vstd::prelude::*;
use vstd::string::StringExecFns;

verus! {

/// A failure, with the text that describes the instance.
#[derive(Debug)]
pub enum CliError {
    /// The snapshot could not be read.
    IoError(String),
    /// The snapshot is not in the one supported format; holds the file's name.
    UnsupportedFormat(String),
    /// The snapshot is malformed.
    JSONError(String),
    /// A script of the service could not be run or failed.
    CommandFailed(String),
    /// A page could not be opened in the browser.
    BrowserError(String),
    /// A filter could not be imported.
    ImportError(String),
    /// A filter could not be deleted.
    DeletionError(String),
}

/// The mathematical value of a `CliError`.
pub enum CliErrorView {
    IoError(Seq<char>),
    UnsupportedFormat(Seq<char>),
    JSONError(Seq<char>),
    CommandFailed(Seq<char>),
    BrowserError(Seq<char>),
    ImportError(Seq<char>),
    DeletionError(Seq<char>),
}

impl DeepView for CliError {
    type V = CliErrorView;

    open spec fn deep_view(&self) -> CliErrorView {
        match self {
            CliError::IoError(s) => CliErrorView::IoError(s@),
            CliError::UnsupportedFormat(s) => CliErrorView::UnsupportedFormat(s@),
            CliError::JSONError(s) => CliErrorView::JSONError(s@),
            CliError::CommandFailed(s) => CliErrorView::CommandFailed(s@),
            CliError::BrowserError(s) => CliErrorView::BrowserError(s@),
            CliError::ImportError(s) => CliErrorView::ImportError(s@),
            CliError::DeletionError(s) => CliErrorView::DeletionError(s@),
        }
    }
}

impl View for CliError {
    type V = CliErrorView;

    open spec fn view(&self) -> CliErrorView {
        self.deep_view()
    }
}

/// The line that reports a failure: what kind it is, then its text.
pub open spec fn error_message(e: CliErrorView) -> Seq<char> {
    match e {
        CliErrorView::IoError(s) => "File not found: "@ + s,
        CliErrorView::UnsupportedFormat(s) => "Unsupported file format: "@ + s,
        CliErrorView::JSONError(s) => "Failed to parse JSON: "@ + s,
        CliErrorView::CommandFailed(s) => "Command execution failed: "@ + s,
        CliErrorView::BrowserError(s) => "Failed to open URL: "@ + s,
        CliErrorView::ImportError(s) => "Filter import failed: "@ + s,
        CliErrorView::DeletionError(s) => "Filter deletion failed: "@ + s,
    }
}

impl CliError {
    /// The line that reports this failure.
    pub fn message(&self) -> (m: String)
        ensures
            m@ == error_message(self@),
    {
        match self {
            CliError::IoError(s) => String::from_str("File not found: ").concat(s.as_str()),
            CliError::UnsupportedFormat(s) => String::from_str("Unsupported file format: ").concat(
                s.as_str(),
            ),
            CliError::JSONError(s) => String::from_str("Failed to parse JSON: ").concat(
                s.as_str(),
            ),
            CliError::CommandFailed(s) => String::from_str("Command execution failed: ").concat(
                s.as_str(),
            ),
            CliError::BrowserError(s) => String::from_str("Failed to open URL: ").concat(
                s.as_str(),
            ),
            CliError::ImportError(s) => String::from_str("Filter import failed: ").concat(
                s.as_str(),
            ),
            CliError::DeletionError(s) => String::from_str("Filter deletion failed: ").concat(
                s.as_str(),
            ),
        }
    }
}

} // verus!
