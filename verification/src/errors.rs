//! The failure taxonomy of a run, and the human-readable message of
//! each failure.

use vstd::prelude::*;
use vstd::string::*;

verus! {

/// Mathematical image of an [`Error`]: the same variants over plain
/// character sequences.
pub ghost enum ErrorView {
    /// Wrong number of arguments handed to the run.
    Argument,
    /// The filetype list could not be read; carries a detail text.
    FiletypeParse(Seq<char>),
    /// A directory's children could not be listed; carries the path.
    Enumeration(Seq<char>),
    /// A file's name, extension or modification time could not be
    /// resolved; carries the file name.
    Metadata(Seq<char>),
    /// A rename call failed; carries a detail text.
    Rename(Seq<char>),
    /// The failure log itself could not be written; carries a detail
    /// text.
    LogWrite(Seq<char>),
}

/// A fatal failure of a run.  The first error ends the run; renames
/// already performed are kept.
#[derive(Debug, PartialEq, Eq)]
pub enum Error {
    /// Wrong number of arguments handed to the run.
    Argument,
    /// The filetype list could not be read.
    FiletypeParse(String),
    /// A directory's children could not be listed.
    Enumeration(String),
    /// A file's name, extension or modification time could not be
    /// resolved.
    Metadata(String),
    /// A rename call failed.
    Rename(String),
    /// The failure log itself could not be written.
    LogWrite(String),
}

impl View for Error {
    type V = ErrorView;

    open spec fn view(&self) -> ErrorView {
        match self {
            Error::Argument => ErrorView::Argument,
            Error::FiletypeParse(d) => ErrorView::FiletypeParse(d@),
            Error::Enumeration(d) => ErrorView::Enumeration(d@),
            Error::Metadata(d) => ErrorView::Metadata(d@),
            Error::Rename(d) => ErrorView::Rename(d@),
            Error::LogWrite(d) => ErrorView::LogWrite(d@),
        }
    }
}

/// The message text that belongs to each failure.
pub open spec fn spec_message(e: ErrorView) -> Seq<char> {
    match e {
        ErrorView::Argument => "wrong number of arguments"@,
        ErrorView::FiletypeParse(d) => "list of filetypes could not be read: "@ + d,
        ErrorView::Enumeration(d) => "directory could not be listed: "@ + d,
        ErrorView::Metadata(d) => "file metadata could not be resolved: "@ + d,
        ErrorView::Rename(d) => "file could not be renamed: "@ + d,
        ErrorView::LogWrite(d) => "failure log could not be written: "@ + d,
    }
}

impl Error {
    /// The human-readable message of this failure.
    pub fn message(&self) -> (r: String)
        ensures
            r@ == spec_message(self@),
    {
        match self {
            Error::Argument => String::from_str("wrong number of arguments"),
            Error::FiletypeParse(d) => {
                let mut s = String::from_str("list of filetypes could not be read: ");
                s.append(d.as_str());
                s
            },
            Error::Enumeration(d) => {
                let mut s = String::from_str("directory could not be listed: ");
                s.append(d.as_str());
                s
            },
            Error::Metadata(d) => {
                let mut s = String::from_str("file metadata could not be resolved: ");
                s.append(d.as_str());
                s
            },
            Error::Rename(d) => {
                let mut s = String::from_str("file could not be renamed: ");
                s.append(d.as_str());
                s
            },
            Error::LogWrite(d) => {
                let mut s = String::from_str("failure log could not be written: ");
                s.append(d.as_str());
                s
            },
        }
    }
}

} // verus!
