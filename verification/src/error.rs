//! Errors of the catalog core.

use vstd::prelude::*;

verus! {

/// The mathematical shape of an [`Error`].
pub enum ErrorView {
    DirectoryUnreadable { path: Seq<char>, cause: Seq<char> },
    CouldNotDetermineConfigLocation(Seq<Seq<char>>),
}

/// What can go wrong while the tool runs.
#[derive(Debug)]
pub enum Error {
    /// A directory could not be opened or read while scanning; `path` names
    /// the offending directory and `cause` carries the underlying report.
    /// This aborts the whole scan: no partial catalog is ever returned.
    DirectoryUnreadable { path: String, cause: String },
    /// No usable location for the configuration directory was found; the
    /// payload lists the locations that were tried.
    CouldNotDetermineConfigLocation(Vec<String>),
}

impl View for Error {
    type V = ErrorView;

    open spec fn view(&self) -> ErrorView {
        match self {
            Error::DirectoryUnreadable { path, cause } => ErrorView::DirectoryUnreadable {
                path: path@,
                cause: cause@,
            },
            Error::CouldNotDetermineConfigLocation(tried) => {
                ErrorView::CouldNotDetermineConfigLocation(tried.deep_view())
            },
        }
    }
}

impl Error {
    /// The path of the directory an unreadable-directory error points at.
    pub fn unreadable_path(&self) -> (r: Option<&String>)
        ensures
            match self@ {
                ErrorView::DirectoryUnreadable { path, .. } => {
                    &&& r is Some
                    &&& r->0@ == path
                },
                _ => r is None,
            },
    {
        match self {
            Error::DirectoryUnreadable { path, .. } => Some(path),
            _ => None,
        }
    }
}

} // verus!
