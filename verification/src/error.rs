//! What can go wrong in a scan.

use vstd::prelude::*;

verus! {

/// What kind of I/O failed.
#[derive(Clone, Copy, Debug, PartialEq, Eq, Structural)]
pub enum IoKind {
    /// A file or a program does not exist.
    NotFound,
    /// The operation is not allowed.
    PermissionDenied,
    /// What was read is not what it should be, such as bytes that are no text.
    InvalidData,
    /// Anything else.
    Other,
}

/// An I/O error.
#[derive(Debug)]
pub struct IoError {
    pub kind: IoKind,
    pub message: String,
}

/// An error of the scanner.
#[derive(Debug)]
pub enum ScanError {
    /// A file could not be read or a program could not be run.
    Io(IoError),
    /// The AUR could not be reached, or answered with an error.
    Network(String),
    /// A package or a file does not exist.
    NotFound(String),
    /// The configuration does not allow the operation.
    Config(String),
}

/// The kinds of errors, and what they say.
pub enum ScanErrorView {
    Io(IoKind, Seq<char>),
    Network(Seq<char>),
    NotFound(Seq<char>),
    Config(Seq<char>),
}

impl View for ScanError {
    type V = ScanErrorView;

    open spec fn view(&self) -> ScanErrorView {
        match self {
            ScanError::Io(e) => ScanErrorView::Io(e.kind, e.message@),
            ScanError::Network(m) => ScanErrorView::Network(m@),
            ScanError::NotFound(m) => ScanErrorView::NotFound(m@),
            ScanError::Config(m) => ScanErrorView::Config(m@),
        }
    }
}

} // verus!
