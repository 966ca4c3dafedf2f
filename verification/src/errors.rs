//! The errors that the backend reports.

use vstd::prelude::*;

verus! {

/// A place in a source file.
#[derive(Debug, Copy, Clone, PartialEq, Eq, Structural)]
pub struct Pos {
    pub file: u32,
    pub start: u64,
    pub end: u64,
}

/// What went wrong.
#[derive(Debug, Clone, PartialEq, Eq)]
pub enum ErrorKind {
    /// The structure of the program is not one that can be processed.
    MalformedStructure(String),
    /// The output could not be written.
    WriteError(String),
}

/// An error, with the place in the program that it is about, where there is one.
#[derive(Debug, Clone, PartialEq, Eq)]
pub struct Error {
    pub kind: ErrorKind,
    pub pos: Option<Pos>,
}

/// What an error says.
pub enum ErrorView {
    MalformedStructure { msg: Seq<char>, pos: Option<Pos> },
    WriteError { msg: Seq<char>, pos: Option<Pos> },
}

impl View for Error {
    type V = ErrorView;

    open spec fn view(&self) -> ErrorView {
        match self.kind {
            ErrorKind::MalformedStructure(msg) => ErrorView::MalformedStructure {
                msg: msg@,
                pos: self.pos,
            },
            ErrorKind::WriteError(msg) => ErrorView::WriteError { msg: msg@, pos: self.pos },
        }
    }
}

/// The result of an operation that can fail.
pub type CalyxResult<T> = Result<T, Error>;

impl Error {
    pub fn malformed_structure(msg: String) -> (e: Error)
        ensures
            e@ == (ErrorView::MalformedStructure { msg: msg@, pos: None }),
    {
        Error { kind: ErrorKind::MalformedStructure(msg), pos: None }
    }

    pub fn write_error(msg: String) -> (e: Error)
        ensures
            e@ == (ErrorView::WriteError { msg: msg@, pos: None }),
    {
        Error { kind: ErrorKind::WriteError(msg), pos: None }
    }

    /// The error, about the place `pos`.
    pub fn with_pos(self, pos: Option<Pos>) -> (e: Error)
        ensures
            e@ == (match self@ {
                ErrorView::MalformedStructure { msg, .. } => ErrorView::MalformedStructure {
                    msg,
                    pos,
                },
                ErrorView::WriteError { msg, .. } => ErrorView::WriteError { msg, pos },
            }),
    {
        Error { kind: self.kind, pos }
    }

    /// The error for an output at `path` that could not be written.
    pub fn unwritable(path: &str) -> (e: Error)
        ensures
            e@ == (ErrorView::WriteError { msg: "File not found: "@ + path@, pos: None }),
    {
        let mut msg = "File not found: ".to_string();
        msg.append(path);
        Error::write_error(msg)
    }
}

} // verus!
