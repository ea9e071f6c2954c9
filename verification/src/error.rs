//! The library's error type.
use vstd::prelude::*;

use crate::text::{push_str, string_from_chars};

verus! {

/// Why a time value, a project or a file was refused.
#[derive(Debug, Clone, PartialEq, Eq)]
pub enum CutlineError {
    InvalidTime(String),
    InvalidProject(String),
    /// A file could not be read or written; the text is what the system said.
    Io(String),
    /// The project file is not valid TOML; the text is what the parser said.
    Toml(String),
    /// A path on disk is not valid UTF-8; the text is the path as shown.
    NonUtf8Path(String),
}

/// The kind of an error, without its text.
#[derive(Debug, Clone, Copy, PartialEq, Eq)]
pub enum ErrorKind {
    InvalidTime,
    InvalidProject,
    Io,
    Toml,
    NonUtf8Path,
}

impl View for CutlineError {
    type V = (ErrorKind, Seq<char>);

    open spec fn view(&self) -> (ErrorKind, Seq<char>) {
        match self {
            CutlineError::InvalidTime(s) => (ErrorKind::InvalidTime, s@),
            CutlineError::InvalidProject(s) => (ErrorKind::InvalidProject, s@),
            CutlineError::Io(s) => (ErrorKind::Io, s@),
            CutlineError::Toml(s) => (ErrorKind::Toml, s@),
            CutlineError::NonUtf8Path(s) => (ErrorKind::NonUtf8Path, s@),
        }
    }
}

pub type Result<T> = core::result::Result<T, CutlineError>;

/// The text an error is shown as.
pub open spec fn error_text(e: CutlineError) -> Seq<char> {
    match e {
        CutlineError::InvalidTime(s) => "invalid time value: "@ + s@,
        CutlineError::InvalidProject(s) => "invalid project: "@ + s@,
        CutlineError::Io(s) => s@,
        CutlineError::Toml(s) => s@,
        CutlineError::NonUtf8Path(s) => "path is not valid UTF-8: "@ + s@,
    }
}

impl CutlineError {
    /// The error as text, such as `invalid project: <reason>`.
    pub fn message(&self) -> (r: String)
        ensures
            r@ == error_text(*self),
    {
        let mut out: Vec<char> = Vec::new();
        match self {
            CutlineError::InvalidTime(s) => {
                push_str(&mut out, "invalid time value: ");
                push_str(&mut out, s.as_str());
            },
            CutlineError::InvalidProject(s) => {
                push_str(&mut out, "invalid project: ");
                push_str(&mut out, s.as_str());
            },
            CutlineError::Io(s) => {
                push_str(&mut out, s.as_str());
            },
            CutlineError::Toml(s) => {
                push_str(&mut out, s.as_str());
            },
            CutlineError::NonUtf8Path(s) => {
                push_str(&mut out, "path is not valid UTF-8: ");
                push_str(&mut out, s.as_str());
            },
        }
        string_from_chars(&out)
    }
}

} // verus!
