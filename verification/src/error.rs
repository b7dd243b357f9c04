//! The failures that documentation generation can end in.

use vstd::prelude::*;
use vstd::string::*;
use crate::text::push_text;

verus! {

/// Why a run produced no documentation. Every failure is fatal for the run:
/// there is no partial output.
#[derive(Debug, PartialEq, Eq)]
pub enum LaibraryError {
    /// A source file could not be parsed, or a declared module has no file.
    Parse(String),
    /// A chain of re-exports never reaches a declaration.
    ReExportCycle(String),
    /// No analyser is registered for the requested language.
    UnsupportedLanguage(String),
    /// A namespace could not be rendered.
    Formatting(String),
}

/// The kind of a [`LaibraryError`], without its text.
#[derive(Debug, Clone, Copy, PartialEq, Eq, Structural)]
pub enum ErrorKind {
    Parse,
    ReExportCycle,
    UnsupportedLanguage,
    Formatting,
}

impl LaibraryError {
    /// The detail carried by the error: a path, a module, a language name.
    pub open spec fn detail(&self) -> Seq<char> {
        match self {
            LaibraryError::Parse(d) => d@,
            LaibraryError::ReExportCycle(d) => d@,
            LaibraryError::UnsupportedLanguage(d) => d@,
            LaibraryError::Formatting(d) => d@,
        }
    }

    /// The kind of the error as a specification value.
    pub open spec fn spec_kind(&self) -> ErrorKind {
        match self {
            LaibraryError::Parse(_) => ErrorKind::Parse,
            LaibraryError::ReExportCycle(_) => ErrorKind::ReExportCycle,
            LaibraryError::UnsupportedLanguage(_) => ErrorKind::UnsupportedLanguage,
            LaibraryError::Formatting(_) => ErrorKind::Formatting,
        }
    }

    /// The heading that [`LaibraryError::message`] puts before the detail.
    pub open spec fn heading(kind: ErrorKind) -> Seq<char> {
        match kind {
            ErrorKind::Parse => "Failed to parse source file: "@,
            ErrorKind::ReExportCycle => "Re-export never reaches a declaration: "@,
            ErrorKind::UnsupportedLanguage => "Unsupported language: "@,
            ErrorKind::Formatting => "Failed to format namespace: "@,
        }
    }

    /// The kind of the error.
    pub fn kind(&self) -> (kind: ErrorKind)
        ensures
            kind == self.spec_kind(),
    {
        match self {
            LaibraryError::Parse(_) => ErrorKind::Parse,
            LaibraryError::ReExportCycle(_) => ErrorKind::ReExportCycle,
            LaibraryError::UnsupportedLanguage(_) => ErrorKind::UnsupportedLanguage,
            LaibraryError::Formatting(_) => ErrorKind::Formatting,
        }
    }

    /// A one-line description for the user: the heading of the kind, then the
    /// detail.
    pub fn message(&self) -> (text: String)
        ensures
            text@ == Self::heading(self.spec_kind()) + self.detail(),
    {
        let mut text = String::new();
        match self {
            LaibraryError::Parse(d) => {
                push_text(&mut text, "Failed to parse source file: ");
                push_text(&mut text, d.as_str());
            },
            LaibraryError::ReExportCycle(d) => {
                push_text(&mut text, "Re-export never reaches a declaration: ");
                push_text(&mut text, d.as_str());
            },
            LaibraryError::UnsupportedLanguage(d) => {
                push_text(&mut text, "Unsupported language: ");
                push_text(&mut text, d.as_str());
            },
            LaibraryError::Formatting(d) => {
                push_text(&mut text, "Failed to format namespace: ");
                push_text(&mut text, d.as_str());
            },
        }
        text
    }
}

} // verus!
