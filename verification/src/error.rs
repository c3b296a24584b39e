//! Error types
use crate::path::{normalize_path, spec_normalize_path};
use vstd::prelude::*;

verus! {

/// Top level error
#[derive(Debug)]
pub struct TxtppError;

impl TxtppError {
    /// What the error says.
    pub fn message(&self) -> (s: &'static str)
        ensures
            s@ == "Txtpp was unsuccessful! There might be error traces below."@,
    {
        "Txtpp was unsuccessful! There might be error traces below."
    }
}

/// What went wrong while a file was preprocessed.
#[derive(Debug, PartialEq, Eq, Clone, Copy, Structural)]
pub enum PpErrorKind {
    OpenFile,
    ReadFile,
    WriteFile,
    DeleteFile,
    VerifyOutput,
    Directive,
    Other,
}

/// Preprocessor error
#[derive(Debug)]
pub struct PpError {
    pub kind: PpErrorKind,
    pub file: String,
    pub line: usize,
}

/// A [`PpError`] as plain values.
pub struct PpErrorView {
    pub kind: PpErrorKind,
    pub file: Seq<char>,
    pub line: nat,
}

impl View for PpError {
    type V = PpErrorView;

    open spec fn view(&self) -> PpErrorView {
        PpErrorView { kind: self.kind, file: self.file@, line: self.line as nat }
    }
}

/// One decimal digit.
pub open spec fn spec_digit(d: nat) -> Seq<char> {
    if d == 0 {
        "0"@
    } else if d == 1 {
        "1"@
    } else if d == 2 {
        "2"@
    } else if d == 3 {
        "3"@
    } else if d == 4 {
        "4"@
    } else if d == 5 {
        "5"@
    } else if d == 6 {
        "6"@
    } else if d == 7 {
        "7"@
    } else if d == 8 {
        "8"@
    } else {
        "9"@
    }
}

/// A number in decimal digits.
pub open spec fn spec_decimal(n: nat) -> Seq<char>
    decreases n,
{
    if n < 10 {
        spec_digit(n)
    } else {
        spec_decimal(n / 10) + spec_digit(n % 10)
    }
}

/// One decimal digit.
fn digit(d: usize) -> (s: &'static str)
    requires
        d < 10,
    ensures
        s@ == spec_digit(d as nat),
{
    if d == 0 {
        "0"
    } else if d == 1 {
        "1"
    } else if d == 2 {
        "2"
    } else if d == 3 {
        "3"
    } else if d == 4 {
        "4"
    } else if d == 5 {
        "5"
    } else if d == 6 {
        "6"
    } else if d == 7 {
        "7"
    } else if d == 8 {
        "8"
    } else {
        "9"
    }
}

/// A number in decimal digits.
pub fn decimal(n: usize) -> (s: String)
    ensures
        s@ == spec_decimal(n as nat),
    decreases n,
{
    if n < 10 {
        String::from_str(digit(n))
    } else {
        let mut s = decimal(n / 10);
        s.append(digit(n % 10));
        s
    }
}

/// What went wrong, in words.
pub open spec fn spec_kind_text(kind: PpErrorKind) -> Seq<char> {
    match kind {
        PpErrorKind::OpenFile => "Could not open file"@,
        PpErrorKind::ReadFile => "Could not read file"@,
        PpErrorKind::WriteFile => "Could not write file"@,
        PpErrorKind::DeleteFile => "Could not remove file"@,
        PpErrorKind::VerifyOutput => "Output file not verified"@,
        PpErrorKind::Directive => "Error executing directive"@,
        PpErrorKind::Other => "Internal error"@,
    }
}

/// What a [`PpError`] says: what went wrong, then the file and the line.
pub open spec fn spec_pp_message(e: PpErrorView) -> Seq<char> {
    spec_kind_text(e.kind) + " at `"@ + e.file + "`:"@ + spec_decimal(e.line)
}

impl PpError {
    /// What the error says.
    pub fn message(&self) -> (s: String)
        ensures
            s@ == spec_pp_message(self@),
    {
        let text = match self.kind {
            PpErrorKind::OpenFile => "Could not open file",
            PpErrorKind::ReadFile => "Could not read file",
            PpErrorKind::WriteFile => "Could not write file",
            PpErrorKind::DeleteFile => "Could not remove file",
            PpErrorKind::VerifyOutput => "Output file not verified",
            PpErrorKind::Directive => "Error executing directive",
            PpErrorKind::Other => "Internal error",
        };
        let mut s = String::from_str(text);
        s.append(" at `");
        s.append(self.file.as_str());
        s.append("`:");
        s.append(decimal(self.line).as_str());
        s
    }
}

/// Error related to paths
#[derive(Debug)]
pub struct PathError {
    /// The path that caused the error, as a string
    pub path: String,
}

impl PathError {
    /// What the error says: it names the path as it is shown.
    pub fn message(&self) -> (s: String)
        ensures
            s@ == "Error in path `"@ + spec_normalize_path(self.path@) + "`"@,
    {
        let mut s = String::from_str("Error in path `");
        s.append(normalize_path(self.path.as_str()));
        s.append("`");
        s
    }
}

/// Error related to shell
#[derive(Debug, PartialEq, Eq, Clone, Copy, Structural)]
pub enum ShellError {
    ResolveError,
    ExecuteError,
}

impl ShellError {
    /// What the error says.
    pub fn message(&self) -> (s: &'static str)
        ensures
            s@ == match self {
                ShellError::ResolveError => "Error resolving shell executable"@,
                ShellError::ExecuteError => "Error executing shell"@,
            },
    {
        match self {
            ShellError::ResolveError => "Error resolving shell executable",
            ShellError::ExecuteError => "Error executing shell",
        }
    }
}

} // verus!
