//! The closed set of failures a command reports, each with a kind tag and a
//! human-readable message.

use vstd::prelude::*;
use vstd::string::StringExecFns;
use crate::path::string_of;

verus! {

/// Why a command failed.
#[derive(Debug, Clone, PartialEq, Eq)]
pub enum CommandError {
    FileNotFound(String),
    InvalidFolder(String),
    AccessDenied(String),
    InvalidFileName(String),
    NotMarkdownFile,
    /// A failure of the file system, with the system's own description.
    IoError(String),
    DialogCancelled,
    UnsupportedFontFormat(String),
    /// The limit and the actual size, both in whole megabytes.
    FileTooLarge(u64, u64),
    PathError(String),
}

/// The decimal digit for `d`, which is below ten.
pub open spec fn digit(d: int) -> char {
    seq!['0', '1', '2', '3', '4', '5', '6', '7', '8', '9'][d]
}

/// The decimal representation of `n`, without leading zeros.
pub open spec fn decimal(n: nat) -> Seq<char>
    decreases n,
{
    if n < 10 {
        seq![digit(n as int)]
    } else {
        decimal(n / 10).push(digit((n % 10) as int))
    }
}

/// The tag that identifies each kind of failure on the wire.
pub open spec fn kind_text(e: CommandError) -> Seq<char> {
    match e {
        CommandError::FileNotFound(_) => "file_not_found"@,
        CommandError::InvalidFolder(_) => "invalid_folder"@,
        CommandError::AccessDenied(_) => "access_denied"@,
        CommandError::InvalidFileName(_) => "invalid_file_name"@,
        CommandError::NotMarkdownFile => "not_markdown_file"@,
        CommandError::IoError(_) => "io_error"@,
        CommandError::DialogCancelled => "dialog_cancelled"@,
        CommandError::UnsupportedFontFormat(_) => "unsupported_font_format"@,
        CommandError::FileTooLarge(_, _) => "file_too_large"@,
        CommandError::PathError(_) => "path_error"@,
    }
}

/// The message shown for each failure.
pub open spec fn message_text(e: CommandError) -> Seq<char> {
    match e {
        CommandError::FileNotFound(s) => "File not found: "@ + s@,
        CommandError::InvalidFolder(s) => "Invalid folder path: "@ + s@,
        CommandError::AccessDenied(s) => "Access denied: "@ + s@,
        CommandError::InvalidFileName(s) => "Invalid file name: "@ + s@,
        CommandError::NotMarkdownFile => "Only .md files are allowed"@,
        CommandError::IoError(s) => "IO error: "@ + s@,
        CommandError::DialogCancelled => "Dialog cancelled"@,
        CommandError::UnsupportedFontFormat(s) => "Unsupported font format: "@ + s@,
        CommandError::FileTooLarge(max, got) => "Font file too large: max "@ + decimal(max as nat)
            + "MB, got "@ + decimal(got as nat) + "MB"@,
        CommandError::PathError(s) => "Path error: "@ + s@,
    }
}

/// Appends the decimal digits of `n` to `r`.
pub fn push_decimal(r: &mut Vec<char>, n: u64)
    ensures
        final(r)@ == old(r)@ + decimal(n as nat),
    decreases n,
{
    let d = n % 10;
    let c = if d == 0 {
        '0'
    } else if d == 1 {
        '1'
    } else if d == 2 {
        '2'
    } else if d == 3 {
        '3'
    } else if d == 4 {
        '4'
    } else if d == 5 {
        '5'
    } else if d == 6 {
        '6'
    } else if d == 7 {
        '7'
    } else if d == 8 {
        '8'
    } else {
        '9'
    };
    assert(c == digit(d as int));
    if n >= 10 {
        push_decimal(r, n / 10);
    }
    r.push(c);
    assert(r@ =~= old(r)@ + decimal(n as nat));
}

impl CommandError {
    /// The tag that identifies this kind of failure.
    pub fn kind(&self) -> (r: &'static str)
        ensures
            r@ == kind_text(*self),
    {
        match self {
            CommandError::FileNotFound(_) => "file_not_found",
            CommandError::InvalidFolder(_) => "invalid_folder",
            CommandError::AccessDenied(_) => "access_denied",
            CommandError::InvalidFileName(_) => "invalid_file_name",
            CommandError::NotMarkdownFile => "not_markdown_file",
            CommandError::IoError(_) => "io_error",
            CommandError::DialogCancelled => "dialog_cancelled",
            CommandError::UnsupportedFontFormat(_) => "unsupported_font_format",
            CommandError::FileTooLarge(_, _) => "file_too_large",
            CommandError::PathError(_) => "path_error",
        }
    }

    /// The message shown for this failure.
    pub fn message(&self) -> (r: String)
        ensures
            r@ == message_text(*self),
    {
        match self {
            CommandError::FileNotFound(s) => "File not found: ".to_owned().concat(s.as_str()),
            CommandError::InvalidFolder(s) => "Invalid folder path: ".to_owned().concat(s.as_str()),
            CommandError::AccessDenied(s) => "Access denied: ".to_owned().concat(s.as_str()),
            CommandError::InvalidFileName(s) => "Invalid file name: ".to_owned().concat(s.as_str()),
            CommandError::NotMarkdownFile => "Only .md files are allowed".to_owned(),
            CommandError::IoError(s) => "IO error: ".to_owned().concat(s.as_str()),
            CommandError::DialogCancelled => "Dialog cancelled".to_owned(),
            CommandError::UnsupportedFontFormat(s) => "Unsupported font format: ".to_owned().concat(
                s.as_str(),
            ),
            CommandError::FileTooLarge(max, got) => {
                let mut a: Vec<char> = Vec::new();
                push_decimal(&mut a, *max);
                let mut b: Vec<char> = Vec::new();
                push_decimal(&mut b, *got);
                assert(a@ =~= decimal(*max as nat));
                assert(b@ =~= decimal(*got as nat));
                let sa = string_of(&a);
                let sb = string_of(&b);
                "Font file too large: max ".to_owned().concat(sa.as_str()).concat("MB, got ").concat(
                    sb.as_str(),
                ).concat("MB")
            },
            CommandError::PathError(s) => "Path error: ".to_owned().concat(s.as_str()),
        }
    }
}

} // verus!
