//! Errors reported while reading a design file.
use vstd::prelude::*;

use crate::text::{push_str, to_string};

verus! {

/// Why a design file could not be read.
#[derive(Debug, Clone, PartialEq)]
pub enum ExtractError {
    /// The file extension names no supported format.
    UnsupportedFormat(String),
    /// The file is a macOS AppleDouble resource fork, not a design file.
    MacosResourceFork,
    /// The file's contents are not what its format requires.
    ParseError(String),
    /// A ZIP archive could not be read; the reader's own message.
    Zip(String),
    /// An archive expands beyond the size limit.
    DecompressionBomb,
}

/// The human-readable text of an error.
pub open spec fn error_text(e: ExtractError) -> Seq<char> {
    match e {
        ExtractError::UnsupportedFormat(f) => "unsupported file format: "@ + f@,
        ExtractError::MacosResourceFork =>
            "file appears to be a macOS resource fork (AppleDouble), not a valid PCB file"@,
        ExtractError::ParseError(m) => "parse error: "@ + m@,
        ExtractError::Zip(m) => "ZIP error: "@ + m@,
        ExtractError::DecompressionBomb =>
            "decompression bomb detected: decompressed content exceeds safe size limit"@,
    }
}

impl ExtractError {
    /// The human-readable text of the error.
    pub fn message(&self) -> (res: String)
        ensures
            res@ == error_text(*self),
    {
        match self {
            ExtractError::UnsupportedFormat(f) => {
                let mut s = to_string("unsupported file format: ");
                push_str(&mut s, f.as_str());
                s
            },
            ExtractError::MacosResourceFork => to_string(
                "file appears to be a macOS resource fork (AppleDouble), not a valid PCB file",
            ),
            ExtractError::ParseError(m) => {
                let mut s = to_string("parse error: ");
                push_str(&mut s, m.as_str());
                s
            },
            ExtractError::Zip(m) => {
                let mut s = to_string("ZIP error: ");
                push_str(&mut s, m.as_str());
                s
            },
            ExtractError::DecompressionBomb => to_string(
                "decompression bomb detected: decompressed content exceeds safe size limit",
            ),
        }
    }
}

} // verus!
