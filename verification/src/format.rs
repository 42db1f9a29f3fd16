//! Telling an output format from a file path.

use vstd::prelude::*;
use vstd::string::*;

use crate::error::FlagError;
use crate::path::{chars_of, extension_range, file_name_range, path_extension, same_text, string_of};
use crate::types::{OutputFormat, format_extension};

verus! {

/// What `str::to_lowercase` returns for a string (Unicode lower-case mapping).
pub uninterp spec fn lowercase(s: Seq<char>) -> Seq<char>;

/// Whether every character of `s` is ASCII.
pub open spec fn is_ascii_text(s: Seq<char>) -> bool {
    forall|i: int| 0 <= i < s.len() ==> (#[trigger] s[i] as u32) < 128
}

/// The lower case of an ASCII character: `A`-`Z` become `a`-`z`, every
/// other character stays.
pub open spec fn ascii_lower(c: char) -> char {
    if 'A' <= c <= 'Z' {
        ((c as u32) + 32) as char
    } else {
        c
    }
}

/// `s` with `ascii_lower` applied to each character.
pub open spec fn ascii_lowercase(s: Seq<char>) -> Seq<char> {
    s.map_values(|c: char| ascii_lower(c))
}

/// Calls `str::to_lowercase`. Its result is named `lowercase`; the one fact
/// stated of it is that on ASCII text it maps `A`-`Z` to `a`-`z` and keeps
/// every other character (the Unicode lower-case mapping of ASCII).
#[verifier::external_body]
fn to_lowercase(s: &str) -> (r: String)
    ensures
        r@ == lowercase(s@),
        is_ascii_text(s@) ==> r@ == ascii_lowercase(s@),
{
    s.to_lowercase()
}

/// The format named by a lower-case extension, if it is one of the supported ones.
pub open spec fn format_for_extension(ext: Seq<char>) -> Option<OutputFormat> {
    if ext == "png"@ {
        Some(OutputFormat::Png)
    } else if ext == "jpg"@ || ext == "jpeg"@ {
        Some(OutputFormat::Jpeg)
    } else if ext == "webp"@ {
        Some(OutputFormat::WebP)
    } else {
        None
    }
}

/// The message of the error for an unsupported (lower-cased) extension.
pub open spec fn unsupported_extension_message(ext: Seq<char>) -> Seq<char> {
    "Unsupported file extension: ."@ + ext
}

/// The message of the error for a path without an extension.
pub open spec fn missing_extension_message(path: Seq<char>) -> Seq<char> {
    "No file extension in path: "@ + path
}

/// `r` is the outcome of detecting a format from the lower-cased extension `ext`.
pub open spec fn detected_from_extension(r: Result<OutputFormat, FlagError>, ext: Seq<char>) -> bool {
    match format_for_extension(ext) {
        Some(f) => r == Ok::<OutputFormat, FlagError>(f),
        None => r matches Err(FlagError::FormatDetection(msg)) && msg@ == unsupported_extension_message(ext),
    }
}

/// `r` is the outcome of detecting a format from the path `path`.
pub open spec fn detected_from_path(r: Result<OutputFormat, FlagError>, path: Seq<char>) -> bool {
    match path_extension(path) {
        Some(ext) => detected_from_extension(r, lowercase(ext)),
        None => r matches Err(FlagError::FormatDetection(msg)) && msg@ == missing_extension_message(path),
    }
}

impl OutputFormat {
    /// The format named by an already lower-cased file extension: `png`,
    /// `jpg` or `jpeg`, `webp`; any other extension is a format-detection error.
    pub fn from_extension(ext: &str) -> (r: Result<OutputFormat, FlagError>)
        ensures
            detected_from_extension(r, ext@),
    {
        let e = String::from_str(ext);
        if same_text(&e, "png") {
            Ok(OutputFormat::Png)
        } else if same_text(&e, "jpg") || same_text(&e, "jpeg") {
            Ok(OutputFormat::Jpeg)
        } else if same_text(&e, "webp") {
            Ok(OutputFormat::WebP)
        } else {
            let mut msg = String::from_str("Unsupported file extension: .");
            msg.append(ext);
            Err(FlagError::FormatDetection(msg))
        }
    }

    /// Determines the output format from the extension of a file path,
    /// compared without regard to case.
    pub fn from_path(path: &str) -> (r: Result<OutputFormat, FlagError>)
        ensures
            detected_from_path(r, path@),
            path_extension(path@) matches Some(ext) ==> (is_ascii_text(ext) ==> detected_from_extension(r, ascii_lowercase(ext))),
    {
        let v = chars_of(path);
        match file_name_range(&v) {
            Some((lo, hi)) => match extension_range(&v, lo, hi) {
                Some(start) => {
                    let ext = string_of(&v, start, hi);
                    let lower = to_lowercase(ext.as_str());
                    return OutputFormat::from_extension(lower.as_str());
                },
                None => {},
            },
            None => {},
        }
        let mut msg = String::from_str("No file extension in path: ");
        msg.append(path);
        Err(FlagError::FormatDetection(msg))
    }
}

/// A format's own file extension is a lower-case word that names that format.
pub proof fn extension_names_its_format(f: OutputFormat)
    ensures
        is_ascii_text(format_extension(f)),
        ascii_lowercase(format_extension(f)) == format_extension(f),
        format_for_extension(format_extension(f)) == Some(f),
{
    reveal_strlit("png");
    reveal_strlit("jpg");
    reveal_strlit("jpeg");
    reveal_strlit("webp");
    assert("jpg"@[0] != "png"@[0]);
    assert("webp"@[0] != "jpeg"@[0]);
}

} // verus!
