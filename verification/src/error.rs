//! Errors of flag generation and their HTTP status.

use vstd::prelude::*;

use vstd::string::*;

use crate::text::{decimal, push_digits};
use crate::types::{OutputFormat, format_debug_name};

verus! {

/// The `image` crate's error type, carried through errors as an opaque value.
#[verifier::external_type_specification]
#[verifier::external_body]
pub struct ExImageError(image::ImageError);

/// Errors that can occur during flag generation.
#[derive(Debug)]
pub enum FlagError {
    /// The embedded SVG asset could not be parsed.
    SvgParse(String),
    /// An image buffer could not be allocated at the requested dimensions.
    BufferCreation { width: u32, height: u32 },
    /// The generated image could not be encoded in the requested format.
    ImageEncode { format: OutputFormat, source: image::ImageError },
    /// The supplied configuration parameters are invalid.
    InvalidConfig(String),
    /// The output format could not be told from a file path.
    FormatDetection(String),
    /// The image could not be written to a file.
    ImageSave { path: String, source: image::ImageError },
}

/// HTTP status for "Bad Request".
pub const STATUS_BAD_REQUEST: u16 = 400;

/// HTTP status for "Internal Server Error".
pub const STATUS_INTERNAL_SERVER_ERROR: u16 = 500;

impl FlagError {
    /// Whether the error is the caller's fault (an invalid configuration).
    pub open spec fn is_client_error(&self) -> bool {
        self is InvalidConfig
    }

    /// The HTTP status an error is answered with: 400 for an invalid
    /// configuration, 500 for everything else.
    pub fn status_code(&self) -> (status: u16)
        ensures
            status == (if self.is_client_error() { STATUS_BAD_REQUEST } else { STATUS_INTERNAL_SERVER_ERROR }),
    {
        match self {
            FlagError::InvalidConfig(_) => STATUS_BAD_REQUEST,
            _ => STATUS_INTERNAL_SERVER_ERROR,
        }
    }
}

/// Renders an `image::ImageError` with its `Display` impl. Nothing is
/// stated of the text.
#[verifier::external_body]
fn image_error_text(e: &image::ImageError) -> String {
    e.to_string()
}

/// The text of an error, except for the description of an underlying
/// `image` error, which is left open.
pub open spec fn error_message_fits(e: &FlagError, msg: Seq<char>) -> bool {
    match e {
        FlagError::SvgParse(detail) => msg == "Failed to parse SVG data: "@ + detail@,
        FlagError::BufferCreation { width, height } => msg == "Failed to create image buffer with dimensions "@
            + decimal(*width as nat) + "x"@ + decimal(*height as nat),
        FlagError::ImageEncode { format, .. } => exists|cause: Seq<char>|
            msg == "Failed to encode image as "@ + format_debug_name(*format) + ": "@ + cause,
        FlagError::InvalidConfig(detail) => msg == "Invalid configuration: "@ + detail@,
        FlagError::FormatDetection(detail) => msg == "Failed to detect output format: "@ + detail@,
        FlagError::ImageSave { path, .. } => exists|cause: Seq<char>|
            msg == "Failed to save image to "@ + path@ + ": "@ + cause,
    }
}

impl FlagError {
    /// The human-readable description of the error.
    pub fn message(&self) -> (msg: String)
        ensures
            error_message_fits(self, msg@),
    {
        match self {
            FlagError::SvgParse(detail) => {
                let mut msg = String::from_str("Failed to parse SVG data: ");
                msg.append(detail.as_str());
                msg
            },
            FlagError::BufferCreation { width, height } => {
                let mut msg = String::from_str("Failed to create image buffer with dimensions ");
                push_digits(&mut msg, *width, 10);
                msg.append("x");
                push_digits(&mut msg, *height, 10);
                msg
            },
            FlagError::ImageEncode { format, source } => {
                let mut msg = String::from_str("Failed to encode image as ");
                msg.append(format.debug_name());
                msg.append(": ");
                let ghost head = msg@;
                let cause = image_error_text(source);
                msg.append(cause.as_str());
                assert(msg@ == head + cause@);
                msg
            },
            FlagError::InvalidConfig(detail) => {
                let mut msg = String::from_str("Invalid configuration: ");
                msg.append(detail.as_str());
                msg
            },
            FlagError::FormatDetection(detail) => {
                let mut msg = String::from_str("Failed to detect output format: ");
                msg.append(detail.as_str());
                msg
            },
            FlagError::ImageSave { path, source } => {
                let mut msg = String::from_str("Failed to save image to ");
                msg.append(path.as_str());
                msg.append(": ");
                let ghost head = msg@;
                let cause = image_error_text(source);
                msg.append(cause.as_str());
                assert(msg@ == head + cause@);
                msg
            },
        }
    }
}

} // verus!
