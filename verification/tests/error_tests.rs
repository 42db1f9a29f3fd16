use bear_flag::error::{FlagError, STATUS_BAD_REQUEST, STATUS_INTERNAL_SERVER_ERROR};
use bear_flag::types::OutputFormat;

fn limit_error() -> image::ImageError {
    image::ImageError::Limits(image::error::LimitError::from_kind(image::error::LimitErrorKind::DimensionError))
}

#[test]
fn status_codes() {
    assert_eq!(FlagError::InvalidConfig("bad".into()).status_code(), STATUS_BAD_REQUEST);
    assert_eq!(FlagError::SvgParse("x".into()).status_code(), STATUS_INTERNAL_SERVER_ERROR);
    assert_eq!(FlagError::BufferCreation { width: 1, height: 2 }.status_code(), 500);
    assert_eq!(FlagError::FormatDetection("x".into()).status_code(), 500);
    assert_eq!(
        FlagError::ImageEncode { format: OutputFormat::Png, source: limit_error() }.status_code(),
        500
    );
}

#[test]
fn messages() {
    assert_eq!(FlagError::InvalidConfig("bad".into()).message(), "Invalid configuration: bad");
    assert_eq!(FlagError::SvgParse("oops".into()).message(), "Failed to parse SVG data: oops");
    assert_eq!(
        FlagError::BufferCreation { width: 640, height: 0 }.message(),
        "Failed to create image buffer with dimensions 640x0"
    );
    assert_eq!(FlagError::FormatDetection("No file extension in path: x".into()).message(),
        "Failed to detect output format: No file extension in path: x");
    let cause = limit_error().to_string();
    assert_eq!(
        FlagError::ImageEncode { format: OutputFormat::WebP, source: limit_error() }.message(),
        format!("Failed to encode image as WebP: {}", cause)
    );
    assert_eq!(
        FlagError::ImageSave { path: "out.png".into(), source: limit_error() }.message(),
        format!("Failed to save image to out.png: {}", cause)
    );
}
