use bear_flag::error::FlagError;
use bear_flag::types::OutputFormat;

fn detection_message(path: &str) -> String {
    match OutputFormat::from_path(path) {
        Err(FlagError::FormatDetection(msg)) => msg,
        other => panic!("expected a format detection error, got {:?}", other),
    }
}

#[test]
fn test_format_from_path_png() {
    let format = OutputFormat::from_path("test.png").unwrap();
    assert_eq!(format, OutputFormat::Png);
}

#[test]
fn test_format_from_path_jpeg() {
    let format = OutputFormat::from_path("test.jpg").unwrap();
    assert_eq!(format, OutputFormat::Jpeg);
    let format = OutputFormat::from_path("test.JPEG").unwrap();
    assert_eq!(format, OutputFormat::Jpeg);
}

#[test]
fn test_format_from_path_webp() {
    let format = OutputFormat::from_path("test.webp").unwrap();
    assert_eq!(format, OutputFormat::WebP);
}

#[test]
fn test_format_from_path_invalid() {
    assert!(OutputFormat::from_path("test.txt").is_err());
    assert!(OutputFormat::from_path("test").is_err());
}

#[test]
fn detection_error_messages() {
    assert_eq!(detection_message("test.txt"), "Unsupported file extension: .txt");
    assert_eq!(detection_message("TEST.TXT"), "Unsupported file extension: .txt");
    assert_eq!(detection_message("test"), "No file extension in path: test");
    assert_eq!(detection_message(".png"), "No file extension in path: .png");
    assert_eq!(detection_message("dir/.."), "No file extension in path: dir/..");
    assert_eq!(detection_message("name."), "Unsupported file extension: .");
}

#[test]
fn detection_reads_the_final_component() {
    assert_eq!(OutputFormat::from_path("out/dir/photo.PNG").unwrap(), OutputFormat::Png);
    assert_eq!(OutputFormat::from_path("a/b.tar.webp").unwrap(), OutputFormat::WebP);
    assert_eq!(OutputFormat::from_path("archive.jpeg/").unwrap(), OutputFormat::Jpeg);
    assert_eq!(OutputFormat::from_path("x.jpg/.").unwrap(), OutputFormat::Jpeg);
    assert!(OutputFormat::from_path("img.png/other").is_err());
}

#[test]
fn from_extension_takes_lower_case_names() {
    assert_eq!(OutputFormat::from_extension("jpeg").unwrap(), OutputFormat::Jpeg);
    assert!(OutputFormat::from_extension("PNG").is_err());
    for f in [OutputFormat::Png, OutputFormat::Jpeg, OutputFormat::WebP] {
        assert_eq!(OutputFormat::from_extension(f.extension()).unwrap(), f);
        assert_eq!(OutputFormat::from_path(&format!("flag.{}", f.extension())).unwrap(), f);
    }
}
