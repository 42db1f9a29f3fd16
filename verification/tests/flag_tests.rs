use bear_flag::config::FlagConfig;
use bear_flag::error::FlagError;
use bear_flag::flag::{encode_canvas, generate_flag_bytes, paw_position};
use bear_flag::raster::{Canvas, Rgba};
use bear_flag::types::{OutputFormat, PrideFlagPreset};

fn small_config(width: u32, height: u32, format: OutputFormat, palette: Vec<u32>, stripe_count: u32) -> FlagConfig {
    FlagConfig {
        width,
        height,
        output_format: format,
        palette,
        stripe_count,
        paw_size_ratio_bits: 0.3f32.to_bits(),
        center_paw: true,
        transparent: false,
        include_overlay: false,
        ..Default::default()
    }
}

fn paw() -> Option<Result<Canvas, FlagError>> {
    Some(Ok(Canvas::from_pixel(10, 10, Rgba { r: 255, g: 255, b: 255, a: 255 })))
}

#[test]
fn flag_test_generate_flag_bytes_small() {
    let config = small_config(140, 80, OutputFormat::Png, PrideFlagPreset::Rainbow.palette().to_vec(), 6);
    let result = generate_flag_bytes(&config, None);
    assert!(result.is_ok(), "Flag generation failed: {:?}", result.err());
    let bytes = result.unwrap();
    assert!(!bytes.is_empty(), "Generated image should not be empty");
}

#[test]
fn flag_test_generate_flag_bytes_jpeg() {
    let config = small_config(320, 240, OutputFormat::Jpeg, PrideFlagPreset::Pansexual.palette().to_vec(), 3);
    let result = generate_flag_bytes(&config, None);
    assert!(result.is_ok(), "JPEG flag generation failed: {:?}", result.err());
    let bytes = result.unwrap();
    assert!(!bytes.is_empty(), "Generated JPEG should not be empty");
}

#[test]
fn test_generate_flag_with_custom_colors() {
    let config = small_config(200, 100, OutputFormat::Png, vec![0xFF0000, 0x00FF00, 0x0000FF], 3);
    let result = generate_flag_bytes(&config, None);
    assert!(result.is_ok(), "Custom color flag generation failed");
}

#[test]
fn test_generate_flag_with_different_stripe_count() {
    let config = small_config(300, 200, OutputFormat::Png, PrideFlagPreset::Rainbow.palette().to_vec(), 12);
    let result = generate_flag_bytes(&config, None);
    assert!(result.is_ok(), "Variable stripe count generation failed");
}

fn overlay_config(width: u32, height: u32, format: OutputFormat) -> FlagConfig {
    FlagConfig { width, height, output_format: format, paw_size_ratio_bits: 0.3f32.to_bits(), ..Default::default() }
}

#[test]
fn generate_flag_bytes_produces_image() {
    let config = overlay_config(140, 80, OutputFormat::Png);
    let result = generate_flag_bytes(&config, paw());
    assert!(result.is_ok(), "Flag generation failed: {:?}", result.err());
    let bytes = result.unwrap();
    assert!(!bytes.is_empty(), "Generated image should not be empty");
}

#[test]
fn generate_flag_bytes_handles_jpeg() {
    let config = overlay_config(320, 240, OutputFormat::Jpeg);
    let result = generate_flag_bytes(&config, paw());
    assert!(result.is_ok(), "JPEG flag generation failed: {:?}", result.err());
    let bytes = result.unwrap();
    assert!(!bytes.is_empty(), "Generated JPEG should not be empty");
}

#[test]
fn tests_test_generate_flag_bytes_small() {
    let config = overlay_config(140, 80, OutputFormat::Png);
    let result = generate_flag_bytes(&config, paw());
    assert!(result.is_ok(), "Flag generation failed: {:?}", result.err());
    let bytes = result.unwrap();
    assert!(!bytes.is_empty(), "Generated image should not be empty");
}

#[test]
fn tests_test_generate_flag_bytes_jpeg() {
    let config = overlay_config(320, 240, OutputFormat::Jpeg);
    let result = generate_flag_bytes(&config, paw());
    assert!(result.is_ok(), "JPEG flag generation failed: {:?}", result.err());
    let bytes = result.unwrap();
    assert!(!bytes.is_empty(), "Generated JPEG should not be empty");
}

#[test]
fn png_output_decodes_to_the_drawn_flag() {
    let config = small_config(140, 80, OutputFormat::Png, PrideFlagPreset::Rainbow.palette().to_vec(), 6);
    let bytes = generate_flag_bytes(&config, None).unwrap();
    let img = image::load_from_memory(&bytes).unwrap().to_rgba8();
    assert_eq!((img.width(), img.height()), (140, 80));
    assert_eq!(img.get_pixel(0, 0).0, [0xE4, 0x03, 0x03, 255]);
    assert_eq!(img.get_pixel(139, 79).0, [0, 0, 0, 255]);
    let mut clear = config.clone();
    clear.transparent = true;
    let bytes = generate_flag_bytes(&clear, None).unwrap();
    let img = image::load_from_memory(&bytes).unwrap().to_rgba8();
    assert_eq!(img.get_pixel(0, 0).0, [0xE4, 0x03, 0x03, 255]);
    assert_eq!(img.get_pixel(139, 79).0, [0, 0, 0, 0]);
}

#[test]
fn paw_is_laid_over_the_center() {
    let config = overlay_config(40, 20, OutputFormat::Png);
    let bytes = generate_flag_bytes(&config, paw()).unwrap();
    let img = image::load_from_memory(&bytes).unwrap().to_rgba8();
    assert_eq!(paw_position(40, 20, 10, 10, true), (15, 5));
    assert_eq!(paw_position(40, 20, 10, 10, false), (0, 10));
    assert_eq!(img.get_pixel(15, 5).0, [255, 255, 255, 255]);
    assert_eq!(img.get_pixel(24, 14).0, [255, 255, 255, 255]);
    assert_ne!(img.get_pixel(14, 5).0, [255, 255, 255, 255]);
}

#[test]
fn jpeg_output_has_no_alpha() {
    let mut config = overlay_config(32, 16, OutputFormat::Jpeg);
    config.transparent = true;
    let bytes = generate_flag_bytes(&config, None).unwrap();
    let img = image::load_from_memory(&bytes).unwrap();
    assert_eq!((img.width(), img.height()), (32, 16));
    assert!(!img.color().has_alpha());
}

#[test]
fn webp_output_decodes() {
    let config = small_config(16, 8, OutputFormat::WebP, vec![0x00FF00], 1);
    let bytes = generate_flag_bytes(&config, None).unwrap();
    let img = image::load_from_memory(&bytes).unwrap().to_rgba8();
    assert_eq!(img.get_pixel(3, 3).0, [0, 255, 0, 255]);
}

#[test]
fn invalid_configuration_is_reported_before_the_paw() {
    let config = overlay_config(0, 20, OutputFormat::Png);
    match generate_flag_bytes(&config, Some(Err(FlagError::SvgParse("broken".into())))) {
        Err(FlagError::InvalidConfig(msg)) => assert_eq!(msg, "Width and height must be non-zero"),
        other => panic!("unexpected {:?}", other),
    }
}

#[test]
fn failed_paw_rendering_fails_only_with_the_overlay_on() {
    let config = overlay_config(40, 20, OutputFormat::Png);
    match generate_flag_bytes(&config, Some(Err(FlagError::SvgParse("broken".into())))) {
        Err(FlagError::SvgParse(msg)) => assert_eq!(msg, "broken"),
        other => panic!("unexpected {:?}", other),
    }
    let mut config = overlay_config(40, 20, OutputFormat::Png);
    config.include_overlay = false;
    assert!(generate_flag_bytes(&config, Some(Err(FlagError::SvgParse("broken".into())))).is_ok());
}

#[test]
fn empty_pictures_are_encoding_errors() {
    for format in [OutputFormat::Png, OutputFormat::Jpeg, OutputFormat::WebP] {
        match encode_canvas(&Canvas::new(0, 0), format) {
            Err(FlagError::ImageEncode { format: f, source }) => {
                assert_eq!(f, format);
                let e = FlagError::ImageEncode { format: f, source };
                assert!(e.message().starts_with(&format!("Failed to encode image as {}: ", format.debug_name())));
                assert_eq!(e.status_code(), 500);
            },
            other => panic!("unexpected {:?}", other),
        }
    }
}
