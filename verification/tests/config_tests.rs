use bear_flag::config::FlagConfig;
use bear_flag::error::FlagError;
use bear_flag::types::{DevicePreset, OutputFormat, PrideFlagPreset};

fn invalid_message(config: &FlagConfig) -> String {
    match config.validate() {
        Err(FlagError::InvalidConfig(msg)) => msg,
        other => panic!("expected an invalid configuration, got {:?}", other),
    }
}

#[test]
fn config_test_flag_config_from_preset() {
    let config = FlagConfig::from_preset(DevicePreset::IPhone14ProMax);
    assert_eq!(config.width, 2796);
    assert_eq!(config.height, 1290);
    assert_eq!(f32::from_bits(config.paw_size_ratio_bits), 0.35);
    assert!(config.center_paw);
    assert_eq!(config.output_path, "bear_flag_2796x1290.png");
}

#[test]
fn config_test_config_validation_zero_dimensions() {
    let config = FlagConfig { width: 0, height: 100, ..Default::default() };
    assert!(config.validate().is_err());
}

#[test]
fn config_test_config_validation_invalid_paw_ratio() {
    let config = FlagConfig { paw_size_ratio_bits: 1.5f32.to_bits(), ..Default::default() };
    assert!(config.validate().is_err());
}

#[test]
fn config_test_config_validation_valid() {
    let config = FlagConfig::default();
    assert!(config.validate().is_ok());
}

#[test]
fn test_ensure_extension() {
    let mut config = FlagConfig {
        output_path: "test.txt".to_string(),
        output_format: OutputFormat::Png,
        ..Default::default()
    };
    config.ensure_extension();
    assert_eq!(config.output_path, "test.png");
}

#[test]
fn tests_test_config_validation_zero_dimensions() {
    let config = FlagConfig { width: 0, height: 100, ..Default::default() };
    assert!(config.validate().is_err());
}

#[test]
fn tests_test_config_validation_too_large() {
    let config = FlagConfig { width: 20000, height: 100, ..Default::default() };
    assert!(config.validate().is_err());
}

#[test]
fn tests_test_config_validation_invalid_paw_ratio() {
    let config = FlagConfig { paw_size_ratio_bits: 1.5f32.to_bits(), ..Default::default() };
    assert!(config.validate().is_err());
}

#[test]
fn tests_test_config_validation_valid() {
    let config = FlagConfig::default();
    assert!(config.validate().is_ok());
}

#[test]
fn tests_test_flag_config_from_preset() {
    let config = FlagConfig::from_preset(DevicePreset::IPhone14ProMax);
    assert_eq!(config.width, 2796);
    assert_eq!(config.height, 1290);
    assert_eq!(f32::from_bits(config.paw_size_ratio_bits), 0.35);
    assert!(config.center_paw);
}

#[test]
fn types_test_config_validation_zero_dimensions() {
    let config = FlagConfig { width: 0, height: 100, ..Default::default() };
    assert!(config.validate().is_err());
}

#[test]
fn types_test_config_validation_too_large() {
    let config = FlagConfig { width: 20000, height: 100, ..Default::default() };
    assert!(config.validate().is_err());
}

#[test]
fn types_test_config_validation_invalid_paw_ratio() {
    let config = FlagConfig { paw_size_ratio_bits: 1.5f32.to_bits(), ..Default::default() };
    assert!(config.validate().is_err());
}

#[test]
fn types_test_config_validation_valid() {
    let config = FlagConfig::default();
    assert!(config.validate().is_ok());
}

#[test]
fn types_test_flag_config_from_preset() {
    let config = FlagConfig::from_preset(DevicePreset::IPhone14ProMax);
    assert_eq!(config.width, 2796);
    assert_eq!(config.height, 1290);
    assert_eq!(f32::from_bits(config.paw_size_ratio_bits), 0.35);
    assert!(config.center_paw);
}

#[test]
fn test_flag_config_with_custom_palette() {
    let config = FlagConfig {
        width: 1920,
        height: 1080,
        output_format: OutputFormat::Png,
        palette: vec![0xFF0000, 0x00FF00, 0x0000FF],
        stripe_count: 3,
        paw_size_ratio_bits: 0.3f32.to_bits(),
        center_paw: true,
        transparent: false,
        include_overlay: false,
        ..Default::default()
    };
    assert!(config.validate().is_ok());
}

#[test]
fn test_flag_config_validation_empty_palette() {
    let mut config = FlagConfig::default();
    config.palette.clear();
    assert!(config.validate().is_err());
}

#[test]
fn test_flag_config_validation_zero_stripes() {
    let mut config = FlagConfig::default();
    config.stripe_count = 0;
    assert!(config.validate().is_err());
}

#[test]
fn test_flag_config_validation_too_many_stripes() {
    let mut config = FlagConfig::default();
    config.stripe_count = 101;
    assert!(config.validate().is_err());
}

#[test]
fn validation_messages_in_order() {
    let base = FlagConfig::default();
    assert_eq!(invalid_message(&FlagConfig { width: 0, height: 0, ..Default::default() }), "Width and height must be non-zero");
    assert_eq!(invalid_message(&FlagConfig { height: 10001, ..Default::default() }), "Width and height must not exceed 10000 pixels");
    assert_eq!(
        invalid_message(&FlagConfig { paw_size_ratio_bits: 0.009f32.to_bits(), ..Default::default() }),
        "Paw size ratio must be between 0.01 and 1.0"
    );
    assert_eq!(
        invalid_message(&FlagConfig { paw_size_ratio_bits: f32::NAN.to_bits(), ..Default::default() }),
        "Paw size ratio must be between 0.01 and 1.0"
    );
    assert_eq!(
        invalid_message(&FlagConfig { paw_size_ratio_bits: (-0.5f32).to_bits(), ..Default::default() }),
        "Paw size ratio must be between 0.01 and 1.0"
    );
    assert_eq!(invalid_message(&FlagConfig { palette: vec![], stripe_count: 0, ..Default::default() }), "Color palette must not be empty");
    assert_eq!(invalid_message(&FlagConfig { stripe_count: 0, quality: 200, ..Default::default() }), "Stripe count must be non-zero");
    assert_eq!(invalid_message(&FlagConfig { quality: 101, ..Default::default() }), "Quality must be between 0 and 100");
    assert!(FlagConfig { paw_size_ratio_bits: 0.01f32.to_bits(), ..Default::default() }.validate().is_ok());
    assert!(FlagConfig { paw_size_ratio_bits: 1.0f32.to_bits(), width: 10000, height: 1, ..base }.validate().is_ok());
}

#[test]
fn default_is_the_bear_flag() {
    let config = FlagConfig::default();
    assert_eq!((config.width, config.height), (3840, 2160));
    assert_eq!(config.output_path, "bear_flag.png");
    assert_eq!(config.palette, PrideFlagPreset::Bear.palette().to_vec());
    assert_eq!(config.stripe_count, 14);
    assert_eq!(config.quality, 95);
    assert!(config.include_overlay && !config.transparent);
    let preset = FlagConfig::from_preset(DevicePreset::IPhoneSE);
    assert_eq!(preset.output_path, "bear_flag_1334x750.png");
}

fn ensured(path: &str, format: OutputFormat) -> String {
    let mut config = FlagConfig { output_path: path.to_string(), output_format: format, ..Default::default() };
    config.ensure_extension();
    config.output_path
}

#[test]
fn ensure_extension_cases() {
    assert_eq!(ensured("out/dir/photo.jpg", OutputFormat::Png), "photo.png");
    assert_eq!(ensured("out/dir/photo.png", OutputFormat::Png), "out/dir/photo.png");
    assert_eq!(ensured("a.PNG", OutputFormat::Png), "a.png");
    assert_eq!(ensured("", OutputFormat::WebP), "bear_flag.webp");
    assert_eq!(ensured("..", OutputFormat::Jpeg), "bear_flag.jpg");
    assert_eq!(ensured(".hidden", OutputFormat::Jpeg), ".hidden.jpg");
    assert_eq!(ensured("archive.tar.gz", OutputFormat::WebP), "archive.tar.webp");
    let once = ensured("flag", OutputFormat::Jpeg);
    assert_eq!(once, "flag.jpg");
    assert_eq!(ensured(&once, OutputFormat::Jpeg), once);
    assert_eq!(OutputFormat::from_path(&once).unwrap(), OutputFormat::Jpeg);
}
