use bear_flag::error::FlagError;
use bear_flag::flag::generate_flag_bytes;
use bear_flag::query::{default_center_paw, default_format, default_paw_size_bits, FlagQuery};
use bear_flag::types::{DevicePreset, OutputFormat, PrideFlagPreset};

#[test]
fn query_defaults() {
    let q = FlagQuery::default();
    assert_eq!(q.format, OutputFormat::Png);
    assert_eq!(f32::from_bits(q.paw_size_bits), 0.35);
    assert!(q.center_paw && !q.transparent);
    assert_eq!(default_format(), OutputFormat::Png);
    assert_eq!(f32::from_bits(default_paw_size_bits()), 0.35);
    assert!(default_center_paw());
}

#[test]
fn dimensions_follow_priority() {
    let c = FlagQuery::default().to_config().unwrap();
    assert_eq!((c.width, c.height), (3840, 2160));
    let q = FlagQuery { preset: Some(DevicePreset::IPhone14ProMax), ..Default::default() };
    let c = q.to_config().unwrap();
    assert_eq!((c.width, c.height), (2796, 1290));
    let q = FlagQuery { preset: Some(DevicePreset::IPhone14ProMax), width: Some(640), height: Some(480), ..Default::default() };
    let c = q.to_config().unwrap();
    assert_eq!((c.width, c.height), (640, 480));
    let q = FlagQuery { preset: Some(DevicePreset::Desktop1080p), width: Some(640), ..Default::default() };
    let c = q.to_config().unwrap();
    assert_eq!((c.width, c.height), (640, 1080));
    let q = FlagQuery { preset: Some(DevicePreset::IPhone14ProMax), width: Some(1000), ..Default::default() };
    let c = q.to_config().unwrap();
    assert_eq!((c.width, c.height), (1000, 1290));
    let q = FlagQuery { width: Some(640), ..Default::default() };
    let c = q.to_config().unwrap();
    assert_eq!((c.width, c.height), (640, 2160));
    let q = FlagQuery { height: Some(480), ..Default::default() };
    let c = q.to_config().unwrap();
    assert_eq!((c.width, c.height), (3840, 480));
}

#[test]
fn palette_stripes_and_overlay() {
    let c = FlagQuery::default().to_config().unwrap();
    assert_eq!(c.palette, PrideFlagPreset::Bear.palette().to_vec());
    assert_eq!(c.stripe_count, 14);
    assert!(c.include_overlay);
    assert_eq!(c.output_path, "bear_flag.png");
    assert_eq!(c.quality, 95);

    let q = FlagQuery { pride: Some(PrideFlagPreset::Rainbow), format: OutputFormat::WebP, ..Default::default() };
    let c = q.to_config().unwrap();
    assert_eq!(c.palette.len(), 6);
    assert_eq!(c.stripe_count, 6);
    assert!(!c.include_overlay);
    assert_eq!(c.output_path, "bear_flag.webp");

    let q = FlagQuery {
        pride: Some(PrideFlagPreset::Rainbow),
        colors: Some("FF0000,#00FF00".to_string()),
        stripe_count: Some(12),
        include_overlay: Some(true),
        ..Default::default()
    };
    let c = q.to_config().unwrap();
    assert_eq!(c.palette, vec![0xFF0000, 0x00FF00]);
    assert_eq!(c.stripe_count, 12);
    assert!(c.include_overlay);
}

#[test]
fn invalid_colors_are_a_bad_request() {
    let q = FlagQuery { colors: Some("nope".to_string()), ..Default::default() };
    match q.to_config() {
        Err(e @ FlagError::InvalidConfig(_)) => {
            assert_eq!(e.status_code(), 400);
            assert_eq!(e.message(), "Invalid configuration: Invalid hex color: 'nope'. Expected format: RRGGBB or #RRGGBB");
        },
        other => panic!("expected an invalid configuration, got {:?}", other),
    }
}

#[test]
fn jpeg_drops_transparency() {
    let q = FlagQuery { format: OutputFormat::Jpeg, transparent: true, ..Default::default() };
    let mut c = q.to_config().unwrap();
    assert!(c.transparent);
    assert!(c.drop_unsupported_transparency());
    assert!(!c.transparent);
    assert!(!c.drop_unsupported_transparency());
    let q = FlagQuery { format: OutputFormat::Png, transparent: true, ..Default::default() };
    let mut c = q.to_config().unwrap();
    assert!(!c.drop_unsupported_transparency());
    assert!(c.transparent);
}

#[test]
fn jpeg_output_is_the_same_with_or_without_transparency() {
    let opaque = FlagQuery { format: OutputFormat::Jpeg, width: Some(64), height: Some(32), ..Default::default() };
    let clear = FlagQuery { transparent: true, ..opaque.clone() };
    let mut a = opaque.to_config().unwrap();
    let mut b = clear.to_config().unwrap();
    b.transparent = true;
    let bytes_a = generate_flag_bytes(&a, None).unwrap();
    let bytes_b = generate_flag_bytes(&b, None).unwrap();
    assert_eq!(bytes_a, bytes_b);
    a.drop_unsupported_transparency();
    b.drop_unsupported_transparency();
    assert_eq!(generate_flag_bytes(&b, None).unwrap(), bytes_a);
}
