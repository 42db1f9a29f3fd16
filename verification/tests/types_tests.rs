use bear_flag::types::{DevicePreset, OutputFormat, PrideFlagPreset};

#[test]
fn config_test_device_preset_iphone_14_pro_max() {
    let (width, height): (u32, u32) = DevicePreset::IPhone14ProMax.into();
    assert_eq!(width, 2796);
    assert_eq!(height, 1290);
}

#[test]
fn test_device_preset_desktop_1080p() {
    let (width, height): (u32, u32) = DevicePreset::Desktop1080p.into();
    assert_eq!(width, 1920);
    assert_eq!(height, 1080);
}

#[test]
fn test_device_preset_display_names() {
    assert_eq!(DevicePreset::IPhone14ProMax.display_name(), "iPhone 14/13/12 Pro Max");
    assert_eq!(DevicePreset::IPhone14Pro.display_name(), "iPhone 14/13/12 Pro");
    assert_eq!(DevicePreset::IPhone14.display_name(), "iPhone 14/13/12");
    assert_eq!(DevicePreset::IPhoneSE.display_name(), "iPhone SE (3rd gen)");
    assert_eq!(DevicePreset::Desktop4K.display_name(), "Desktop 4K");
}

#[test]
fn tests_test_device_preset_iphone_14_pro_max() {
    let (width, height): (u32, u32) = DevicePreset::IPhone14ProMax.into();
    assert_eq!(width, 2796);
    assert_eq!(height, 1290);
}

#[test]
fn tests_test_device_preset_desktop_4k() {
    let (width, height): (u32, u32) = DevicePreset::Desktop4K.into();
    assert_eq!(width, 3840);
    assert_eq!(height, 2160);
}

#[test]
fn tests_test_output_format_mime_types() {
    assert_eq!(OutputFormat::Png.mime_type(), "image/png");
    assert_eq!(OutputFormat::Jpeg.mime_type(), "image/jpeg");
    assert_eq!(OutputFormat::WebP.mime_type(), "image/webp");
}

#[test]
fn types_test_device_preset_iphone_14_pro_max() {
    let (width, height): (u32, u32) = DevicePreset::IPhone14ProMax.into();
    assert_eq!(width, 2796);
    assert_eq!(height, 1290);
}

#[test]
fn types_test_device_preset_desktop_4k() {
    let (width, height): (u32, u32) = DevicePreset::Desktop4K.into();
    assert_eq!(width, 3840);
    assert_eq!(height, 2160);
}

#[test]
fn types_test_output_format_mime_types() {
    assert_eq!(OutputFormat::Png.mime_type(), "image/png");
    assert_eq!(OutputFormat::Jpeg.mime_type(), "image/jpeg");
    assert_eq!(OutputFormat::WebP.mime_type(), "image/webp");
}

#[test]
fn test_pride_flag_palettes() {
    assert_eq!(PrideFlagPreset::Rainbow.palette().len(), 6);
    assert_eq!(PrideFlagPreset::Bear.palette().len(), 14);
    assert_eq!(PrideFlagPreset::Bisexual.palette().len(), 5);
    assert_eq!(PrideFlagPreset::Transgender.palette().len(), 5);
    assert_eq!(PrideFlagPreset::Pansexual.palette().len(), 3);
}

#[test]
fn test_pride_flag_overlay() {
    assert!(PrideFlagPreset::Bear.includes_overlay());
    assert!(!PrideFlagPreset::Rainbow.includes_overlay());
    assert!(!PrideFlagPreset::Transgender.includes_overlay());
}

#[test]
fn test_format_extension() {
    assert_eq!(OutputFormat::Png.extension(), "png");
    assert_eq!(OutputFormat::Jpeg.extension(), "jpg");
    assert_eq!(OutputFormat::WebP.extension(), "webp");
}

#[test]
fn all_presets_are_listed_once_with_their_dimensions() {
    let all = DevicePreset::all();
    assert_eq!(all.len(), 7);
    for (i, p) in all.iter().enumerate() {
        for q in &all[i + 1..] {
            assert_ne!(p, q);
        }
    }
    assert_eq!(all[0], DevicePreset::IPhone14ProMax);
    assert_eq!(all[4], DevicePreset::Desktop4K);
    assert_eq!(all[6], DevicePreset::Desktop1080p);
    assert!(!all.contains(&DevicePreset::IPadAir));
    assert_eq!(DevicePreset::IPadPro129.dimensions(), (2732, 2048));
    assert_eq!(DevicePreset::AndroidQHD.display_name(), "Android QHD");
}

#[test]
fn debug_names_and_palettes() {
    assert_eq!(OutputFormat::WebP.debug_name(), "WebP");
    assert_eq!(PrideFlagPreset::Rainbow.palette()[0], 0xE40303);
    assert_eq!(PrideFlagPreset::Bear.palette()[13], 0x150705);
}

#[test]
fn progress_flag_holds_the_rainbow() {
    let progress = PrideFlagPreset::Progress.palette();
    assert_eq!(progress.len(), 13);
    assert_eq!(&progress[7..], PrideFlagPreset::Rainbow.palette());
    assert_eq!(&progress[..7], &[0x000000, 0x784F17, 0xFFFFFF, 0x5BCEFA, 0xFFFFFF, 0xF5A9B8, 0x000000]);
}

#[test]
fn display_names_are_distinct_and_non_empty() {
    let presets = [
        DevicePreset::IPhone14ProMax, DevicePreset::IPhone14Pro, DevicePreset::IPhone14, DevicePreset::IPhoneSE,
        DevicePreset::IPadPro129, DevicePreset::IPadPro11, DevicePreset::IPadAir, DevicePreset::AndroidQHD,
        DevicePreset::AndroidFHD, DevicePreset::Desktop4K, DevicePreset::Desktop1440p, DevicePreset::Desktop1080p,
    ];
    for (i, p) in presets.iter().enumerate() {
        assert!(!p.display_name().is_empty());
        for q in &presets[i + 1..] {
            assert_ne!(p.display_name(), q.display_name());
        }
    }
}
