//! Device presets, output formats and pride flag presets.

use vstd::prelude::*;
use vstd::std_specs::convert::FromSpecImpl;

verus! {

/// Preset device configurations with landscape wallpaper dimensions.
#[derive(Clone, Copy, Debug, PartialEq, Eq, Structural)]
pub enum DevicePreset {
    /// iPhone 14/13/12 Pro Max - 2796 x 1290
    IPhone14ProMax,
    /// iPhone 14/13/12 Pro - 2556 x 1179
    IPhone14Pro,
    /// iPhone 14/13/12 - 2532 x 1170
    IPhone14,
    /// iPhone SE (3rd gen) - 1334 x 750
    IPhoneSE,
    /// iPad Pro 12.9" - 2732 x 2048
    IPadPro129,
    /// iPad Pro 11" - 2388 x 1668
    IPadPro11,
    /// iPad Air 10.9" - 2360 x 1640
    IPadAir,
    /// Android QHD - 2560 x 1440
    AndroidQHD,
    /// Android FHD - 1920 x 1080
    AndroidFHD,
    /// Desktop 4K - 3840 x 2160
    Desktop4K,
    /// Desktop 1440p - 2560 x 1440
    Desktop1440p,
    /// Desktop 1080p - 1920 x 1080
    Desktop1080p,
}

/// The (width, height) in pixels of a device preset.
pub open spec fn preset_dimensions(p: DevicePreset) -> (u32, u32) {
    match p {
        DevicePreset::IPhone14ProMax => (2796, 1290),
        DevicePreset::IPhone14Pro => (2556, 1179),
        DevicePreset::IPhone14 => (2532, 1170),
        DevicePreset::IPhoneSE => (1334, 750),
        DevicePreset::IPadPro129 => (2732, 2048),
        DevicePreset::IPadPro11 => (2388, 1668),
        DevicePreset::IPadAir => (2360, 1640),
        DevicePreset::AndroidQHD => (2560, 1440),
        DevicePreset::AndroidFHD => (1920, 1080),
        DevicePreset::Desktop4K => (3840, 2160),
        DevicePreset::Desktop1440p => (2560, 1440),
        DevicePreset::Desktop1080p => (1920, 1080),
    }
}

/// The human-readable name of a device preset.
pub open spec fn preset_display_name(p: DevicePreset) -> Seq<char> {
    match p {
        DevicePreset::IPhone14ProMax => "iPhone 14/13/12 Pro Max"@,
        DevicePreset::IPhone14Pro => "iPhone 14/13/12 Pro"@,
        DevicePreset::IPhone14 => "iPhone 14/13/12"@,
        DevicePreset::IPhoneSE => "iPhone SE (3rd gen)"@,
        DevicePreset::IPadPro129 => "iPad Pro 12.9\""@,
        DevicePreset::IPadPro11 => "iPad Pro 11\""@,
        DevicePreset::IPadAir => "iPad Air 10.9\""@,
        DevicePreset::AndroidQHD => "Android QHD"@,
        DevicePreset::AndroidFHD => "Android FHD"@,
        DevicePreset::Desktop4K => "Desktop 4K"@,
        DevicePreset::Desktop1440p => "Desktop 1440p"@,
        DevicePreset::Desktop1080p => "Desktop 1080p"@,
    }
}

/// Whether a preset is one of the phone and desktop presets (the tablet and
/// Android ones are not).
pub open spec fn is_phone_or_desktop(p: DevicePreset) -> bool {
    match p {
        DevicePreset::IPadPro129 | DevicePreset::IPadPro11 | DevicePreset::IPadAir
        | DevicePreset::AndroidQHD | DevicePreset::AndroidFHD => false,
        _ => true,
    }
}

/// The phone and desktop presets, in declaration order.
pub open spec fn all_presets() -> Seq<DevicePreset> {
    seq![
        DevicePreset::IPhone14ProMax,
        DevicePreset::IPhone14Pro,
        DevicePreset::IPhone14,
        DevicePreset::IPhoneSE,
        DevicePreset::Desktop4K,
        DevicePreset::Desktop1440p,
        DevicePreset::Desktop1080p,
    ]
}

impl DevicePreset {
    /// Returns a human-readable name for the device preset.
    pub fn display_name(self) -> (name: &'static str)
        ensures
            name@ == preset_display_name(self),
    {
        match self {
            DevicePreset::IPhone14ProMax => "iPhone 14/13/12 Pro Max",
            DevicePreset::IPhone14Pro => "iPhone 14/13/12 Pro",
            DevicePreset::IPhone14 => "iPhone 14/13/12",
            DevicePreset::IPhoneSE => "iPhone SE (3rd gen)",
            DevicePreset::IPadPro129 => "iPad Pro 12.9\"",
            DevicePreset::IPadPro11 => "iPad Pro 11\"",
            DevicePreset::IPadAir => "iPad Air 10.9\"",
            DevicePreset::AndroidQHD => "Android QHD",
            DevicePreset::AndroidFHD => "Android FHD",
            DevicePreset::Desktop4K => "Desktop 4K",
            DevicePreset::Desktop1440p => "Desktop 1440p",
            DevicePreset::Desktop1080p => "Desktop 1080p",
        }
    }

    /// Returns the seven phone and desktop presets, in declaration order.
    /// The tablet and Android presets are not in this list.
    pub fn all() -> (presets: &'static [DevicePreset])
        ensures
            presets@ == all_presets(),
    {
        let presets: &'static [DevicePreset] = &[
            DevicePreset::IPhone14ProMax,
            DevicePreset::IPhone14Pro,
            DevicePreset::IPhone14,
            DevicePreset::IPhoneSE,
            DevicePreset::Desktop4K,
            DevicePreset::Desktop1440p,
            DevicePreset::Desktop1080p,
        ];
        assert(presets@ == all_presets());
        presets
    }

    /// Returns the (width, height) of the preset in pixels.
    pub fn dimensions(self) -> (dims: (u32, u32))
        ensures
            dims == preset_dimensions(self),
    {
        match self {
            DevicePreset::IPhone14ProMax => (2796, 1290),
            DevicePreset::IPhone14Pro => (2556, 1179),
            DevicePreset::IPhone14 => (2532, 1170),
            DevicePreset::IPhoneSE => (1334, 750),
            DevicePreset::IPadPro129 => (2732, 2048),
            DevicePreset::IPadPro11 => (2388, 1668),
            DevicePreset::IPadAir => (2360, 1640),
            DevicePreset::AndroidQHD => (2560, 1440),
            DevicePreset::AndroidFHD => (1920, 1080),
            DevicePreset::Desktop4K => (3840, 2160),
            DevicePreset::Desktop1440p => (2560, 1440),
            DevicePreset::Desktop1080p => (1920, 1080),
        }
    }
}

impl From<DevicePreset> for (u32, u32) {
    /// Converts a device preset to (width, height) dimensions.
    fn from(preset: DevicePreset) -> (dims: (u32, u32)) {
        preset.dimensions()
    }
}

impl FromSpecImpl<DevicePreset> for (u32, u32) {
    open spec fn obeys_from_spec() -> bool {
        true
    }

    open spec fn from_spec(preset: DevicePreset) -> (u32, u32) {
        preset_dimensions(preset)
    }
}

/// Supported output image formats.
#[derive(Clone, Copy, Debug, PartialEq, Eq, Structural)]
pub enum OutputFormat {
    /// PNG (lossless, supports transparency)
    Png,
    /// JPEG (lossy, no transparency)
    Jpeg,
    /// WebP (supports transparency)
    WebP,
}

/// The default file extension of a format.
pub open spec fn format_extension(f: OutputFormat) -> Seq<char> {
    match f {
        OutputFormat::Png => "png"@,
        OutputFormat::Jpeg => "jpg"@,
        OutputFormat::WebP => "webp"@,
    }
}

/// The MIME type of a format.
pub open spec fn format_mime_type(f: OutputFormat) -> Seq<char> {
    match f {
        OutputFormat::Png => "image/png"@,
        OutputFormat::Jpeg => "image/jpeg"@,
        OutputFormat::WebP => "image/webp"@,
    }
}

/// The name under which a format is shown in messages.
pub open spec fn format_debug_name(f: OutputFormat) -> Seq<char> {
    match f {
        OutputFormat::Png => "Png"@,
        OutputFormat::Jpeg => "Jpeg"@,
        OutputFormat::WebP => "WebP"@,
    }
}

impl OutputFormat {
    /// Returns the default file extension for this format.
    pub fn extension(self) -> (ext: &'static str)
        ensures
            ext@ == format_extension(self),
    {
        match self {
            OutputFormat::Png => "png",
            OutputFormat::Jpeg => "jpg",
            OutputFormat::WebP => "webp",
        }
    }

    /// Returns the MIME type for this format.
    pub fn mime_type(self) -> (mime: &'static str)
        ensures
            mime@ == format_mime_type(self),
    {
        match self {
            OutputFormat::Png => "image/png",
            OutputFormat::Jpeg => "image/jpeg",
            OutputFormat::WebP => "image/webp",
        }
    }

    /// Returns the variant name of this format, as shown in messages.
    pub fn debug_name(self) -> (name: &'static str)
        ensures
            name@ == format_debug_name(self),
    {
        match self {
            OutputFormat::Png => "Png",
            OutputFormat::Jpeg => "Jpeg",
            OutputFormat::WebP => "WebP",
        }
    }

    /// Whether the format can store an alpha channel.
    pub open spec fn spec_supports_alpha(self) -> bool {
        self != OutputFormat::Jpeg
    }
}

/// Pride flag presets with their standard color palettes.
#[derive(Clone, Copy, Debug, PartialEq, Eq, Structural)]
pub enum PrideFlagPreset {
    /// Traditional rainbow pride flag - 6 stripes
    Rainbow,
    /// Bear pride flag - 14 warm brown/black stripes
    Bear,
    /// Bisexual pride flag
    Bisexual,
    /// Transgender pride flag
    Transgender,
    /// Pansexual pride flag
    Pansexual,
    /// Lesbian pride flag
    Lesbian,
    /// Asexual pride flag
    Asexual,
    /// Non-binary pride flag
    NonBinary,
    /// Progress pride flag: its chevron colors, then the rainbow
    Progress,
}

/// The palette (0xRRGGBB values) of a pride flag preset.
pub open spec fn preset_palette(p: PrideFlagPreset) -> Seq<u32> {
    match p {
        PrideFlagPreset::Rainbow => seq![0xE40303u32, 0xFF8C00, 0xFFED00, 0x008026, 0x004DFF, 0x750787],
        PrideFlagPreset::Bear => seq![
            0xC02A01u32, 0xF1500A, 0xFB7D22, 0xFA9C3C, 0xE6B75D, 0xF0C578, 0xE3C790, 0xBD7B41,
            0x89491D, 0x4D0509, 0x380605, 0x290A06, 0x1C0808, 0x150705,
        ],
        PrideFlagPreset::Bisexual => seq![0xD60270u32, 0xD60270, 0x9B4F96, 0x0038A8, 0x0038A8],
        PrideFlagPreset::Transgender => seq![0x5BCEFAu32, 0xF5A9B8, 0xFFFFFF, 0xF5A9B8, 0x5BCEFA],
        PrideFlagPreset::Pansexual => seq![0xFF218Cu32, 0xFFD800, 0x21B1FF],
        PrideFlagPreset::Lesbian => seq![0xD52D00u32, 0xEF7627, 0xFF9A56, 0xFFFFFF, 0xD162A4, 0xB55690, 0xA30262],
        PrideFlagPreset::Asexual => seq![0x000000u32, 0xA3A3A3, 0xFFFFFF, 0x810081],
        PrideFlagPreset::NonBinary => seq![0xFFF430u32, 0xFFFFFF, 0x9C59D1, 0x000000],
        PrideFlagPreset::Progress => seq![
            0x000000u32, 0x784F17, 0xFFFFFF, 0x5BCEFA, 0xFFFFFF, 0xF5A9B8, 0x000000, 0xE40303, 0xFF8C00, 0xFFED00,
            0x008026, 0x004DFF, 0x750787,
        ],
    }
}

impl PrideFlagPreset {
    /// Returns the color palette of this flag as 0xRRGGBB values.
    pub fn palette(self) -> (colors: &'static [u32])
        ensures
            colors@ == preset_palette(self),
    {
        let colors: &'static [u32] = match self {
            PrideFlagPreset::Rainbow => &[0xE40303, 0xFF8C00, 0xFFED00, 0x008026, 0x004DFF, 0x750787],
            PrideFlagPreset::Bear => &[
                0xC02A01, 0xF1500A, 0xFB7D22, 0xFA9C3C, 0xE6B75D, 0xF0C578, 0xE3C790, 0xBD7B41,
                0x89491D, 0x4D0509, 0x380605, 0x290A06, 0x1C0808, 0x150705,
            ],
            PrideFlagPreset::Bisexual => &[0xD60270, 0xD60270, 0x9B4F96, 0x0038A8, 0x0038A8],
            PrideFlagPreset::Transgender => &[0x5BCEFA, 0xF5A9B8, 0xFFFFFF, 0xF5A9B8, 0x5BCEFA],
            PrideFlagPreset::Pansexual => &[0xFF218C, 0xFFD800, 0x21B1FF],
            PrideFlagPreset::Lesbian => &[0xD52D00, 0xEF7627, 0xFF9A56, 0xFFFFFF, 0xD162A4, 0xB55690, 0xA30262],
            PrideFlagPreset::Asexual => &[0x000000, 0xA3A3A3, 0xFFFFFF, 0x810081],
            PrideFlagPreset::NonBinary => &[0xFFF430, 0xFFFFFF, 0x9C59D1, 0x000000],
            PrideFlagPreset::Progress => &[
                0x000000, 0x784F17, 0xFFFFFF, 0x5BCEFA, 0xFFFFFF, 0xF5A9B8, 0x000000, 0xE40303, 0xFF8C00, 0xFFED00,
                0x008026, 0x004DFF, 0x750787,
            ],
        };
        assert(colors@ == preset_palette(self));
        colors
    }

    /// Whether this flag type carries the paw overlay (only the bear flag does).
    pub fn includes_overlay(self) -> (overlay: bool)
        ensures
            overlay == (self == PrideFlagPreset::Bear),
    {
        match self {
            PrideFlagPreset::Bear => true,
            _ => false,
        }
    }
}

/// The list of presets holds exactly the phone and desktop presets, none twice.
pub proof fn every_phone_and_desktop_preset_listed_once(p: DevicePreset)
    ensures
        all_presets().contains(p) <==> is_phone_or_desktop(p),
        all_presets().no_duplicates(),
{
    let all = all_presets();
    match p {
        DevicePreset::IPhone14ProMax => assert(all[0] == p),
        DevicePreset::IPhone14Pro => assert(all[1] == p),
        DevicePreset::IPhone14 => assert(all[2] == p),
        DevicePreset::IPhoneSE => assert(all[3] == p),
        DevicePreset::Desktop4K => assert(all[4] == p),
        DevicePreset::Desktop1440p => assert(all[5] == p),
        DevicePreset::Desktop1080p => assert(all[6] == p),
        _ => {},
    }
}

/// Display names tell presets apart: no two presets share a name, and no
/// name is empty.
pub proof fn display_names_are_distinct(p: DevicePreset, q: DevicePreset)
    ensures
        preset_display_name(p).len() > 0,
        p != q ==> preset_display_name(p) != preset_display_name(q),
{
    reveal_strlit("iPhone 14/13/12 Pro Max");
    reveal_strlit("iPhone 14/13/12 Pro");
    reveal_strlit("iPhone 14/13/12");
    reveal_strlit("iPhone SE (3rd gen)");
    reveal_strlit("iPad Pro 12.9\"");
    reveal_strlit("iPad Pro 11\"");
    reveal_strlit("iPad Air 10.9\"");
    reveal_strlit("Android QHD");
    reveal_strlit("Android FHD");
    reveal_strlit("Desktop 4K");
    reveal_strlit("Desktop 1440p");
    reveal_strlit("Desktop 1080p");
    let a = preset_display_name(p);
    let b = preset_display_name(q);
    if p != q && a == b {
        assert(a.len() == b.len());
        assert(a[5] == b[5]);
        assert(a[8] == b[8]);
        assert(a[9] == b[9]);
    }
}

/// Only JPEG output cannot carry transparency.
pub proof fn only_jpeg_lacks_alpha(f: OutputFormat)
    ensures
        !f.spec_supports_alpha() <==> f == OutputFormat::Jpeg,
{
}

/// The progress flag carries the whole rainbow after its chevron colors.
pub proof fn progress_flag_contains_the_rainbow()
    ensures
        preset_palette(PrideFlagPreset::Progress).subrange(7, 13) == preset_palette(PrideFlagPreset::Rainbow),
        forall|i: int| 0 <= i < 6 ==> preset_palette(PrideFlagPreset::Progress).contains(
            #[trigger] preset_palette(PrideFlagPreset::Rainbow)[i]),
{
    assert(preset_palette(PrideFlagPreset::Progress).subrange(7, 13) =~= preset_palette(PrideFlagPreset::Rainbow));
    assert forall|i: int| 0 <= i < 6 implies preset_palette(PrideFlagPreset::Progress).contains(
        #[trigger] preset_palette(PrideFlagPreset::Rainbow)[i]) by {
        assert(preset_palette(PrideFlagPreset::Progress)[i + 7] == preset_palette(PrideFlagPreset::Rainbow)[i]);
    }
}

/// The documented flag colors: rainbow red, orange, yellow, green, blue,
/// violet; the fourteen bear browns from rust to near-black; bisexual pink,
/// pink, purple, blue, blue; transgender light blue, pink, white, pink,
/// light blue; pansexual pink, yellow, blue; the lesbian oranges, white and
/// pinks; asexual black, gray, white, purple; non-binary yellow, white,
/// purple, black; progress its chevron then the rainbow.
pub proof fn flag_colors_are_the_documented_ones()
    ensures
        preset_palette(PrideFlagPreset::Rainbow) =~= seq![0xE40303u32, 0xFF8C00, 0xFFED00, 0x008026, 0x004DFF, 0x750787],
        preset_palette(PrideFlagPreset::Bear) =~= seq![
            0xC02A01u32, 0xF1500A, 0xFB7D22, 0xFA9C3C, 0xE6B75D, 0xF0C578, 0xE3C790, 0xBD7B41,
            0x89491D, 0x4D0509, 0x380605, 0x290A06, 0x1C0808, 0x150705,
        ],
        preset_palette(PrideFlagPreset::Bisexual) =~= seq![0xD60270u32, 0xD60270, 0x9B4F96, 0x0038A8, 0x0038A8],
        preset_palette(PrideFlagPreset::Transgender) =~= seq![0x5BCEFAu32, 0xF5A9B8, 0xFFFFFF, 0xF5A9B8, 0x5BCEFA],
        preset_palette(PrideFlagPreset::Pansexual) =~= seq![0xFF218Cu32, 0xFFD800, 0x21B1FF],
        preset_palette(PrideFlagPreset::Lesbian) =~= seq![0xD52D00u32, 0xEF7627, 0xFF9A56, 0xFFFFFF, 0xD162A4, 0xB55690, 0xA30262],
        preset_palette(PrideFlagPreset::Asexual) =~= seq![0x000000u32, 0xA3A3A3, 0xFFFFFF, 0x810081],
        preset_palette(PrideFlagPreset::NonBinary) =~= seq![0xFFF430u32, 0xFFFFFF, 0x9C59D1, 0x000000],
        preset_palette(PrideFlagPreset::Progress) =~= seq![
            0x000000u32, 0x784F17, 0xFFFFFF, 0x5BCEFA, 0xFFFFFF, 0xF5A9B8, 0x000000, 0xE40303, 0xFF8C00, 0xFFED00,
            0x008026, 0x004DFF, 0x750787,
        ],
{
}

/// The transgender flag is symmetric: light blue outside, pink inside, white
/// in the middle.
pub proof fn transgender_flag_is_symmetric(i: int)
    requires
        0 <= i < preset_palette(PrideFlagPreset::Transgender).len(),
    ensures
        preset_palette(PrideFlagPreset::Transgender).len() == 5,
        preset_palette(PrideFlagPreset::Transgender)[i] == preset_palette(PrideFlagPreset::Transgender)[4 - i],
        preset_palette(PrideFlagPreset::Transgender)[0] == 0x5BCEFA,
        preset_palette(PrideFlagPreset::Transgender)[1] == 0xF5A9B8,
        preset_palette(PrideFlagPreset::Transgender)[2] == 0xFFFFFF,
{
}

/// The documented wallpaper sizes, in pixels, of every device preset.
pub proof fn preset_sizes_are_the_documented_ones()
    ensures
        preset_dimensions(DevicePreset::IPhone14ProMax) == (2796u32, 1290u32),
        preset_dimensions(DevicePreset::IPhone14Pro) == (2556u32, 1179u32),
        preset_dimensions(DevicePreset::IPhone14) == (2532u32, 1170u32),
        preset_dimensions(DevicePreset::IPhoneSE) == (1334u32, 750u32),
        preset_dimensions(DevicePreset::IPadPro129) == (2732u32, 2048u32),
        preset_dimensions(DevicePreset::IPadPro11) == (2388u32, 1668u32),
        preset_dimensions(DevicePreset::IPadAir) == (2360u32, 1640u32),
        preset_dimensions(DevicePreset::AndroidQHD) == (2560u32, 1440u32),
        preset_dimensions(DevicePreset::AndroidFHD) == (1920u32, 1080u32),
        preset_dimensions(DevicePreset::Desktop4K) == (3840u32, 2160u32),
        preset_dimensions(DevicePreset::Desktop1440p) == (2560u32, 1440u32),
        preset_dimensions(DevicePreset::Desktop1080p) == (1920u32, 1080u32),
{
}

/// Every preset is a landscape size, and the phone and desktop presets all
/// have different sizes (a preset's size tells which of them it is).
pub proof fn preset_sizes_tell_presets_apart(p: DevicePreset, q: DevicePreset)
    ensures
        preset_dimensions(p).0 > preset_dimensions(p).1 > 0,
        is_phone_or_desktop(p) && is_phone_or_desktop(q) && p != q ==> preset_dimensions(p) != preset_dimensions(q),
{
}

/// The documented names of the device presets.
pub proof fn display_names_are_the_documented_ones()
    ensures
        preset_display_name(DevicePreset::IPhone14ProMax) == "iPhone 14/13/12 Pro Max"@,
        preset_display_name(DevicePreset::IPhone14Pro) == "iPhone 14/13/12 Pro"@,
        preset_display_name(DevicePreset::IPhone14) == "iPhone 14/13/12"@,
        preset_display_name(DevicePreset::IPhoneSE) == "iPhone SE (3rd gen)"@,
        preset_display_name(DevicePreset::IPadPro129) == "iPad Pro 12.9\""@,
        preset_display_name(DevicePreset::IPadPro11) == "iPad Pro 11\""@,
        preset_display_name(DevicePreset::IPadAir) == "iPad Air 10.9\""@,
        preset_display_name(DevicePreset::AndroidQHD) == "Android QHD"@,
        preset_display_name(DevicePreset::AndroidFHD) == "Android FHD"@,
        preset_display_name(DevicePreset::Desktop4K) == "Desktop 4K"@,
        preset_display_name(DevicePreset::Desktop1440p) == "Desktop 1440p"@,
        preset_display_name(DevicePreset::Desktop1080p) == "Desktop 1080p"@,
{
}

/// The documented file extensions and MIME types of the output formats.
pub proof fn format_names_are_the_documented_ones()
    ensures
        format_extension(OutputFormat::Png) == "png"@,
        format_extension(OutputFormat::Jpeg) == "jpg"@,
        format_extension(OutputFormat::WebP) == "webp"@,
        format_mime_type(OutputFormat::Png) == "image/png"@,
        format_mime_type(OutputFormat::Jpeg) == "image/jpeg"@,
        format_mime_type(OutputFormat::WebP) == "image/webp"@,
{
}

} // verus!
