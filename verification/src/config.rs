//! Flag generation configuration and its validation.

use vstd::prelude::*;
use vstd::string::*;

use crate::error::FlagError;
use crate::text::{decimal, push_digits};
use crate::path::{
    chars_of, extension_range, file_name, file_name_range, lacks, lemma_extension_of_joined,
    lemma_file_name_shape, lemma_name_stem_shape, name_stem, path_extension, path_stem, same_text,
    string_of,
};
use crate::types::{DevicePreset, OutputFormat, PrideFlagPreset, format_extension, preset_dimensions, preset_palette};

verus! {

/// Largest accepted width or height, in pixels.
pub const MAX_DIMENSION: u32 = 10000;

/// Largest accepted number of stripes.
pub const MAX_STRIPES: u32 = 100;

/// Largest accepted quality setting.
pub const MAX_QUALITY: u8 = 100;

/// Bit pattern of the single-precision float closest to 0.01.
pub const PAW_RATIO_MIN_BITS: u32 = 0x3C23_D70A;

/// Bit pattern of the single-precision float 1.0.
pub const PAW_RATIO_MAX_BITS: u32 = 0x3F80_0000;

/// Bit pattern of the single-precision float closest to 0.35 (the default paw ratio).
pub const PAW_RATIO_DEFAULT_BITS: u32 = 0x3EB3_3333;

/// Whether the single-precision float with bit pattern `bits` lies in
/// [0.01, 1.0]. Non-negative floats (and +infinity, and positive NaNs,
/// which lie above 1.0) are ordered as their bit patterns; every pattern
/// with the sign bit set lies above 1.0's, so the test is exact.
pub open spec fn paw_ratio_in_range(bits: u32) -> bool {
    PAW_RATIO_MIN_BITS <= bits <= PAW_RATIO_MAX_BITS
}

/// The first problem that validation finds with a configuration, if any.
pub open spec fn config_problem(
    width: u32,
    height: u32,
    paw_ratio_bits: u32,
    palette_len: nat,
    stripe_count: u32,
    quality: u8,
) -> Option<Seq<char>> {
    if width == 0 || height == 0 {
        Some("Width and height must be non-zero"@)
    } else if width > MAX_DIMENSION || height > MAX_DIMENSION {
        Some("Width and height must not exceed 10000 pixels"@)
    } else if !paw_ratio_in_range(paw_ratio_bits) {
        Some("Paw size ratio must be between 0.01 and 1.0"@)
    } else if palette_len == 0 {
        Some("Color palette must not be empty"@)
    } else if stripe_count == 0 {
        Some("Stripe count must be non-zero"@)
    } else if stripe_count > MAX_STRIPES {
        Some("Stripe count must not exceed 100"@)
    } else if quality > MAX_QUALITY {
        Some("Quality must be between 0 and 100"@)
    } else {
        None
    }
}

/// Configuration for flag generation.
#[derive(Clone, Debug)]
pub struct FlagConfig {
    /// Output image width in pixels
    pub width: u32,
    /// Output image height in pixels
    pub height: u32,
    /// Path where a saved flag image goes
    pub output_path: String,
    /// Image format for output
    pub output_format: OutputFormat,
    /// Quality setting for lossy formats (0-100)
    pub quality: u8,
    /// Color palette as 0xRRGGBB values
    pub palette: Vec<u32>,
    /// Number of stripes to draw
    pub stripe_count: u32,
    /// Size of the bear paw as a fraction of the flag height, as the bit
    /// pattern of a single-precision float (`f32::to_bits`)
    pub paw_size_ratio_bits: u32,
    /// Whether to center the paw (otherwise it sits bottom-left)
    pub center_paw: bool,
    /// Whether to use a transparent background
    pub transparent: bool,
    /// Whether to draw the paw overlay
    pub include_overlay: bool,
}

impl FlagConfig {
    /// The first problem that validation finds with this configuration.
    pub open spec fn problem(&self) -> Option<Seq<char>> {
        config_problem(
            self.width,
            self.height,
            self.paw_size_ratio_bits,
            self.palette@.len(),
            self.stripe_count,
            self.quality,
        )
    }

    /// Whether the configuration passes validation.
    pub open spec fn is_valid(&self) -> bool {
        self.problem() is None
    }

    /// Validates the configuration parameters: non-zero dimensions of at
    /// most 10000 pixels, a paw ratio in [0.01, 1.0], a non-empty palette,
    /// 1 to 100 stripes, and a quality of at most 100, checked in that order.
    pub fn validate(&self) -> (r: Result<(), FlagError>)
        ensures
            r is Ok <==> self.is_valid(),
            r matches Err(e) ==> (e matches FlagError::InvalidConfig(msg) && msg@ == self.problem().unwrap()),
    {
        if self.width == 0 || self.height == 0 {
            return Err(FlagError::InvalidConfig(String::from_str("Width and height must be non-zero")));
        }
        if self.width > MAX_DIMENSION || self.height > MAX_DIMENSION {
            return Err(FlagError::InvalidConfig(String::from_str("Width and height must not exceed 10000 pixels")));
        }
        if !(PAW_RATIO_MIN_BITS <= self.paw_size_ratio_bits && self.paw_size_ratio_bits <= PAW_RATIO_MAX_BITS) {
            return Err(FlagError::InvalidConfig(String::from_str("Paw size ratio must be between 0.01 and 1.0")));
        }
        if self.palette.len() == 0 {
            return Err(FlagError::InvalidConfig(String::from_str("Color palette must not be empty")));
        }
        if self.stripe_count == 0 {
            return Err(FlagError::InvalidConfig(String::from_str("Stripe count must be non-zero")));
        }
        if self.stripe_count > MAX_STRIPES {
            return Err(FlagError::InvalidConfig(String::from_str("Stripe count must not exceed 100")));
        }
        if self.quality > MAX_QUALITY {
            return Err(FlagError::InvalidConfig(String::from_str("Quality must be between 0 and 100")));
        }
        Ok(())
    }
}


/// Default quality setting.
pub const DEFAULT_QUALITY: u8 = 95;

/// Output path of a flag made from a device preset: `bear_flag_{w}x{h}.png`.
pub open spec fn preset_output_path(width: u32, height: u32) -> Seq<char> {
    "bear_flag_"@ + decimal(width as nat) + "x"@ + decimal(height as nat) + ".png"@
}

/// The settings shared by the default and the preset configurations: a PNG
/// bear flag with all 14 stripes, a centered paw of 0.35 of the height, an
/// opaque background and the paw overlay on.
pub open spec fn has_bear_defaults(c: &FlagConfig) -> bool {
    &&& c.output_format == OutputFormat::Png
    &&& c.quality == DEFAULT_QUALITY
    &&& c.palette@ == preset_palette(PrideFlagPreset::Bear)
    &&& c.stripe_count == 14
    &&& c.paw_size_ratio_bits == PAW_RATIO_DEFAULT_BITS
    &&& c.center_paw
    &&& !c.transparent
    &&& c.include_overlay
}

impl Default for FlagConfig {
    /// A 3840 x 2160 bear flag saved to `bear_flag.png`.
    fn default() -> (c: Self)
        ensures
            c.width == 3840,
            c.height == 2160,
            c.output_path@ == "bear_flag.png"@,
            has_bear_defaults(&c),
            c.is_valid(),
    {
        FlagConfig {
            width: 3840,
            height: 2160,
            output_path: String::from_str("bear_flag.png"),
            output_format: OutputFormat::Png,
            quality: DEFAULT_QUALITY,
            palette: vstd::slice::slice_to_vec(PrideFlagPreset::Bear.palette()),
            stripe_count: 14,
            paw_size_ratio_bits: PAW_RATIO_DEFAULT_BITS,
            center_paw: true,
            transparent: false,
            include_overlay: true,
        }
    }
}

impl FlagConfig {
    /// Creates a configuration from a device preset, with the bear flag
    /// defaults and an output path naming the dimensions.
    pub fn from_preset(preset: DevicePreset) -> (c: Self)
        ensures
            (c.width, c.height) == preset_dimensions(preset),
            c.output_path@ == preset_output_path(c.width, c.height),
            has_bear_defaults(&c),
            c.is_valid(),
    {
        let (width, height) = preset.dimensions();
        let mut output_path = String::from_str("bear_flag_");
        push_digits(&mut output_path, width, 10);
        output_path.append("x");
        push_digits(&mut output_path, height, 10);
        output_path.append(".png");
        assert(output_path@ =~= preset_output_path(width, height));
        FlagConfig {
            width,
            height,
            output_path,
            output_format: OutputFormat::Png,
            quality: DEFAULT_QUALITY,
            palette: vstd::slice::slice_to_vec(PrideFlagPreset::Bear.palette()),
            stripe_count: 14,
            paw_size_ratio_bits: PAW_RATIO_DEFAULT_BITS,
            center_paw: true,
            transparent: false,
            include_overlay: true,
        }
    }
}

/// The path that `ensure_extension` leaves: `path` itself when its
/// extension already is `ext`; otherwise the file stem with `ext` appended
/// (the directory part is dropped), or `bear_flag.{ext}` when the path has
/// no file name.
pub open spec fn path_with_extension(path: Seq<char>, ext: Seq<char>) -> Seq<char> {
    if path_extension(path) == Some(ext) {
        path
    } else {
        match path_stem(path) {
            Some(stem) => stem + "."@ + ext,
            None => "bear_flag."@ + ext,
        }
    }
}

/// Whatever the path was, once `ensure_extension` has run its extension is
/// the extension of the configured output format.
pub proof fn ensured_path_has_format_extension(path: Seq<char>, format: OutputFormat)
    ensures
        path_extension(path_with_extension(path, format_extension(format))) == Some(format_extension(format)),
{
    let ext = format_extension(format);
    reveal_strlit("png");
    reveal_strlit("jpg");
    reveal_strlit("webp");
    reveal_strlit(".");
    reveal_strlit("bear_flag.");
    assert(lacks(ext, '/') && lacks(ext, '.'));
    if path_extension(path) != Some(ext) {
        match file_name(path) {
            Some(name) => {
                lemma_file_name_shape(path);
                lemma_name_stem_shape(name);
                assert("."@ =~= seq!['.']);
                lemma_extension_of_joined(name_stem(name), ext);
            },
            None => {
                let stem = "bear_flag"@;
                reveal_strlit("bear_flag");
                assert("bear_flag."@ =~= stem + seq!['.']);
                lemma_extension_of_joined(stem, ext);
            },
        }
    }
}

/// Running `ensure_extension` twice changes nothing the first run did not.
pub proof fn ensure_extension_is_idempotent(path: Seq<char>, format: OutputFormat)
    ensures
        path_with_extension(path_with_extension(path, format_extension(format)), format_extension(format))
            == path_with_extension(path, format_extension(format)),
{
    ensured_path_has_format_extension(path, format);
}

impl FlagConfig {
    /// Ensures the output path has the extension of the selected format.
    pub fn ensure_extension(&mut self)
        ensures
            final(self).output_path@ == path_with_extension(old(self).output_path@, format_extension(old(self).output_format)),
            path_extension(final(self).output_path@) == Some(format_extension(final(self).output_format)),
            final(self).width == old(self).width,
            final(self).height == old(self).height,
            final(self).output_format == old(self).output_format,
            final(self).quality == old(self).quality,
            final(self).palette@ == old(self).palette@,
            final(self).stripe_count == old(self).stripe_count,
            final(self).paw_size_ratio_bits == old(self).paw_size_ratio_bits,
            final(self).center_paw == old(self).center_paw,
            final(self).transparent == old(self).transparent,
            final(self).include_overlay == old(self).include_overlay,
    {
        proof {
            ensured_path_has_format_extension(self.output_path@, self.output_format);
        }
        let ext = self.output_format.extension();
        let v = chars_of(self.output_path.as_str());
        let (stem_lo, stem_hi) = match file_name_range(&v) {
            Some((lo, hi)) => match extension_range(&v, lo, hi) {
                Some(start) => {
                    let current = string_of(&v, start, hi);
                    if same_text(&current, ext) {
                        return;
                    }
                    (lo, start - 1)
                },
                None => (lo, hi),
            },
            None => {
                let mut path = String::from_str("bear_flag.");
                path.append(ext);
                self.output_path = path;
                return;
            },
        };
        let mut path = string_of(&v, stem_lo, stem_hi);
        path.append(".");
        path.append(ext);
        self.output_path = path;
    }
}

} // verus!
