//! Query parameters of the flag endpoint and the configuration they ask for.

use vstd::prelude::*;
use vstd::string::*;

use crate::colors::{parse_colors, parsed_colors};
use crate::config::{DEFAULT_QUALITY, FlagConfig, MAX_DIMENSION, PAW_RATIO_DEFAULT_BITS, paw_ratio_in_range};
use crate::error::FlagError;
use crate::flag::{encoding_of, flag_picture, jpeg_ignores_transparency, same_but_transparency};
use crate::raster::{Canvas, rows_bytes};
use crate::types::{DevicePreset, OutputFormat, PrideFlagPreset, format_extension, preset_dimensions, preset_palette};

verus! {

/// Query parameters for flag generation.
#[derive(Clone, Debug)]
pub struct FlagQuery {
    /// Device preset for standard dimensions
    pub preset: Option<DevicePreset>,
    /// Pride flag preset
    pub pride: Option<PrideFlagPreset>,
    /// Custom width in pixels (overrides the preset's)
    pub width: Option<u32>,
    /// Custom height in pixels (overrides the preset's)
    pub height: Option<u32>,
    /// Output format
    pub format: OutputFormat,
    /// Custom colors as comma-separated hex values (overrides the pride preset)
    pub colors: Option<String>,
    /// Number of stripes to draw (defaults to the palette length)
    pub stripe_count: Option<u32>,
    /// Paw size as a fraction of the height, as the bit pattern of a
    /// single-precision float (`f32::to_bits`)
    pub paw_size_bits: u32,
    /// Whether to center the paw
    pub center_paw: bool,
    /// Whether to use a transparent background
    pub transparent: bool,
    /// Whether to draw the paw overlay (defaults to what the flag type carries)
    pub include_overlay: Option<bool>,
}

/// Default output format of a query.
pub fn default_format() -> (f: OutputFormat)
    ensures
        f == OutputFormat::Png,
{
    OutputFormat::Png
}

/// Default paw size of a query (0.35, as `f32` bits).
pub fn default_paw_size_bits() -> (bits: u32)
    ensures
        bits == PAW_RATIO_DEFAULT_BITS,
{
    PAW_RATIO_DEFAULT_BITS
}

/// Default paw centering of a query.
pub fn default_center_paw() -> (center: bool)
    ensures
        center,
{
    true
}

impl Default for FlagQuery {
    /// A query that sets nothing: PNG, a centered paw of 0.35 of the height,
    /// an opaque background.
    fn default() -> (q: Self)
        ensures
            q.preset is None,
            q.pride is None,
            q.width is None,
            q.height is None,
            q.format == OutputFormat::Png,
            q.colors is None,
            q.stripe_count is None,
            q.paw_size_bits == PAW_RATIO_DEFAULT_BITS,
            q.center_paw,
            !q.transparent,
            q.include_overlay is None,
    {
        FlagQuery {
            preset: None,
            pride: None,
            width: None,
            height: None,
            format: default_format(),
            colors: None,
            stripe_count: None,
            paw_size_bits: default_paw_size_bits(),
            center_paw: default_center_paw(),
            transparent: false,
            include_overlay: None,
        }
    }
}

/// Width and height a query asks for: each custom dimension that is given,
/// and for one that is not, the preset's, else 3840 x 2160.
pub open spec fn query_dimensions(q: &FlagQuery) -> (u32, u32) {
    let (base_w, base_h) = match q.preset {
        Some(p) => preset_dimensions(p),
        None => (3840u32, 2160u32),
    };
    (
        match q.width {
            Some(w) => w,
            None => base_w,
        },
        match q.height {
            Some(h) => h,
            None => base_h,
        },
    )
}

/// The flag type of a query: its pride preset, the bear flag by default.
pub open spec fn query_flag(q: &FlagQuery) -> PrideFlagPreset {
    match q.pride {
        Some(p) => p,
        None => PrideFlagPreset::Bear,
    }
}

/// The palette a query asks for: its custom colors when given (or the
/// error parsing them raises), else its flag type's palette.
pub open spec fn query_palette(q: &FlagQuery) -> Result<Seq<u32>, Seq<char>> {
    match q.colors {
        Some(c) => parsed_colors(c@),
        None => Ok(preset_palette(query_flag(q))),
    }
}

/// Number of stripes for a palette of `len` colors: one per color (at most `u32::MAX`).
pub open spec fn stripes_for(len: nat) -> u32 {
    if len <= u32::MAX {
        len as u32
    } else {
        u32::MAX
    }
}

/// `c` is the configuration that query `q` asks for, with palette `palette`.
pub open spec fn is_query_config(c: &FlagConfig, q: &FlagQuery, palette: Seq<u32>) -> bool {
    &&& (c.width, c.height) == query_dimensions(q)
    &&& c.output_path@ == "bear_flag."@ + format_extension(q.format)
    &&& c.output_format == q.format
    &&& c.quality == DEFAULT_QUALITY
    &&& c.palette@ == palette
    &&& c.stripe_count == (match q.stripe_count {
        Some(n) => n,
        None => stripes_for(palette.len()),
    })
    &&& c.paw_size_ratio_bits == q.paw_size_bits
    &&& c.center_paw == q.center_paw
    &&& c.transparent == q.transparent
    &&& c.include_overlay == (match q.include_overlay {
        Some(b) => b,
        None => query_flag(q) == PrideFlagPreset::Bear,
    })
}

impl FlagQuery {
    /// Converts query parameters to a flag configuration. Dimensions, each
    /// on its own: custom value > preset > 3840 x 2160. Palette: custom colors >
    /// pride preset > bear flag. Stripes default to one per color, the
    /// overlay to whether the flag type carries it. Invalid custom colors
    /// are an invalid configuration.
    pub fn to_config(&self) -> (r: Result<FlagConfig, FlagError>)
        ensures
            match query_palette(self) {
                Ok(p) => r matches Ok(c) && is_query_config(&c, self, p),
                Err(m) => r matches Err(FlagError::InvalidConfig(msg)) && msg@ == m,
            },
    {
        let (base_w, base_h) = match self.preset {
            Some(p) => p.dimensions(),
            None => (3840, 2160),
        };
        let width = match self.width {
            Some(w) => w,
            None => base_w,
        };
        let height = match self.height {
            Some(h) => h,
            None => base_h,
        };
        let flag = match self.pride {
            Some(p) => p,
            None => PrideFlagPreset::Bear,
        };
        let palette: Vec<u32> = match &self.colors {
            Some(c) => match parse_colors(c.as_str()) {
                Ok(p) => p,
                Err(e) => return Err(e),
            },
            None => vstd::slice::slice_to_vec(flag.palette()),
        };
        let stripe_count = match self.stripe_count {
            Some(n) => n,
            None => if palette.len() <= 0xFFFF_FFFF {
                palette.len() as u32
            } else {
                0xFFFF_FFFF
            },
        };
        let include_overlay = match self.include_overlay {
            Some(b) => b,
            None => flag.includes_overlay(),
        };
        let mut output_path = String::from_str("bear_flag.");
        output_path.append(self.format.extension());
        Ok(FlagConfig {
            width,
            height,
            output_path,
            output_format: self.format,
            quality: DEFAULT_QUALITY,
            palette,
            stripe_count,
            paw_size_ratio_bits: self.paw_size_bits,
            center_paw: self.center_paw,
            transparent: self.transparent,
            include_overlay,
        })
    }
}

impl FlagConfig {
    /// JPEG stores no transparency: turns a transparent background off for
    /// JPEG output, and tells whether it did.
    pub fn drop_unsupported_transparency(&mut self) -> (dropped: bool)
        ensures
            dropped == (old(self).transparent && old(self).output_format == OutputFormat::Jpeg),
            final(self).transparent == (old(self).transparent && old(self).output_format != OutputFormat::Jpeg),
            final(self).transparent ==> final(self).output_format.spec_supports_alpha(),
            final(self).width == old(self).width,
            final(self).height == old(self).height,
            final(self).output_path@ == old(self).output_path@,
            final(self).output_format == old(self).output_format,
            final(self).quality == old(self).quality,
            final(self).palette@ == old(self).palette@,
            final(self).stripe_count == old(self).stripe_count,
            final(self).paw_size_ratio_bits == old(self).paw_size_ratio_bits,
            final(self).center_paw == old(self).center_paw,
            final(self).include_overlay == old(self).include_overlay,
    {
        if self.transparent && self.output_format == OutputFormat::Jpeg {
            self.transparent = false;
            true
        } else {
            false
        }
    }
}

/// A query that leaves dimensions to a preset (or the default), colors to
/// a pride preset and the stripe count to the palette, with a paw size in
/// range, asks for a configuration that passes validation.
pub proof fn preset_query_config_is_valid(c: &FlagConfig, q: &FlagQuery)
    requires
        q.width is None,
        q.height is None,
        q.colors is None,
        q.stripe_count is None,
        paw_ratio_in_range(q.paw_size_bits),
        is_query_config(c, q, preset_palette(query_flag(q))),
    ensures
        c.is_valid(),
{
    let p = preset_palette(query_flag(q));
    assert(p.len() > 0 && p.len() <= 14) by {
        match query_flag(q) {
            PrideFlagPreset::Rainbow => {},
            PrideFlagPreset::Bear => {},
            PrideFlagPreset::Bisexual => {},
            PrideFlagPreset::Transgender => {},
            PrideFlagPreset::Pansexual => {},
            PrideFlagPreset::Lesbian => {},
            PrideFlagPreset::Asexual => {},
            PrideFlagPreset::NonBinary => {},
            PrideFlagPreset::Progress => {},
        }
    }
    assert(0 < c.width <= MAX_DIMENSION && 0 < c.height <= MAX_DIMENSION) by {
        match q.preset {
            Some(d) => match d {
                DevicePreset::IPhone14ProMax => {},
                DevicePreset::IPhone14Pro => {},
                DevicePreset::IPhone14 => {},
                DevicePreset::IPhoneSE => {},
                DevicePreset::IPadPro129 => {},
                DevicePreset::IPadPro11 => {},
                DevicePreset::IPadAir => {},
                DevicePreset::AndroidQHD => {},
                DevicePreset::AndroidFHD => {},
                DevicePreset::Desktop4K => {},
                DevicePreset::Desktop1440p => {},
                DevicePreset::Desktop1080p => {},
            },
            None => {},
        }
    }
}

/// Two queries equal in everything but the `transparent` setting.
pub open spec fn same_query_but_transparency(a: &FlagQuery, b: &FlagQuery) -> bool {
    &&& a.preset == b.preset
    &&& a.pride == b.pride
    &&& a.width == b.width
    &&& a.height == b.height
    &&& a.format == b.format
    &&& (match (a.colors, b.colors) {
        (Some(x), Some(y)) => x@ == y@,
        (None, None) => true,
        _ => false,
    })
    &&& a.stripe_count == b.stripe_count
    &&& a.paw_size_bits == b.paw_size_bits
    &&& a.center_paw == b.center_paw
    &&& a.include_overlay == b.include_overlay
}

/// For JPEG output a query's `transparent` setting makes no difference:
/// queries that differ only in it ask for the same palette, and for
/// configurations that, before or after turning transparency off for JPEG,
/// encode (with the same paw) to the same result.
pub proof fn jpeg_query_ignores_transparency(
    qa: &FlagQuery,
    qb: &FlagQuery,
    ca: &FlagConfig,
    cb: &FlagConfig,
    paw: Option<Canvas>,
)
    requires
        same_query_but_transparency(qa, qb),
        qa.format == OutputFormat::Jpeg,
        query_palette(qa) is Ok,
        is_query_config(ca, qa, query_palette(qa)->Ok_0),
        is_query_config(cb, qb, query_palette(qb)->Ok_0),
    ensures
        query_palette(qa) == query_palette(qb),
        same_but_transparency(ca, cb),
        encoding_of(rows_bytes(flag_picture(ca, paw)), ca.width, ca.height, ca.output_format)
            == encoding_of(rows_bytes(flag_picture(cb, paw)), cb.width, cb.height, cb.output_format),
{
    jpeg_ignores_transparency(ca, cb, paw);
}

/// How a query's parts fix the configuration: each given dimension is
/// taken as it is and a missing one comes from the preset (else 3840 x
/// 2160); without custom colors the palette is the pride preset's (the bear
/// flag's by default); the stripe count defaults to one per color; format,
/// paw and background settings are passed through; and an unset overlay is
/// on exactly for the bear flag, whether asked for by name or by default.
pub proof fn query_config_follows_its_parts(q: &FlagQuery, c: &FlagConfig, palette: Seq<u32>)
    requires
        is_query_config(c, q, palette),
    ensures
        q.width matches Some(w) ==> c.width == w,
        q.height matches Some(h) ==> c.height == h,
        q.width is None ==> c.width == (match q.preset {
            Some(d) => preset_dimensions(d).0,
            None => 3840,
        }),
        q.height is None ==> c.height == (match q.preset {
            Some(d) => preset_dimensions(d).1,
            None => 2160,
        }),
        q.colors is None ==> query_palette(q) == Ok::<Seq<u32>, Seq<char>>(preset_palette(
            match q.pride {
                Some(p) => p,
                None => PrideFlagPreset::Bear,
            },
        )),
        c.palette@ == palette,
        q.stripe_count matches Some(n) ==> c.stripe_count == n,
        q.stripe_count is None && palette.len() <= u32::MAX ==> c.stripe_count == palette.len(),
        c.output_format == q.format,
        c.paw_size_ratio_bits == q.paw_size_bits,
        c.center_paw == q.center_paw,
        c.transparent == q.transparent,
        q.include_overlay matches Some(b) ==> c.include_overlay == b,
        q.include_overlay is None ==> (c.include_overlay <==> (q.pride is None || q.pride == Some(
            PrideFlagPreset::Bear,
        ))),
{
}

/// With the overlay left unset, naming the bear flag and leaving the flag
/// type out give the same overlay setting (the paw is drawn).
pub proof fn bear_flag_by_name_keeps_the_overlay(
    named: &FlagQuery,
    unnamed: &FlagQuery,
    c_named: &FlagConfig,
    c_unnamed: &FlagConfig,
    palette: Seq<u32>,
)
    requires
        named.pride == Some(PrideFlagPreset::Bear),
        unnamed.pride is None,
        named.include_overlay is None,
        unnamed.include_overlay is None,
        is_query_config(c_named, named, palette),
        is_query_config(c_unnamed, unnamed, palette),
    ensures
        c_named.include_overlay,
        c_unnamed.include_overlay,
{
}

} // verus!
