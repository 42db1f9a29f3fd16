//! Flag composition (stripes and paw overlay) and encoding.

use vstd::prelude::*;

use crate::config::FlagConfig;
use crate::error::FlagError;
use crate::raster::{
    Canvas, Rgba, composite_with_alpha, composited, draw_flag_stripes, lemma_row_bytes_len, pixel_bytes, row_bytes,
    rows_bytes, with_stripes,
};
use crate::types::OutputFormat;

verus! {

/// Channel layout of a raw 8-bit pixel buffer.
#[derive(Clone, Copy, Debug, PartialEq, Eq, Structural)]
pub enum PixelLayout {
    /// Red, green, blue
    Rgb8,
    /// Red, green, blue, alpha
    Rgba8,
}

/// Bytes per pixel of a layout.
pub open spec fn layout_channels(layout: PixelLayout) -> nat {
    match layout {
        PixelLayout::Rgb8 => 3,
        PixelLayout::Rgba8 => 4,
    }
}

/// The encoded file that the `image` crate produces for a raw pixel buffer
/// of the given size and layout in the given format, or `None` where it
/// reports an error.
pub uninterp spec fn encoded_image(pixels: Seq<u8>, width: u32, height: u32, layout: PixelLayout, format: OutputFormat) -> Option<Seq<u8>>;

/// An RGBA byte buffer with every fourth (alpha) byte removed.
pub open spec fn drop_alpha(rgba: Seq<u8>) -> Seq<u8>
    decreases rgba.len(),
{
    if rgba.len() < 4 {
        Seq::empty()
    } else {
        seq![rgba[0], rgba[1], rgba[2]] + drop_alpha(rgba.subrange(4, rgba.len() as int))
    }
}

proof fn lemma_drop_alpha_len(rgba: Seq<u8>, pixels: nat)
    requires
        rgba.len() == 4 * pixels,
    ensures
        drop_alpha(rgba).len() == 3 * pixels,
    decreases pixels,
{
    if pixels > 0 {
        lemma_drop_alpha_len(rgba.subrange(4, rgba.len() as int), (pixels - 1) as nat);
    }
}

/// Encodes a raw pixel buffer with `image::write_buffer_with_format` into
/// memory. Trusted: the result is whatever `encoded_image` names for these
/// arguments; nothing is claimed about which inputs the encoders accept.
#[verifier::external_body]
fn encode_pixels(pixels: &[u8], width: u32, height: u32, layout: PixelLayout, format: OutputFormat) -> (r: Result<Vec<u8>, image::ImageError>)
    requires
        pixels@.len() == layout_channels(layout) * width * height,
    ensures
        match r {
            Ok(bytes) => encoded_image(pixels@, width, height, layout, format) == Some(bytes@),
            Err(_) => encoded_image(pixels@, width, height, layout, format) is None,
        },
{
    let color = match layout {
        PixelLayout::Rgb8 => image::ExtendedColorType::Rgb8,
        PixelLayout::Rgba8 => image::ExtendedColorType::Rgba8,
    };
    let image_format = match format {
        OutputFormat::Png => image::ImageFormat::Png,
        OutputFormat::Jpeg => image::ImageFormat::Jpeg,
        OutputFormat::WebP => image::ImageFormat::WebP,
    };
    let mut out: Vec<u8> = Vec::new();
    image::write_buffer_with_format(&mut std::io::Cursor::new(&mut out), pixels, width, height, color, image_format)?;
    Ok(out)
}

/// Converts an RGBA image to RGB with `DynamicImage::to_rgb8`. Trusted: for
/// an 8-bit sRGB RGBA buffer the `image` crate copies red, green and blue of
/// each pixel and drops alpha (`subpixel_cast_rgba_to_rgb`).
#[verifier::external_body]
fn rgba8_to_rgb8(width: u32, height: u32, rgba: Vec<u8>) -> (rgb: Vec<u8>)
    requires
        rgba@.len() == 4 * width * height,
    ensures
        rgb@ == drop_alpha(rgba@),
{
    let buffer = image::RgbaImage::from_raw(width, height, rgba).unwrap();
    image::DynamicImage::ImageRgba8(buffer).to_rgb8().into_raw()
}

/// The bytes that encoding a width x height RGBA picture (given as RGBA
/// bytes) produces: JPEG stores no alpha, so its input is converted to RGB.
pub open spec fn encoding_of(rgba: Seq<u8>, width: u32, height: u32, format: OutputFormat) -> Option<Seq<u8>> {
    if format == OutputFormat::Jpeg {
        encoded_image(drop_alpha(rgba), width, height, PixelLayout::Rgb8, format)
    } else {
        encoded_image(rgba, width, height, PixelLayout::Rgba8, format)
    }
}

/// Encodes a canvas in `format`; JPEG output drops the alpha channel.
pub fn encode_canvas(canvas: &Canvas, format: OutputFormat) -> (r: Result<Vec<u8>, FlagError>)
    requires
        canvas.wf(),
    ensures
        match encoding_of(rows_bytes(canvas.view_rows()), canvas.spec_width(), canvas.spec_height(), format) {
            Some(bytes) => r matches Ok(out) && out@ == bytes,
            None => r matches Err(FlagError::ImageEncode { format: f, .. }) && f == format,
        },
{
    let width = canvas.width();
    let height = canvas.height();
    let rgba = canvas.to_rgba_bytes();
    let encoded = if format == OutputFormat::Jpeg {
        proof {
            assert(4 * width * height == 4 * ((width * height) as nat)) by (nonlinear_arith);
            lemma_drop_alpha_len(rgba@, (width * height) as nat);
            assert(3 * ((width * height) as nat) == 3 * width * height) by (nonlinear_arith);
        }
        let rgb = rgba8_to_rgb8(width, height, rgba);
        encode_pixels(rgb.as_slice(), width, height, PixelLayout::Rgb8, format)
    } else {
        encode_pixels(rgba.as_slice(), width, height, PixelLayout::Rgba8, format)
    };
    match encoded {
        Ok(bytes) => Ok(bytes),
        Err(source) => Err(FlagError::ImageEncode { format, source }),
    }
}

/// `a - b`, or 0 where `b > a`.
pub open spec fn sat_sub(a: u32, b: u32) -> u32 {
    if a > b { (a - b) as u32 } else { 0 }
}

/// Top-left corner of a `paw_w` x `paw_h` paw on a `width` x `height` flag:
/// centered, or in the bottom-left corner.
pub open spec fn paw_offset(width: u32, height: u32, paw_w: u32, paw_h: u32, center: bool) -> (u32, u32) {
    if center {
        (sat_sub(width, paw_w) / 2, sat_sub(height, paw_h) / 2)
    } else {
        (0, sat_sub(height, paw_h))
    }
}

/// A paw no larger than the flag lies wholly on it, wherever it is placed;
/// a centered paw has equal margins on both sides, up to one pixel.
pub proof fn paw_fits_on_flag(width: u32, height: u32, paw_w: u32, paw_h: u32, center: bool)
    requires
        paw_w <= width,
        paw_h <= height,
    ensures
        ({
            let (ox, oy) = paw_offset(width, height, paw_w, paw_h, center);
            &&& ox + paw_w <= width
            &&& oy + paw_h <= height
            &&& center ==> 0 <= (width - paw_w - ox) - ox <= 1
            &&& center ==> 0 <= (height - paw_h - oy) - oy <= 1
            &&& !center ==> ox == 0 && oy + paw_h == height
        }),
{
}

/// Where the paw goes: centered on the flag, or bottom-left.
pub fn paw_position(width: u32, height: u32, paw_w: u32, paw_h: u32, center: bool) -> (pos: (u32, u32))
    ensures
        pos == paw_offset(width, height, paw_w, paw_h, center),
{
    if center {
        (width.saturating_sub(paw_w) / 2, height.saturating_sub(paw_h) / 2)
    } else {
        (0, height.saturating_sub(paw_h))
    }
}

/// The background pixel: black, fully transparent or fully opaque.
pub open spec fn background_pixel(transparent: bool) -> Rgba {
    Rgba { r: 0, g: 0, b: 0, a: if transparent { 0 } else { 255 } }
}

/// A `width` x `height` picture of background pixels.
pub open spec fn background(width: int, height: int, transparent: bool) -> Seq<Seq<Rgba>> {
    Seq::new(height as nat, |y: int| Seq::new(width as nat, |x: int| background_pixel(transparent)))
}

/// The flag picture for a configuration: the stripes drawn over a black
/// background (transparent or opaque as configured), then, when the overlay
/// is on and a paw is given, the paw laid over them at its position.
pub open spec fn flag_picture(config: &FlagConfig, paw: Option<Canvas>) -> Seq<Seq<Rgba>> {
    let striped = with_stripes(
        background(config.width as int, config.height as int, config.transparent),
        config.palette@,
        config.stripe_count as int,
        config.width as int,
        config.height as int,
    );
    match paw {
        Some(p) if config.include_overlay => {
            let (ox, oy) = paw_offset(config.width, config.height, p.spec_width(), p.spec_height(), config.center_paw);
            composited(striped, p.view_rows(), p.spec_width() as int, p.spec_height() as int, ox as int, oy as int)
        },
        _ => striped,
    }
}

/// Draws the flag of a valid configuration: stripes, then the paw overlay
/// when it is on and a paw is given.
pub fn draw_flag(config: &FlagConfig, paw: &Option<Canvas>) -> (canvas: Canvas)
    requires
        config.is_valid(),
        *paw matches Some(p) ==> p.wf(),
    ensures
        canvas.wf(),
        canvas.spec_width() == config.width,
        canvas.spec_height() == config.height,
        canvas.view_rows() == flag_picture(config, *paw),
{
    let fill = Rgba { r: 0, g: 0, b: 0, a: if config.transparent { 0 } else { 255 } };
    let mut canvas = Canvas::from_pixel(config.width, config.height, fill);
    let ghost bg = background(config.width as int, config.height as int, config.transparent);
    assert(canvas.view_rows() =~= bg) by {
        assert forall|y: int| 0 <= y < config.height implies #[trigger] canvas.view_rows()[y] =~= bg[y] by {
            assert forall|x: int| 0 <= x < config.width implies canvas.view_rows()[y][x] == bg[y][x] by {
                assert(canvas.pixel_at(x, y) == fill);
            }
        }
    }
    draw_flag_stripes(&mut canvas, config.palette.as_slice(), config.stripe_count, config.width, config.height);
    if config.include_overlay {
        match paw {
            Some(p) => {
                let (ox, oy) = paw_position(config.width, config.height, p.width(), p.height(), config.center_paw);
                composite_with_alpha(&mut canvas, p, ox, oy);
            },
            None => {},
        }
    }
    canvas
}

/// The paw that a rendering outcome supplies, if it succeeded.
pub open spec fn rendered_paw(paw: Option<Result<Canvas, FlagError>>) -> Option<Canvas> {
    match paw {
        Some(Ok(p)) => Some(p),
        _ => None,
    }
}

/// Generates the flag of a configuration and returns it encoded in the
/// configured format. `paw` is the outcome of rendering the paw overlay at
/// the configured size (`None` where it was not rendered); when the overlay
/// is on, a failed rendering is the error of the whole generation.
pub fn generate_flag_bytes(config: &FlagConfig, paw: Option<Result<Canvas, FlagError>>) -> (r: Result<Vec<u8>, FlagError>)
    requires
        paw matches Some(Ok(p)) ==> p.wf(),
    ensures
        !config.is_valid() ==> (r matches Err(FlagError::InvalidConfig(msg)) && msg@ == config.problem().unwrap()),
        config.is_valid() && config.include_overlay ==> (paw matches Some(Err(e)) ==> r == Err::<Vec<u8>, FlagError>(e)),
        config.is_valid() && !(config.include_overlay && paw matches Some(Err(_))) ==> match encoding_of(
            rows_bytes(flag_picture(config, rendered_paw(paw))),
            config.width,
            config.height,
            config.output_format,
        ) {
            Some(bytes) => r matches Ok(out) && out@ == bytes,
            None => r matches Err(FlagError::ImageEncode { format: f, .. }) && f == config.output_format,
        },
{
    match config.validate() {
        Ok(()) => {},
        Err(e) => return Err(e),
    }
    let overlay: Option<Canvas> = match paw {
        Some(Ok(p)) => Some(p),
        Some(Err(e)) => {
            if config.include_overlay {
                return Err(e);
            }
            None
        },
        None => None,
    };
    let canvas = draw_flag(config, &overlay);
    encode_canvas(&canvas, config.output_format)
}

/// Two pictures of the same shape whose pixels agree in red, green and blue
/// (alpha may differ).
pub open spec fn same_colors(x: Seq<Seq<Rgba>>, y: Seq<Seq<Rgba>>) -> bool {
    &&& x.len() == y.len()
    &&& forall|i: int| 0 <= i < x.len() ==> #[trigger] x[i].len() == y[i].len()
    &&& forall|i: int, j: int| 0 <= i < x.len() && 0 <= j < x[i].len() ==> {
        let (p, q) = (#[trigger] x[i][j], y[i][j]);
        p.r == q.r && p.g == q.g && p.b == q.b
    }
}

/// Two configurations equal in everything but the `transparent` setting.
pub open spec fn same_but_transparency(a: &FlagConfig, b: &FlagConfig) -> bool {
    &&& a.width == b.width
    &&& a.height == b.height
    &&& a.output_path@ == b.output_path@
    &&& a.output_format == b.output_format
    &&& a.quality == b.quality
    &&& a.palette@ == b.palette@
    &&& a.stripe_count == b.stripe_count
    &&& a.paw_size_ratio_bits == b.paw_size_ratio_bits
    &&& a.center_paw == b.center_paw
    &&& a.include_overlay == b.include_overlay
}

proof fn lemma_drop_alpha_append(a: Seq<u8>, b: Seq<u8>)
    requires
        a.len() % 4 == 0,
    ensures
        drop_alpha(a + b) == drop_alpha(a) + drop_alpha(b),
    decreases a.len(),
{
    if a.len() == 0 {
        assert(a + b =~= b);
        assert(drop_alpha(a) + drop_alpha(b) =~= drop_alpha(b));
    } else {
        let rest = a.subrange(4, a.len() as int);
        lemma_drop_alpha_append(rest, b);
        assert((a + b).subrange(4, (a + b).len() as int) =~= rest + b);
        assert(seq![(a + b)[0], (a + b)[1], (a + b)[2]] =~= seq![a[0], a[1], a[2]]);
        assert(drop_alpha(a + b) =~= seq![a[0], a[1], a[2]] + (drop_alpha(rest) + drop_alpha(b)));
    }
}

proof fn lemma_drop_alpha_pixel(p: Rgba)
    ensures
        drop_alpha(pixel_bytes(p)) == seq![p.r, p.g, p.b],
{
    let bytes = pixel_bytes(p);
    assert(bytes.subrange(4, 4) =~= Seq::<u8>::empty());
    assert(drop_alpha(Seq::<u8>::empty()) == Seq::<u8>::empty());
    assert(seq![p.r, p.g, p.b] + Seq::<u8>::empty() =~= seq![p.r, p.g, p.b]);
}

proof fn lemma_rows_bytes_whole_pixels(rows: Seq<Seq<Rgba>>)
    ensures
        rows_bytes(rows).len() % 4 == 0,
    decreases rows.len(),
{
    if rows.len() > 0 {
        lemma_rows_bytes_whole_pixels(rows.drop_last());
        lemma_row_bytes_len(rows.last());
    }
}

proof fn lemma_row_colors(x: Seq<Rgba>, y: Seq<Rgba>)
    requires
        x.len() == y.len(),
        forall|j: int| 0 <= j < x.len() ==> x[j].r == y[j].r && x[j].g == y[j].g && x[j].b == y[j].b,
    ensures
        drop_alpha(row_bytes(x)) == drop_alpha(row_bytes(y)),
    decreases x.len(),
{
    if x.len() > 0 {
        lemma_row_colors(x.drop_last(), y.drop_last());
        lemma_row_bytes_len(x.drop_last());
        lemma_row_bytes_len(y.drop_last());
        lemma_drop_alpha_append(row_bytes(x.drop_last()), pixel_bytes(x.last()));
        lemma_drop_alpha_append(row_bytes(y.drop_last()), pixel_bytes(y.last()));
        lemma_drop_alpha_pixel(x.last());
        lemma_drop_alpha_pixel(y.last());
    }
}

/// Pictures that agree in color give the same RGB bytes.
proof fn lemma_same_colors_same_rgb(x: Seq<Seq<Rgba>>, y: Seq<Seq<Rgba>>)
    requires
        same_colors(x, y),
    ensures
        drop_alpha(rows_bytes(x)) == drop_alpha(rows_bytes(y)),
    decreases x.len(),
{
    if x.len() > 0 {
        let (xs, ys) = (x.drop_last(), y.drop_last());
        assert(same_colors(xs, ys)) by {
            assert forall|i: int| 0 <= i < xs.len() implies #[trigger] xs[i].len() == ys[i].len() by {
                assert(xs[i] == x[i] && ys[i] == y[i]);
            }
            assert forall|i: int, j: int| 0 <= i < xs.len() && 0 <= j < xs[i].len() implies {
                let (p, q) = (#[trigger] xs[i][j], ys[i][j]);
                p.r == q.r && p.g == q.g && p.b == q.b
            } by {
                assert(xs[i] == x[i] && ys[i] == y[i]);
                assert(x[i].len() == y[i].len());
                let (p, q) = (x[i][j], y[i][j]);
                assert(p.r == q.r && p.g == q.g && p.b == q.b);
            }
        }
        lemma_same_colors_same_rgb(xs, ys);
        let (xl, yl) = (x.last(), y.last());
        assert(xl.len() == yl.len());
        assert forall|j: int| 0 <= j < xl.len() implies xl[j].r == yl[j].r && xl[j].g == yl[j].g && xl[j].b == yl[j].b by {
            let (p, q) = (x[x.len() - 1][j], y[y.len() - 1][j]);
            assert(p.r == q.r && p.g == q.g && p.b == q.b);
        }
        lemma_row_colors(xl, yl);
        lemma_rows_bytes_whole_pixels(xs);
        lemma_rows_bytes_whole_pixels(ys);
        lemma_drop_alpha_append(rows_bytes(xs), row_bytes(xl));
        lemma_drop_alpha_append(rows_bytes(ys), row_bytes(yl));
    }
}

/// Configurations that differ only in transparency draw pictures of the same colors.
proof fn lemma_transparency_changes_only_alpha(a: &FlagConfig, b: &FlagConfig, paw: Option<Canvas>)
    requires
        same_but_transparency(a, b),
    ensures
        same_colors(flag_picture(a, paw), flag_picture(b, paw)),
{
    let w = a.width as int;
    let h = a.height as int;
    let sa = with_stripes(background(w, h, a.transparent), a.palette@, a.stripe_count as int, w, h);
    let sb = with_stripes(background(w, h, b.transparent), b.palette@, b.stripe_count as int, w, h);
    assert(same_colors(sa, sb)) by {
        assert forall|i: int, j: int| 0 <= i < sa.len() && 0 <= j < sa[i].len() implies {
            let (p, q) = (#[trigger] sa[i][j], sb[i][j]);
            p.r == q.r && p.g == q.g && p.b == q.b
        } by {
            assert(background(w, h, a.transparent)[i][j] == background_pixel(a.transparent));
            assert(background(w, h, b.transparent)[i][j] == background_pixel(b.transparent));
        }
    }
    match paw {
        Some(p) => {
            if a.include_overlay {
                let (ox, oy) = paw_offset(a.width, a.height, p.spec_width(), p.spec_height(), a.center_paw);
                let ca = composited(sa, p.view_rows(), p.spec_width() as int, p.spec_height() as int, ox as int, oy as int);
                let cb = composited(sb, p.view_rows(), p.spec_width() as int, p.spec_height() as int, ox as int, oy as int);
                assert forall|i: int, j: int| 0 <= i < ca.len() && 0 <= j < ca[i].len() implies {
                    let (u, v) = (#[trigger] ca[i][j], cb[i][j]);
                    u.r == v.r && u.g == v.g && u.b == v.b
                } by {
                    let (u, v) = (sa[i][j], sb[i][j]);
                    assert(u.r == v.r && u.g == v.g && u.b == v.b);
                }
                assert(same_colors(ca, cb));
            }
        },
        None => {},
    }
}

/// For JPEG output the transparency setting makes no difference: two
/// configurations that differ only in it encode (with the same paw) to the
/// same result.
pub proof fn jpeg_ignores_transparency(a: &FlagConfig, b: &FlagConfig, paw: Option<Canvas>)
    requires
        same_but_transparency(a, b),
        a.output_format == OutputFormat::Jpeg,
    ensures
        encoding_of(rows_bytes(flag_picture(a, paw)), a.width, a.height, a.output_format)
            == encoding_of(rows_bytes(flag_picture(b, paw)), b.width, b.height, b.output_format),
{
    lemma_transparency_changes_only_alpha(a, b, paw);
    lemma_same_colors_same_rgb(flag_picture(a, paw), flag_picture(b, paw));
}

/// Every format is handed to the encoder as requested: PNG and WebP get the
/// RGBA bytes with their own format; JPEG gets the RGB bytes (alpha dropped)
/// with the JPEG format. Width and height go in that order.
pub proof fn encoding_uses_the_requested_format(rgba: Seq<u8>, width: u32, height: u32, format: OutputFormat)
    ensures
        format != OutputFormat::Jpeg ==> encoding_of(rgba, width, height, format) == encoded_image(
            rgba,
            width,
            height,
            PixelLayout::Rgba8,
            format,
        ),
        format == OutputFormat::Jpeg ==> encoding_of(rgba, width, height, format) == encoded_image(
            drop_alpha(rgba),
            width,
            height,
            PixelLayout::Rgb8,
            OutputFormat::Jpeg,
        ),
{
}

/// Dropping alpha keeps the red, green and blue bytes of every pixel, in
/// order: byte `c` of pixel `j` moves from `4 * j + c` to `3 * j + c`.
pub proof fn drop_alpha_keeps_the_colors(rgba: Seq<u8>, j: int, c: int)
    requires
        rgba.len() % 4 == 0,
        0 <= j < rgba.len() / 4,
        0 <= c < 3,
    ensures
        drop_alpha(rgba).len() == 3 * (rgba.len() / 4),
        drop_alpha(rgba)[3 * j + c] == rgba[4 * j + c],
    decreases rgba.len(),
{
    let rest = rgba.subrange(4, rgba.len() as int);
    lemma_drop_alpha_len(rgba, (rgba.len() / 4) as nat);
    lemma_drop_alpha_len(rest, (rest.len() / 4) as nat);
    if j > 0 {
        drop_alpha_keeps_the_colors(rest, j - 1, c);
        assert(rest[4 * (j - 1) + c] == rgba[4 * j + c]);
    }
}

} // verus!
