//! RGBA raster canvas with stripe drawing and alpha compositing.

use vstd::prelude::*;

verus! {

/// An RGBA pixel with 8 bits per channel.
#[derive(Clone, Copy, Debug, PartialEq, Eq, Structural)]
pub struct Rgba {
    pub r: u8,
    pub g: u8,
    pub b: u8,
    pub a: u8,
}

/// A width x height RGBA image stored row by row.
pub struct Canvas {
    width: u32,
    height: u32,
    rows: Vec<Vec<Rgba>>,
}

/// Rows of `width` pixels, `height` of them.
pub open spec fn well_shaped(rows: Seq<Seq<Rgba>>, width: int, height: int) -> bool {
    &&& rows.len() == height
    &&& forall|y: int| 0 <= y < height ==> #[trigger] rows[y].len() == width
}

impl Canvas {
    /// The pixels of the canvas, row by row.
    pub closed spec fn view_rows(&self) -> Seq<Seq<Rgba>> {
        self.rows@.map_values(|r: Vec<Rgba>| r@)
    }

    /// Width in pixels.
    pub closed spec fn spec_width(&self) -> u32 {
        self.width
    }

    /// Height in pixels.
    pub closed spec fn spec_height(&self) -> u32 {
        self.height
    }

    /// The pixel at column `x` of row `y`.
    pub open spec fn pixel_at(&self, x: int, y: int) -> Rgba {
        self.view_rows()[y][x]
    }

    /// The canvas holds `height` rows of `width` pixels.
    pub open spec fn wf(&self) -> bool {
        well_shaped(self.view_rows(), self.spec_width() as int, self.spec_height() as int)
    }

    /// Creates a canvas where every pixel is `pixel`.
    pub fn from_pixel(width: u32, height: u32, pixel: Rgba) -> (canvas: Canvas)
        ensures
            canvas.wf(),
            canvas.spec_width() == width,
            canvas.spec_height() == height,
            forall|x: int, y: int|
                0 <= x < width && 0 <= y < height ==> #[trigger] canvas.pixel_at(x, y) == pixel,
    {
        let mut rows: Vec<Vec<Rgba>> = Vec::new();
        let mut y: u32 = 0;
        while y < height
            invariant
                y <= height,
                rows@.len() == y,
                forall|j: int| 0 <= j < y ==> #[trigger] rows@[j]@.len() == width,
                forall|j: int, x: int| 0 <= j < y && 0 <= x < width ==> #[trigger] rows@[j]@[x] == pixel,
            decreases height - y,
        {
            let mut row: Vec<Rgba> = Vec::new();
            let mut x: u32 = 0;
            while x < width
                invariant
                    x <= width,
                    row@.len() == x,
                    forall|i: int| 0 <= i < x ==> #[trigger] row@[i] == pixel,
                decreases width - x,
            {
                row.push(pixel);
                x = x + 1;
            }
            rows.push(row);
            y = y + 1;
        }
        let canvas = Canvas { width, height, rows };
        assert forall|x: int, y: int| 0 <= x < width && 0 <= y < height implies #[trigger] canvas.pixel_at(x, y) == pixel by {
            assert(canvas.view_rows()[y] == canvas.rows@[y]@);
        }
        assert forall|j: int| 0 <= j < height implies #[trigger] canvas.view_rows()[j].len() == width by {
            assert(canvas.view_rows()[j] == canvas.rows@[j]@);
        }
        canvas
    }

    /// Writes one pixel.
    pub fn put_pixel(&mut self, x: u32, y: u32, pixel: Rgba)
        requires
            old(self).wf(),
            x < old(self).spec_width(),
            y < old(self).spec_height(),
        ensures
            final(self).wf(),
            final(self).spec_width() == old(self).spec_width(),
            final(self).spec_height() == old(self).spec_height(),
            final(self).view_rows() == old(self).view_rows().update(
                y as int,
                old(self).view_rows()[y as int].update(x as int, pixel),
            ),
    {
        assert(self.view_rows()[y as int] == self.rows@[y as int]@);
        let ghost old_rows = self.rows@;
        self.rows[y as usize].set(x as usize, pixel);
        assert(self.view_rows() =~= old(self).view_rows().update(
                y as int,
                old(self).view_rows()[y as int].update(x as int, pixel),
            ));
        assert forall|j: int| 0 <= j < self.height implies #[trigger] self.view_rows()[j].len() == self.width by {
            if j != y {
                assert(self.rows@[j] == old_rows[j]);
            }
        }
    }
}


/// Number of pixels over which adjacent color stripes blend.
pub const SMOOTH_WIDTH: u32 = 16;

/// `a + (b - a) * num / den`, rounded to nearest with halves rounded up.
pub open spec fn lerp_value(a: int, b: int, num: int, den: int) -> int {
    (2 * ((den - num) * a + num * b) + den) / (2 * den)
}

proof fn lemma_lerp_bounds(a: int, b: int, num: int, den: int)
    requires
        0 <= a <= 255,
        0 <= b <= 255,
        0 <= num <= den,
        0 < den,
    ensures
        0 <= lerp_value(a, b, num, den) <= 255,
        (2 * ((den - num) * a + num * b) + den) <= 2 * den * 256,
{
    assert(0 <= (den - num) * a <= (den - num) * 255) by (nonlinear_arith)
        requires 0 <= a <= 255, 0 <= num <= den;
    assert(0 <= num * b <= num * 255) by (nonlinear_arith)
        requires 0 <= b <= 255, 0 <= num;
    let t = 2 * ((den - num) * a + num * b) + den;
    assert(0 <= t < 2 * den * 256);
    assert(0 <= t / (2 * den) < 256) by (nonlinear_arith)
        requires 0 <= t < 2 * den * 256, 0 < den;
}

/// Linear interpolation between two channel values, with the factor given as
/// the fraction `t_num / t_den` (0 gives `a`, 1 gives `b`), rounded to nearest.
pub fn lerp_u8(a: u8, b: u8, t_num: u32, t_den: u32) -> (v: u8)
    requires
        0 < t_den,
        t_num <= t_den,
    ensures
        v as int == lerp_value(a as int, b as int, t_num as int, t_den as int),
{
    proof {
        lemma_lerp_bounds(a as int, b as int, t_num as int, t_den as int);
    }
    let den = t_den as u64;
    let num = t_num as u64;
    assert((den - num) * (a as u64) <= (den - num) * 255) by (nonlinear_arith)
        requires a <= 255, num <= den;
    assert(num * (b as u64) <= num * 255) by (nonlinear_arith)
        requires b <= 255;
    assert((den - num) * 255 + num * 255 == den * 255) by (nonlinear_arith);
    let total = 2 * ((den - num) * (a as u64) + num * (b as u64)) + den;
    let v = total / (2 * den);
    v as u8
}

/// Channel `shift` (16 = red, 8 = green, 0 = blue) of a 0xRRGGBB color.
pub open spec fn hex_channel(hex: u32, shift: u32) -> u8 {
    ((hex >> shift) & 0xFF) as u8
}

/// The pixel drawn in stripe `stripe` at `dist` pixels before the stripe's end:
/// the stripe's color, blended over the last `SMOOTH_WIDTH` pixels towards the
/// next stripe's color (the last stripe is not blended).
pub open spec fn stripe_pixel(palette: Seq<u32>, stripe_count: int, stripe: int, dist: int) -> Rgba {
    let cur = palette[stripe % palette.len() as int];
    let has_next = stripe + 1 < stripe_count;
    let next = if has_next { palette[(stripe + 1) % palette.len() as int] } else { cur };
    let k = if dist < SMOOTH_WIDTH && has_next { SMOOTH_WIDTH - dist } else { 0 };
    Rgba {
        r: lerp_value(hex_channel(cur, 16) as int, hex_channel(next, 16) as int, k, 16) as u8,
        g: lerp_value(hex_channel(cur, 8) as int, hex_channel(next, 8) as int, k, 16) as u8,
        b: lerp_value(hex_channel(cur, 0) as int, hex_channel(next, 0) as int, k, 16) as u8,
        a: 255,
    }
}

/// What the stripes put at column `x` of a flag `width` pixels wide: stripe
/// `x / stripe_width` with `stripe_width = width / stripe_count`, or nothing
/// right of the last stripe.
pub open spec fn stripes_at(palette: Seq<u32>, stripe_count: int, width: int, x: int) -> Option<Rgba> {
    let sw = width / stripe_count;
    if sw == 0 || x >= stripe_count * sw {
        None
    } else {
        let i = x / sw;
        Some(stripe_pixel(palette, stripe_count, i, (i + 1) * sw - 1 - x))
    }
}

/// The picture after drawing stripes `width` pixels wide in total over rows
/// `0..height` of `old`.
pub open spec fn with_stripes(old: Seq<Seq<Rgba>>, palette: Seq<u32>, stripe_count: int, width: int, height: int) -> Seq<Seq<Rgba>> {
    Seq::new(old.len(), |y: int| Seq::new(old[y].len(), |x: int|
        match (if y < height { stripes_at(palette, stripe_count, width, x) } else { None }) {
            Some(p) => p,
            None => old[y][x],
        }))
}

/// What the bear stripes put at column `x` of an image `width` pixels wide:
/// stripe `i = x / stripe_width` has color `palette[i]` and ends at
/// `min((i + 1) * stripe_width, width)`; every stripe but the last blends
/// toward the next color over its last `SMOOTH_WIDTH` pixels. Columns past
/// the last stripe get nothing.
pub open spec fn bear_stripes_at(palette: Seq<u32>, stripe_width: int, width: int, x: int) -> Option<Rgba> {
    if stripe_width <= 0 || x >= width || x / stripe_width >= palette.len() {
        None
    } else {
        let i = x / stripe_width;
        let x_end = if (i + 1) * stripe_width < width { (i + 1) * stripe_width } else { width };
        Some(stripe_pixel(palette, palette.len() as int, i, x_end - 1 - x))
    }
}

/// The picture after drawing the bear stripes over rows `0..height` of `old`.
pub open spec fn with_bear_stripes(old: Seq<Seq<Rgba>>, palette: Seq<u32>, stripe_width: int, height: int) -> Seq<Seq<Rgba>> {
    Seq::new(old.len(), |y: int| Seq::new(old[y].len(), |x: int|
        match (if y < height { bear_stripes_at(palette, stripe_width, old[y].len() as int, x) } else { None }) {
            Some(p) => p,
            None => old[y][x],
        }))
}

proof fn lemma_stripe_geometry(width: int, count: int, x: int)
    requires
        0 < count,
        0 <= x,
        0 < width / count,
        x < count * (width / count),
    ensures
        0 <= x / (width / count) < count,
        (x / (width / count)) * (width / count) <= x,
        x < (x / (width / count) + 1) * (width / count),
        (x / (width / count) + 1) * (width / count) <= count * (width / count),
        count * (width / count) <= width,
{
    let sw = width / count;
    let i = x / sw;
    assert(count * sw <= width) by (nonlinear_arith)
        requires sw == width / count, 0 < count;
    assert(i * sw <= x < (i + 1) * sw) by (nonlinear_arith)
        requires i == x / sw, 0 < sw, 0 <= x;
    assert(0 <= i < count) by (nonlinear_arith)
        requires i * sw <= x, x < count * sw, 0 < sw, 0 <= x, i == x / sw;
    assert((i + 1) * sw <= count * sw) by (nonlinear_arith)
        requires i < count, 0 < sw;
}

/// Sets rows `0..height` of column `x` to `pixel`.
fn paint_column(img: &mut Canvas, x: u32, height: u32, pixel: Rgba)
    requires
        old(img).wf(),
        x < old(img).spec_width(),
        height <= old(img).spec_height(),
    ensures
        final(img).wf(),
        final(img).spec_width() == old(img).spec_width(),
        final(img).spec_height() == old(img).spec_height(),
        forall|xx: int, yy: int| 0 <= xx < old(img).spec_width() && 0 <= yy < old(img).spec_height() ==>
            #[trigger] final(img).view_rows()[yy][xx] == if xx == x && yy < height { pixel } else { old(img).view_rows()[yy][xx] },
{
    let ghost old_rows = img.view_rows();
    let ghost w = img.spec_width();
    let ghost h = img.spec_height();
    let mut y: u32 = 0;
    while y < height
        invariant
            img.wf(),
            img.spec_width() == w,
            img.spec_height() == h,
            x < w,
            y <= height <= h,
            old_rows.len() == h,
            forall|yy: int| 0 <= yy < h ==> #[trigger] old_rows[yy].len() == w,
            forall|xx: int, yy: int| 0 <= xx < w && 0 <= yy < h ==>
                #[trigger] img.view_rows()[yy][xx] == if xx == x && yy < y { pixel } else { old_rows[yy][xx] },
        decreases height - y,
    {
        let ghost before = img.view_rows();
        img.put_pixel(x, y, pixel);
        assert forall|xx: int, yy: int| 0 <= xx < w && 0 <= yy < h implies
            #[trigger] img.view_rows()[yy][xx] == if xx == x && yy < y + 1 { pixel } else { old_rows[yy][xx] } by {
            if !(yy == y && xx == x) {
                assert(img.view_rows()[yy][xx] == before[yy][xx]);
            }
        }
        y = y + 1;
    }
}

/// Computes `stripe_pixel(palette, stripe_count, stripe, dist)`.
fn stripe_pixel_of(palette: &[u32], stripe_count: u64, stripe: u64, dist: u64) -> (pixel: Rgba)
    requires
        palette@.len() > 0,
        stripe < stripe_count,
    ensures
        pixel == stripe_pixel(palette@, stripe_count as int, stripe as int, dist as int),
{
    let len = palette.len() as u64;
    let cur = palette[(stripe % len) as usize];
    let has_next = stripe + 1 < stripe_count;
    let next = if has_next { palette[((stripe + 1) % len) as usize] } else { cur };
    let k: u32 = if dist < SMOOTH_WIDTH as u64 && has_next { SMOOTH_WIDTH - dist as u32 } else { 0 };
    proof {
        assert(((cur >> 16) & 0xFF) < 256) by (bit_vector);
        assert(((next >> 16) & 0xFF) < 256) by (bit_vector);
        assert(((cur >> 8) & 0xFF) < 256) by (bit_vector);
        assert(((next >> 8) & 0xFF) < 256) by (bit_vector);
        assert((cur & 0xFF) < 256) by (bit_vector);
        assert((next & 0xFF) < 256) by (bit_vector);
        assert(cur & 0xFF == (cur >> 0) & 0xFF) by (bit_vector);
        assert(next & 0xFF == (next >> 0) & 0xFF) by (bit_vector);
    }
    Rgba {
        r: lerp_u8(((cur >> 16) & 0xFF) as u8, ((next >> 16) & 0xFF) as u8, k, 16),
        g: lerp_u8(((cur >> 8) & 0xFF) as u8, ((next >> 8) & 0xFF) as u8, k, 16),
        b: lerp_u8((cur & 0xFF) as u8, (next & 0xFF) as u8, k, 16),
        a: 255,
    }
}

/// Draws `stripe_count` vertical stripes, `width / stripe_count` pixels
/// each, over rows `0..height`, cycling through `palette`, with a smooth
/// blend over the last `SMOOTH_WIDTH` pixels of every stripe but the last.
pub fn draw_flag_stripes(img: &mut Canvas, palette: &[u32], stripe_count: u32, width: u32, height: u32)
    requires
        old(img).wf(),
        palette@.len() > 0,
        stripe_count > 0,
        width <= old(img).spec_width(),
        height <= old(img).spec_height(),
    ensures
        final(img).wf(),
        final(img).spec_width() == old(img).spec_width(),
        final(img).spec_height() == old(img).spec_height(),
        final(img).view_rows() == with_stripes(old(img).view_rows(), palette@, stripe_count as int, width as int, height as int),
{
    let ghost old_rows = img.view_rows();
    let ghost w = img.spec_width();
    let ghost h = img.spec_height();
    let ghost target = with_stripes(old_rows, palette@, stripe_count as int, width as int, height as int);
    let sw = width / stripe_count;
    let mut end: u32 = 0;
    if sw > 0 {
        proof {
            assert(stripe_count * sw <= width) by (nonlinear_arith)
                requires sw == width / stripe_count, 0 < stripe_count;
        }
        end = stripe_count * sw;
    }
    let mut x: u32 = 0;
    while x < end
        invariant
            img.wf(),
            img.spec_width() == w,
            img.spec_height() == h,
            old_rows.len() == h,
            forall|yy: int| 0 <= yy < h ==> #[trigger] old_rows[yy].len() == w,
            sw == width / stripe_count,
            sw > 0 ==> end == stripe_count * sw,
            sw == 0 ==> end == 0,
            end <= width <= w,
            height <= h,
            x <= end,
            palette@.len() > 0,
            stripe_count > 0,
            target == with_stripes(old_rows, palette@, stripe_count as int, width as int, height as int),
            forall|xx: int, yy: int| 0 <= xx < w && 0 <= yy < h ==>
                #[trigger] img.view_rows()[yy][xx] == if xx < x && yy < height { target[yy][xx] } else { old_rows[yy][xx] },
        decreases end - x,
    {
        proof {
            lemma_stripe_geometry(width as int, stripe_count as int, x as int);
        }
        let i = x / sw;
        let dist = (i + 1) * sw - (x + 1);
        let pixel = stripe_pixel_of(palette, stripe_count as u64, i as u64, dist as u64);
        let ghost before = img.view_rows();
        paint_column(img, x, height, pixel);
        assert forall|xx: int, yy: int| 0 <= xx < w && 0 <= yy < h implies
            #[trigger] img.view_rows()[yy][xx] == if xx < x + 1 && yy < height { target[yy][xx] } else { old_rows[yy][xx] } by {
            if xx == x && yy < height {
                assert(stripes_at(palette@, stripe_count as int, width as int, x as int) == Some(pixel));
            }
        }
        x = x + 1;
    }
    assert(img.view_rows() =~= target) by {
        assert forall|yy: int| 0 <= yy < h implies #[trigger] img.view_rows()[yy] =~= target[yy] by {
            assert forall|xx: int| 0 <= xx < w implies img.view_rows()[yy][xx] == target[yy][xx] by {
                if xx >= end && yy < height {
                    if sw > 0 {
                        assert(stripes_at(palette@, stripe_count as int, width as int, xx) is None);
                    }
                }
            }
        }
    }
}

/// Draws one stripe per palette color, `stripe_width` pixels each (the
/// last one cut off at the image's right edge), over rows `0..height`; every
/// stripe but the last blends toward the next color over its last
/// `SMOOTH_WIDTH` pixels.
pub fn draw_bear_stripes(img: &mut Canvas, palette: &[u32], stripe_width: u32, height: u32)
    requires
        old(img).wf(),
        palette@.len() * stripe_width <= u32::MAX,
        palette@.len() > 0 && stripe_width > 0 && old(img).spec_width() > 0 ==> height <= old(img).spec_height(),
    ensures
        final(img).wf(),
        final(img).spec_width() == old(img).spec_width(),
        final(img).spec_height() == old(img).spec_height(),
        final(img).view_rows() == with_bear_stripes(old(img).view_rows(), palette@, stripe_width as int, height as int),
{
    let ghost old_rows = img.view_rows();
    let w = img.width();
    let ghost h = img.spec_height();
    let ghost target = with_bear_stripes(old_rows, palette@, stripe_width as int, height as int);
    let len = palette.len();
    let mut end: u32 = 0;
    if len > 0 && stripe_width > 0 {
        proof {
            assert(len * stripe_width >= len) by (nonlinear_arith)
                requires len > 0, stripe_width > 0;
        }
        let covered = (len as u32) * stripe_width;
        end = if covered < w { covered } else { w };
    }
    let mut x: u32 = 0;
    while x < end
        invariant
            img.wf(),
            img.spec_width() == w,
            img.spec_height() == h,
            old_rows.len() == h,
            forall|yy: int| 0 <= yy < h ==> #[trigger] old_rows[yy].len() == w,
            len == palette@.len(),
            len * stripe_width <= u32::MAX,
            end > 0 ==> len > 0 && stripe_width > 0 && height <= h,
            end <= w,
            end > 0 ==> end == (if len * stripe_width < w { len * stripe_width } else { w as int }),
            x <= end,
            target == with_bear_stripes(old_rows, palette@, stripe_width as int, height as int),
            forall|xx: int, yy: int| 0 <= xx < w && 0 <= yy < h ==>
                #[trigger] img.view_rows()[yy][xx] == if xx < x && yy < height { target[yy][xx] } else { old_rows[yy][xx] },
        decreases end - x,
    {
        let i = x / stripe_width;
        proof {
            assert(i * stripe_width <= x < (i + 1) * stripe_width) by (nonlinear_arith)
                requires i == x / stripe_width, stripe_width > 0;
            assert(i < len) by (nonlinear_arith)
                requires i * stripe_width <= x, x < len * stripe_width, stripe_width > 0;
            assert((i + 1) * stripe_width <= len * stripe_width) by (nonlinear_arith)
                requires i < len, stripe_width > 0;
        }
        let stripe_end = (i + 1) * stripe_width;
        let x_end = if stripe_end < w { stripe_end } else { w };
        let dist = x_end - (x + 1);
        let pixel = stripe_pixel_of(palette, len as u64, i as u64, dist as u64);
        paint_column(img, x, height, pixel);
        assert forall|xx: int, yy: int| 0 <= xx < w && 0 <= yy < h implies
            #[trigger] img.view_rows()[yy][xx] == if xx < x + 1 && yy < height { target[yy][xx] } else { old_rows[yy][xx] } by {
            if xx == x && yy < height {
                assert(bear_stripes_at(palette@, stripe_width as int, w as int, x as int) == Some(pixel));
            }
        }
        x = x + 1;
    }
    assert(img.view_rows() =~= target) by {
        assert forall|yy: int| 0 <= yy < h implies #[trigger] img.view_rows()[yy] =~= target[yy] by {
            assert forall|xx: int| 0 <= xx < w implies img.view_rows()[yy][xx] == target[yy][xx] by {
                if xx >= end && yy < height {
                    if len > 0 && stripe_width > 0 {
                        assert(xx / (stripe_width as int) >= len) by (nonlinear_arith)
                            requires xx >= len * stripe_width, stripe_width > 0;
                    }
                }
            }
        }
    }
}

/// `round((a * s + (255 - a) * d) / 255)`: a channel of a source value `s`
/// with alpha `a` laid over a destination value `d`.
pub open spec fn blend_value(s: int, d: int, a: int) -> int {
    (2 * (a * s + (255 - a) * d) + 255) / 510
}

/// Source pixel `src` laid over `dst` ("over" compositing); the result is opaque.
pub open spec fn over(src: Rgba, dst: Rgba) -> Rgba {
    Rgba {
        r: blend_value(src.r as int, dst.r as int, src.a as int) as u8,
        g: blend_value(src.g as int, dst.g as int, src.a as int) as u8,
        b: blend_value(src.b as int, dst.b as int, src.a as int) as u8,
        a: 255,
    }
}

/// The pixel at (x, y) after laying `src` (of size `sw` x `sh`) over `dst`
/// with its top-left corner at (ox, oy): fully transparent source pixels and
/// pixels outside the source rectangle keep the destination value.
pub open spec fn composite_at(dst: Seq<Seq<Rgba>>, src: Seq<Seq<Rgba>>, sw: int, sh: int, ox: int, oy: int, x: int, y: int) -> Rgba {
    if ox <= x < ox + sw && oy <= y < oy + sh && src[y - oy][x - ox].a != 0 {
        over(src[y - oy][x - ox], dst[y][x])
    } else {
        dst[y][x]
    }
}

/// The picture after laying `src` over `dst` at (ox, oy).
pub open spec fn composited(dst: Seq<Seq<Rgba>>, src: Seq<Seq<Rgba>>, sw: int, sh: int, ox: int, oy: int) -> Seq<Seq<Rgba>> {
    Seq::new(dst.len(), |y: int| Seq::new(dst[y].len(), |x: int| composite_at(dst, src, sw, sh, ox, oy, x, y)))
}

proof fn lemma_blend_bounds(s: int, d: int, a: int)
    requires
        0 <= s <= 255,
        0 <= d <= 255,
        0 <= a <= 255,
    ensures
        0 <= a * s <= 65025,
        0 <= (255 - a) * d <= 65025,
        a * s + (255 - a) * d <= 65025,
        0 <= blend_value(s, d, a) <= 255,
{
    assert(0 <= a * s <= a * 255) by (nonlinear_arith) requires 0 <= s <= 255, 0 <= a;
    assert(0 <= (255 - a) * d <= (255 - a) * 255) by (nonlinear_arith) requires 0 <= d <= 255, a <= 255;
    assert(a * 255 <= 65025) by (nonlinear_arith) requires a <= 255;
}

fn blend_channel(s: u8, d: u8, a: u8) -> (v: u8)
    ensures
        v as int == blend_value(s as int, d as int, a as int),
{
    proof {
        lemma_blend_bounds(s as int, d as int, a as int);
    }
    let a32 = a as u32;
    let total = 2 * (a32 * (s as u32) + (255 - a32) * (d as u32)) + 255;
    (total / 510) as u8
}

impl Canvas {
    /// Width in pixels.
    pub fn width(&self) -> (w: u32)
        ensures
            w == self.spec_width(),
    {
        self.width
    }

    /// Height in pixels.
    pub fn height(&self) -> (h: u32)
        ensures
            h == self.spec_height(),
    {
        self.height
    }

    /// Reads one pixel.
    pub fn get_pixel(&self, x: u32, y: u32) -> (pixel: Rgba)
        requires
            self.wf(),
            x < self.spec_width(),
            y < self.spec_height(),
        ensures
            pixel == self.pixel_at(x as int, y as int),
    {
        assert(self.view_rows()[y as int] == self.rows@[y as int]@);
        self.rows[y as usize][x as usize]
    }

}

/// Lays `src` over `dst` with its top-left corner at
/// (`offset_x`, `offset_y`), using "over" alpha compositing; source pixels
/// that fall outside `dst` are skipped.
pub fn composite_with_alpha(dst: &mut Canvas, src: &Canvas, offset_x: u32, offset_y: u32)
    requires
        old(dst).wf(),
        src.wf(),
        src.spec_width() == 0 || src.spec_height() == 0 || (
            offset_x + src.spec_width() <= u32::MAX + 1 && offset_y + src.spec_height() <= u32::MAX + 1),
    ensures
        final(dst).wf(),
        final(dst).spec_width() == old(dst).spec_width(),
        final(dst).spec_height() == old(dst).spec_height(),
        final(dst).view_rows() == composited(old(dst).view_rows(), src.view_rows(),
            src.spec_width() as int, src.spec_height() as int, offset_x as int, offset_y as int),
{
    let width = dst.width;
    let height = dst.height;
    let sw = src.width;
    let sh = src.height;
    let ghost old_rows = dst.view_rows();
    let ghost src_rows = src.view_rows();
    let ghost target = composited(old_rows, src_rows, sw as int, sh as int, offset_x as int, offset_y as int);
    let mut sy: u32 = 0;
    while sy < sh
        invariant
            dst.wf(),
            src.wf(),
            src_rows == src.view_rows(),
            sw == src.spec_width(),
            sh == src.spec_height(),
            dst.spec_width() == width,
            dst.spec_height() == height,
            old_rows.len() == height,
            forall|yy: int| 0 <= yy < height ==> #[trigger] old_rows[yy].len() == width,
            sy <= sh,
            sw == 0 || sh == 0 || (offset_x + sw <= u32::MAX + 1 && offset_y + sh <= u32::MAX + 1),
            target == composited(old_rows, src_rows, sw as int, sh as int, offset_x as int, offset_y as int),
            forall|xx: int, yy: int| 0 <= xx < width && 0 <= yy < height ==>
                #[trigger] dst.view_rows()[yy][xx] == if offset_y <= yy < offset_y + sy { target[yy][xx] } else { old_rows[yy][xx] },
        decreases sh - sy,
    {
        let mut sx: u32 = 0;
        while sx < sw
            invariant
                dst.wf(),
                src.wf(),
                src_rows == src.view_rows(),
                sw == src.spec_width(),
                sh == src.spec_height(),
                dst.spec_width() == width,
                dst.spec_height() == height,
                old_rows.len() == height,
                forall|yy: int| 0 <= yy < height ==> #[trigger] old_rows[yy].len() == width,
                sy < sh,
                sx <= sw,
                sw == 0 || (offset_x + sw <= u32::MAX + 1 && offset_y + sh <= u32::MAX + 1),
                target == composited(old_rows, src_rows, sw as int, sh as int, offset_x as int, offset_y as int),
                forall|xx: int, yy: int| 0 <= xx < width && 0 <= yy < height ==>
                    #[trigger] dst.view_rows()[yy][xx] == if offset_y <= yy < offset_y + sy
                        || (yy == offset_y + sy && offset_x <= xx < offset_x + sx) { target[yy][xx] } else { old_rows[yy][xx] },
            decreases sw - sx,
        {
            let dst_x = offset_x + sx;
            let dst_y = offset_y + sy;
            if dst_x < width && dst_y < height {
                let sp = src.get_pixel(sx, sy);
                if sp.a != 0 {
                    let dp = dst.get_pixel(dst_x, dst_y);
                    let blended = Rgba {
                        r: blend_channel(sp.r, dp.r, sp.a),
                        g: blend_channel(sp.g, dp.g, sp.a),
                        b: blend_channel(sp.b, dp.b, sp.a),
                        a: 255,
                    };
                    let ghost before = dst.view_rows();
                    assert(dp == old_rows[dst_y as int][dst_x as int]);
                    assert(target[dst_y as int][dst_x as int] == blended);
                    dst.put_pixel(dst_x, dst_y, blended);
                    assert forall|xx: int, yy: int| 0 <= xx < width && 0 <= yy < height && !(xx == dst_x && yy == dst_y) implies
                        #[trigger] dst.view_rows()[yy][xx] == before[yy][xx] by {}
                } else {
                    assert(target[dst_y as int][dst_x as int] == old_rows[dst_y as int][dst_x as int]);
                }
            }
            sx = sx + 1;
        }
        assert forall|xx: int, yy: int| 0 <= xx < width && 0 <= yy < height && yy == offset_y + sy && !(offset_x <= xx < offset_x + sw) implies
            #[trigger] target[yy][xx] == old_rows[yy][xx] by {}
        sy = sy + 1;
    }
    assert forall|xx: int, yy: int| 0 <= xx < width && 0 <= yy < height && !(offset_y <= yy < offset_y + sh) implies
        #[trigger] target[yy][xx] == old_rows[yy][xx] by {}
    assert(dst.view_rows() =~= target) by {
        assert forall|yy: int| 0 <= yy < height implies #[trigger] dst.view_rows()[yy] =~= target[yy] by {
            assert forall|xx: int| 0 <= xx < width implies dst.view_rows()[yy][xx] == target[yy][xx] by {
                if !(offset_y <= yy < offset_y + sh) {
                    assert(target[yy][xx] == old_rows[yy][xx]);
                }
            }
        }
    }
}


/// The four bytes (R, G, B, A) of a pixel.
pub open spec fn pixel_bytes(p: Rgba) -> Seq<u8> {
    seq![p.r, p.g, p.b, p.a]
}

/// The RGBA bytes of a row of pixels, left to right.
pub open spec fn row_bytes(row: Seq<Rgba>) -> Seq<u8>
    decreases row.len(),
{
    if row.len() == 0 {
        Seq::empty()
    } else {
        row_bytes(row.drop_last()) + pixel_bytes(row.last())
    }
}

/// The RGBA bytes of a picture, row after row from the top (the layout
/// of an 8-bit RGBA image buffer).
pub open spec fn rows_bytes(rows: Seq<Seq<Rgba>>) -> Seq<u8>
    decreases rows.len(),
{
    if rows.len() == 0 {
        Seq::empty()
    } else {
        rows_bytes(rows.drop_last()) + row_bytes(rows.last())
    }
}

pub(crate) proof fn lemma_row_bytes_len(row: Seq<Rgba>)
    ensures
        row_bytes(row).len() == 4 * row.len(),
    decreases row.len(),
{
    if row.len() > 0 {
        lemma_row_bytes_len(row.drop_last());
    }
}

proof fn lemma_rows_bytes_len(rows: Seq<Seq<Rgba>>, width: int)
    requires
        0 <= width,
        forall|y: int| 0 <= y < rows.len() ==> #[trigger] rows[y].len() == width,
    ensures
        rows_bytes(rows).len() == 4 * width * rows.len(),
    decreases rows.len(),
{
    if rows.len() > 0 {
        let prefix = rows.drop_last();
        assert forall|y: int| 0 <= y < prefix.len() implies #[trigger] prefix[y].len() == width by {
            assert(prefix[y] == rows[y]);
        }
        lemma_rows_bytes_len(prefix, width);
        lemma_row_bytes_len(rows.last());
        assert(4 * width * (rows.len() - 1) + 4 * width == 4 * width * rows.len()) by (nonlinear_arith);
    }
}

proof fn lemma_pixel_offset(width: int, height: int, x: int, y: int)
    requires
        0 <= x < width,
        0 <= y < height,
    ensures
        4 * width * y + 4 * x + 4 <= 4 * width * height,
{
    assert(4 * width * y + 4 * width <= 4 * width * height) by (nonlinear_arith)
        requires y < height, 0 <= width;
}

impl Canvas {
    /// Creates a canvas of fully transparent black pixels.
    pub fn new(width: u32, height: u32) -> (canvas: Canvas)
        ensures
            canvas.wf(),
            canvas.spec_width() == width,
            canvas.spec_height() == height,
            forall|x: int, y: int|
                0 <= x < width && 0 <= y < height ==> #[trigger] canvas.pixel_at(x, y) == (Rgba { r: 0, g: 0, b: 0, a: 0 }),
    {
        Canvas::from_pixel(width, height, Rgba { r: 0, g: 0, b: 0, a: 0 })
    }

    /// The pixels as RGBA bytes, row after row.
    pub fn to_rgba_bytes(&self) -> (bytes: Vec<u8>)
        requires
            self.wf(),
        ensures
            bytes@ == rows_bytes(self.view_rows()),
            bytes@.len() == 4 * self.spec_width() * self.spec_height(),
    {
        let ghost all = self.view_rows();
        let mut out: Vec<u8> = Vec::new();
        let mut y: usize = 0;
        let h = self.rows.len();
        while y < h
            invariant
                self.wf(),
                all == self.view_rows(),
                h == all.len(),
                y <= h,
                out@ == rows_bytes(all.take(y as int)),
            decreases h - y,
        {
            let row = &self.rows[y];
            assert(row@ == all[y as int]);
            let mut x: usize = 0;
            while x < row.len()
                invariant
                    row@ == all[y as int],
                    y < h,
                    h == all.len(),
                    x <= row@.len(),
                    out@ == rows_bytes(all.take(y as int)) + row_bytes(row@.take(x as int)),
                decreases row@.len() - x,
            {
                let p = row[x];
                out.push(p.r);
                out.push(p.g);
                out.push(p.b);
                out.push(p.a);
                assert(row@.take(x + 1).drop_last() =~= row@.take(x as int));
                x = x + 1;
            }
            assert(row@.take(x as int) =~= row@);
            assert(all.take(y + 1).drop_last() =~= all.take(y as int));
            y = y + 1;
        }
        assert(all.take(h as int) =~= all);
        proof {
            lemma_rows_bytes_len(all, self.spec_width() as int);
        }
        out
    }

    /// Builds a canvas from RGBA bytes laid out row after row; `None` unless
    /// there are exactly 4 bytes for each of the `width * height` pixels.
    pub fn from_rgba_bytes(width: u32, height: u32, bytes: &[u8]) -> (canvas: Option<Canvas>)
        ensures
            canvas is Some <==> bytes@.len() == 4 * width * height,
            canvas matches Some(c) ==> {
                &&& c.wf()
                &&& c.spec_width() == width
                &&& c.spec_height() == height
                &&& rows_bytes(c.view_rows()) == bytes@
            },
    {
        assert((width as int) * (height as int) <= 0xFFFF_FFFF * 0xFFFF_FFFF) by (nonlinear_arith)
            requires width <= 0xFFFF_FFFF, height <= 0xFFFF_FFFF;
        let expected = (width as u64) * (height as u64);
        assert(4 * width * height == 4 * expected) by (nonlinear_arith)
            requires expected == width * height;
        let n = bytes.len();
        if expected > (usize::MAX as u64) / 4 {
            return None;
        }
        if n != (expected as usize) * 4 {
            return None;
        }
        let mut rows: Vec<Vec<Rgba>> = Vec::new();
        let mut i: usize = 0;
        let mut y: u32 = 0;
        while y < height
            invariant
                bytes@.len() == 4 * width * height,
                y <= height,
                rows@.len() == y,
                forall|j: int| 0 <= j < y ==> #[trigger] rows@[j]@.len() == width,
                i == 4 * width * y,
                bytes@.take(i as int) == rows_bytes(rows@.map_values(|r: Vec<Rgba>| r@)),
            decreases height - y,
        {
            let mut row: Vec<Rgba> = Vec::new();
            let mut x: u32 = 0;
            while x < width
                invariant
                    bytes@.len() == 4 * width * height,
                    y < height,
                    rows@.len() == y,
                    x <= width,
                    row@.len() == x,
                    i == 4 * width * y + 4 * x,
                    bytes@.take(i as int) == rows_bytes(rows@.map_values(|r: Vec<Rgba>| r@)) + row_bytes(row@),
                decreases width - x,
            {
                proof {
                    lemma_pixel_offset(width as int, height as int, x as int, y as int);
                }
                let p = Rgba { r: bytes[i], g: bytes[i + 1], b: bytes[i + 2], a: bytes[i + 3] };
                let ghost old_row = row@;
                row.push(p);
                assert(row@.drop_last() =~= old_row);
                assert(bytes@.take(i + 4) =~= bytes@.take(i as int) + pixel_bytes(p));
                i = i + 4;
                x = x + 1;
            }
            let ghost old_rows = rows@.map_values(|r: Vec<Rgba>| r@);
            rows.push(row);
            assert(rows@.map_values(|r: Vec<Rgba>| r@).drop_last() =~= old_rows);
            assert(4 * width * y + 4 * width == 4 * width * (y + 1)) by (nonlinear_arith);
            y = y + 1;
        }
        assert(bytes@.take(i as int) =~= bytes@);
        let canvas = Canvas { width, height, rows };
        assert(canvas.view_rows() =~= rows@.map_values(|r: Vec<Rgba>| r@));
        assert forall|j: int| 0 <= j < height implies #[trigger] canvas.view_rows()[j].len() == width by {
            assert(canvas.view_rows()[j] == canvas.rows@[j]@);
        }
        Some(canvas)
    }
}

/// The opaque pixel of a 0xRRGGBB color.
pub open spec fn solid(hex: u32) -> Rgba {
    Rgba { r: hex_channel(hex, 16), g: hex_channel(hex, 8), b: hex_channel(hex, 0), a: 255 }
}

/// Interpolating by 0 gives the first value and by 1 the second; every
/// factor in between gives a value between the two.
pub proof fn lerp_endpoints(a: int, b: int, num: int, den: int)
    requires
        0 <= a <= 255,
        0 <= b <= 255,
        0 < den,
        0 <= num <= den,
    ensures
        lerp_value(a, b, 0, den) == a,
        lerp_value(a, b, den, den) == b,
        a <= b ==> a <= lerp_value(a, b, num, den) <= b,
        b <= a ==> b <= lerp_value(a, b, num, den) <= a,
{
    assert(lerp_value(a, b, 0, den) == a) by (nonlinear_arith)
        requires 0 < den, lerp_value(a, b, 0, den) == (2 * (den * a) + den) / (2 * den);
    assert(lerp_value(a, b, den, den) == b) by (nonlinear_arith)
        requires 0 < den, lerp_value(a, b, den, den) == (2 * (den * b) + den) / (2 * den);
    let t = 2 * ((den - num) * a + num * b) + den;
    if a <= b {
        assert(2 * den * a <= t < 2 * den * (b + 1)) by (nonlinear_arith)
            requires t == 2 * ((den - num) * a + num * b) + den, 0 <= num <= den, 0 < den, a <= b;
        assert(a <= t / (2 * den) <= b) by (nonlinear_arith)
            requires 2 * den * a <= t < 2 * den * (b + 1), 0 < den;
    } else {
        assert(2 * den * b <= t < 2 * den * (a + 1)) by (nonlinear_arith)
            requires t == 2 * ((den - num) * a + num * b) + den, 0 <= num <= den, 0 < den, b < a;
        assert(b <= t / (2 * den) <= a) by (nonlinear_arith)
            requires 2 * den * b <= t < 2 * den * (a + 1), 0 < den;
    }
}

/// Every pixel that the stripes cover is opaque.
pub proof fn stripes_are_opaque(palette: Seq<u32>, stripe_count: int, width: int, x: int)
    ensures
        stripes_at(palette, stripe_count, width, x) matches Some(p) ==> p.a == 255,
{
}

/// Away from the blend at its right edge (and everywhere in the last
/// stripe), a stripe has exactly its palette color: stripe `i` takes
/// `palette[i % palette.len()]`.
pub proof fn stripe_interior_is_solid(palette: Seq<u32>, stripe_count: int, width: int, x: int)
    requires
        palette.len() > 0,
        stripe_count > 0,
        0 <= x,
        0 < width / stripe_count,
        x < stripe_count * (width / stripe_count),
        ({
            let sw = width / stripe_count;
            let i = x / sw;
            (i + 1) * sw - 1 - x >= SMOOTH_WIDTH || i + 1 == stripe_count
        }),
    ensures
        stripes_at(palette, stripe_count, width, x) == Some(
            solid(palette[(x / (width / stripe_count)) % palette.len() as int]),
        ),
{
    lemma_stripe_geometry(width, stripe_count, x);
    let sw = width / stripe_count;
    let i = x / sw;
    let cur = palette[i % palette.len() as int];
    lerp_endpoints(hex_channel(cur, 16) as int, hex_channel(cur, 16) as int, 0, 16);
    lerp_endpoints(hex_channel(cur, 8) as int, hex_channel(cur, 8) as int, 0, 16);
    lerp_endpoints(hex_channel(cur, 0) as int, hex_channel(cur, 0) as int, 0, 16);
    let next = if i + 1 < stripe_count { palette[(i + 1) % palette.len() as int] } else { cur };
    lerp_endpoints(hex_channel(cur, 16) as int, hex_channel(next, 16) as int, 0, 16);
    lerp_endpoints(hex_channel(cur, 8) as int, hex_channel(next, 8) as int, 0, 16);
    lerp_endpoints(hex_channel(cur, 0) as int, hex_channel(next, 0) as int, 0, 16);
}

/// When the width is a multiple of the stripe count (and at least as
/// large), the stripes cover every column.
pub proof fn stripes_cover_divisible_width(palette: Seq<u32>, stripe_count: int, width: int, x: int)
    requires
        stripe_count > 0,
        width >= stripe_count,
        width % stripe_count == 0,
        0 <= x < width,
    ensures
        stripes_at(palette, stripe_count, width, x) is Some,
{
    let sw = width / stripe_count;
    assert(stripe_count * sw == width && sw > 0) by (nonlinear_arith)
        requires sw == width / stripe_count, width % stripe_count == 0, stripe_count > 0, width >= stripe_count;
}

/// Compositing leaves a destination pixel alone where the source does not
/// cover it or is fully transparent.
pub proof fn compositing_keeps_uncovered_pixels(
    dst: Seq<Seq<Rgba>>,
    src: Seq<Seq<Rgba>>,
    sw: int,
    sh: int,
    ox: int,
    oy: int,
    x: int,
    y: int,
)
    requires
        !(ox <= x < ox + sw && oy <= y < oy + sh) || src[y - oy][x - ox].a == 0,
    ensures
        composite_at(dst, src, sw, sh, ox, oy, x, y) == dst[y][x],
{
}

/// A fully opaque source pixel replaces the destination pixel; any other
/// visible source pixel yields an opaque pixel whose channels lie between
/// the source's and the destination's.
pub proof fn compositing_blends_covered_pixels(
    dst: Seq<Seq<Rgba>>,
    src: Seq<Seq<Rgba>>,
    sw: int,
    sh: int,
    ox: int,
    oy: int,
    x: int,
    y: int,
)
    requires
        ox <= x < ox + sw,
        oy <= y < oy + sh,
        src[y - oy][x - ox].a != 0,
    ensures
        ({
            let s = src[y - oy][x - ox];
            let d = dst[y][x];
            let p = composite_at(dst, src, sw, sh, ox, oy, x, y);
            &&& p.a == 255
            &&& s.a == 255 ==> p == Rgba { r: s.r, g: s.g, b: s.b, a: 255 }
            &&& (s.r <= d.r ==> s.r <= p.r <= d.r) && (d.r <= s.r ==> d.r <= p.r <= s.r)
            &&& (s.g <= d.g ==> s.g <= p.g <= d.g) && (d.g <= s.g ==> d.g <= p.g <= s.g)
            &&& (s.b <= d.b ==> s.b <= p.b <= d.b) && (d.b <= s.b ==> d.b <= p.b <= s.b)
        }),
{
    let s = src[y - oy][x - ox];
    let d = dst[y][x];
    lemma_blend_between(s.r as int, d.r as int, s.a as int);
    lemma_blend_between(s.g as int, d.g as int, s.a as int);
    lemma_blend_between(s.b as int, d.b as int, s.a as int);
}

proof fn lemma_blend_between(s: int, d: int, a: int)
    requires
        0 <= s <= 255,
        0 <= d <= 255,
        0 <= a <= 255,
    ensures
        a == 255 ==> blend_value(s, d, a) == s,
        s <= d ==> s <= blend_value(s, d, a) <= d,
        d <= s ==> d <= blend_value(s, d, a) <= s,
{
    let t = 2 * (a * s + (255 - a) * d) + 255;
    if a == 255 {
        assert(t == 510 * s + 255) by (nonlinear_arith)
            requires t == 2 * (a * s + (255 - a) * d) + 255, a == 255;
        assert(t / 510 == s) by (nonlinear_arith)
            requires t == 510 * s + 255;
    }
    if s <= d {
        assert(510 * s <= t < 510 * (d + 1)) by (nonlinear_arith)
            requires t == 2 * (a * s + (255 - a) * d) + 255, 0 <= a <= 255, s <= d;
        assert(s <= t / 510 <= d) by (nonlinear_arith)
            requires 510 * s <= t < 510 * (d + 1);
    } else {
        assert(510 * d <= t < 510 * (s + 1)) by (nonlinear_arith)
            requires t == 2 * (a * s + (255 - a) * d) + 255, 0 <= a <= 255, d < s;
        assert(d <= t / 510 <= s) by (nonlinear_arith)
            requires 510 * d <= t < 510 * (s + 1);
    }
}

/// Bear stripes `width / palette.len()` pixels wide are the flag stripes
/// with one stripe per palette color, on an image of any width.
pub proof fn bear_stripes_are_flag_stripes(palette: Seq<u32>, width: int, x: int)
    requires
        palette.len() > 0,
        width >= 0,
        0 <= x,
    ensures
        bear_stripes_at(palette, width / (palette.len() as int), width, x)
            == stripes_at(palette, palette.len() as int, width, x),
{
    let n = palette.len() as int;
    let sw = width / n;
    if sw > 0 {
        assert(n * sw <= width) by (nonlinear_arith)
            requires sw == width / n, n > 0;
        if x < n * sw {
            let i = x / sw;
            assert(i < n && (i + 1) * sw <= n * sw) by (nonlinear_arith)
                requires i == x / sw, x < n * sw, sw > 0, 0 <= x;
        } else {
            assert(x / sw >= n) by (nonlinear_arith)
                requires x >= n * sw, sw > 0;
        }
    }
}

/// Whether every channel of `p` lies between the same channels of `a` and `b`.
pub open spec fn channels_between(p: Rgba, a: Rgba, b: Rgba) -> bool {
    &&& (a.r <= b.r ==> a.r <= p.r <= b.r) && (b.r <= a.r ==> b.r <= p.r <= a.r)
    &&& (a.g <= b.g ==> a.g <= p.g <= b.g) && (b.g <= a.g ==> b.g <= p.g <= a.g)
    &&& (a.b <= b.b ==> a.b <= p.b <= b.b) && (b.b <= a.b ==> b.b <= p.b <= a.b)
}

/// Every stripe but the last blends into the color of the stripe after it
/// (`palette[(i + 1) % palette.len()]`): its last column has exactly that
/// color, and every column of its last `SMOOTH_WIDTH` lies between its own
/// color and that one.
pub proof fn stripe_blends_into_the_next(palette: Seq<u32>, stripe_count: int, width: int, i: int, x: int)
    requires
        palette.len() > 0,
        stripe_count > 0,
        0 < width / stripe_count,
        0 <= i,
        i + 1 < stripe_count,
        (i + 1) * (width / stripe_count) - SMOOTH_WIDTH <= x < (i + 1) * (width / stripe_count),
        i * (width / stripe_count) <= x,
    ensures
        stripes_at(palette, stripe_count, width, (i + 1) * (width / stripe_count) - 1) == Some(
            solid(palette[(i + 1) % palette.len() as int]),
        ),
        stripes_at(palette, stripe_count, width, x) matches Some(p) && channels_between(
            p,
            solid(palette[i % palette.len() as int]),
            solid(palette[(i + 1) % palette.len() as int]),
        ),
{
    let sw = width / stripe_count;
    assert(stripe_count * sw <= width) by (nonlinear_arith)
        requires sw == width / stripe_count, 0 < stripe_count;
    assert((i + 1) * sw <= stripe_count * sw) by (nonlinear_arith)
        requires i + 1 < stripe_count, 0 < sw;
    let last = (i + 1) * sw - 1;
    assert(last / sw == i) by (nonlinear_arith)
        requires last == (i + 1) * sw - 1, 0 < sw, 0 <= i;
    assert(x / sw == i) by (nonlinear_arith)
        requires i * sw <= x < (i + 1) * sw, 0 < sw, 0 <= i;
    let cur = palette[i % palette.len() as int];
    let next = palette[(i + 1) % palette.len() as int];
    lerp_endpoints(hex_channel(cur, 16) as int, hex_channel(next, 16) as int, SMOOTH_WIDTH - ((i + 1) * sw - 1 - x), 16);
    lerp_endpoints(hex_channel(cur, 8) as int, hex_channel(next, 8) as int, SMOOTH_WIDTH - ((i + 1) * sw - 1 - x), 16);
    lerp_endpoints(hex_channel(cur, 0) as int, hex_channel(next, 0) as int, SMOOTH_WIDTH - ((i + 1) * sw - 1 - x), 16);
}

/// Interpolation rounds to the nearest integer: the result is within one
/// half of the exact value `((den - num) * a + num * b) / den`.
pub proof fn lerp_rounds_to_nearest(a: int, b: int, num: int, den: int)
    requires
        0 < den,
    ensures
        -den < 2 * den * lerp_value(a, b, num, den) - 2 * ((den - num) * a + num * b) <= den,
{
    let t = 2 * ((den - num) * a + num * b);
    let v = lerp_value(a, b, num, den);
    assert(v == (t + den) / (2 * den));
    assert(2 * den * v <= t + den < 2 * den * v + 2 * den) by (nonlinear_arith)
        requires v == (t + den) / (2 * den), 0 < den;
}

/// Compositing rounds to the nearest integer: a blended channel is within
/// one half of the exact value `(a * s + (255 - a) * d) / 255`.
pub proof fn blend_rounds_to_nearest(s: int, d: int, a: int)
    ensures
        -255 < 510 * blend_value(s, d, a) - 2 * (a * s + (255 - a) * d) <= 255,
{
    let t = 2 * (a * s + (255 - a) * d);
    let v = blend_value(s, d, a);
    assert(v == (t + 255) / 510);
    assert(510 * v <= t + 255 < 510 * v + 510) by (nonlinear_arith)
        requires v == (t + 255) / 510;
}

} // verus!
