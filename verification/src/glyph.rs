//! Collects the coloured pixels a text shaper draws and turns them into an
//! RGBA image cropped to their bounding box.
use vstd::prelude::*;
use image::DynamicImage;
use crate::atlas::image_size;
use crate::colour::{colour_alpha, unpack_colour, unpacked};

verus! {

/// The RGBA image `image::RgbaImage::from_raw` makes of `width`, `height` and
/// the row-major bytes `bytes`, four per pixel.
pub uninterp spec fn rgba_image(width: u32, height: u32, bytes: Seq<u8>) -> DynamicImage;

/// `image::RgbaImage::from_raw(width, height, bytes)` made a `DynamicImage`.
/// Per its source (`ImageBuffer::check_image_fits`) it gives `Some` exactly
/// when `4 * width` fits in `usize` and `4 * width * height` bytes are there;
/// the image then has that size.
#[verifier::external_body]
fn rgba_image_from_raw(width: u32, height: u32, bytes: Vec<u8>) -> (res: Option<DynamicImage>)
    ensures
        res is Some <==> (4 * (width as int) <= usize::MAX && 4 * (width as int) * (height as int)
            <= bytes@.len()),
        res matches Some(img) ==> img == rgba_image(width, height, bytes@) && image_size(img) == (
            width,
            height,
        ),
{
    match image::RgbaImage::from_raw(width, height, bytes) {
        Some(buf) => Some(DynamicImage::ImageRgba8(buf)),
        None => None,
    }
}

/// Smallest x among the pixels (`i32::MAX` for none).
pub open spec fn min_x_of(ps: Seq<(i32, i32, u32)>) -> int
    decreases ps.len(),
{
    if ps.len() == 0 {
        i32::MAX as int
    } else {
        let m = min_x_of(ps.drop_last());
        if (ps.last().0 as int) < m { ps.last().0 as int } else { m }
    }
}

/// Smallest y among the pixels (`i32::MAX` for none).
pub open spec fn min_y_of(ps: Seq<(i32, i32, u32)>) -> int
    decreases ps.len(),
{
    if ps.len() == 0 {
        i32::MAX as int
    } else {
        let m = min_y_of(ps.drop_last());
        if (ps.last().1 as int) < m { ps.last().1 as int } else { m }
    }
}

/// Largest x among the pixels (`i32::MIN` for none).
pub open spec fn max_x_of(ps: Seq<(i32, i32, u32)>) -> int
    decreases ps.len(),
{
    if ps.len() == 0 {
        i32::MIN as int
    } else {
        let m = max_x_of(ps.drop_last());
        if (ps.last().0 as int) > m { ps.last().0 as int } else { m }
    }
}

/// Largest y among the pixels (`i32::MIN` for none).
pub open spec fn max_y_of(ps: Seq<(i32, i32, u32)>) -> int
    decreases ps.len(),
{
    if ps.len() == 0 {
        i32::MIN as int
    } else {
        let m = max_y_of(ps.drop_last());
        if (ps.last().1 as int) > m { ps.last().1 as int } else { m }
    }
}

/// The pixels of a `w` by `h` rectangle at `(x, y)`, row by row, all of
/// colour `c`.
pub open spec fn rect_pixels(x: i32, y: i32, w: u32, h: u32, c: u32) -> Seq<(i32, i32, u32)> {
    Seq::new((w * h) as nat, |k: int| rect_pixel(x, y, w, c, k))
}

/// Pixel `k` of a rectangle `w` pixels wide at `(x, y)`, counting row by row.
pub open spec fn rect_pixel(x: i32, y: i32, w: u32, c: u32, k: int) -> (i32, i32, u32) {
    ((x + k % (w as int)) as i32, (y + k / (w as int)) as i32, c)
}

/// `start + (p as i32)` stays within `i32` for every `p < len`: offsets
/// below 2^31 must not pass `i32::MAX`, and the offsets from 2^31 on, which
/// turn negative as `i32`, must not pass `i32::MIN`.
pub open spec fn axis_fits(start: i32, len: u32) -> bool {
    &&& start + (if len <= 0x8000_0000u32 { len as int } else { 0x8000_0000int }) <= 0x8000_0000
    &&& len > 0x8000_0000u32 ==> start >= 0
}

/// Drawing the rectangle computes no coordinate outside `i32`: nothing is
/// computed for a transparent colour or an empty rectangle.
pub open spec fn rect_fits(x: i32, y: i32, w: u32, h: u32, colour: u32) -> bool {
    unpacked(colour).3 == 0 || w == 0 || h == 0 || (axis_fits(x, w) && axis_fits(y, h))
}

proof fn lemma_axis_offset(start: i32, len: u32, p: u32)
    requires
        axis_fits(start, len),
        p < len,
    ensures
        i32::MIN <= start + (#[verifier::truncate] (p as i32)) <= i32::MAX,
        (start + (#[verifier::truncate] (p as i32))) as i32 == (start + p) as i32,
{
    if p >= 0x8000_0000u32 {
        assert(start == 0);
        assert((p as i32) < 0) by (bit_vector)
            requires
                p >= 0x8000_0000u32,
        ;
    }
}

/// The RGBA bytes of a `w`-pixel-wide image whose top-left pixel sits at
/// `(mx, my)`, after painting the pixels in order over `base`; a later pixel
/// overwrites an earlier one at the same place.
pub open spec fn paint(ps: Seq<(i32, i32, u32)>, w: int, mx: int, my: int, base: Seq<u8>) -> Seq<u8>
    decreases ps.len(),
{
    if ps.len() == 0 {
        base
    } else {
        let prev = paint(ps.drop_last(), w, mx, my, base);
        let p = ps.last();
        let i = ((p.1 - my) * w + (p.0 - mx)) * 4;
        let c = unpacked(p.2);
        prev.update(i, c.0).update(i + 1, c.1).update(i + 2, c.2).update(i + 3, c.3)
    }
}

/// The pixel `(px, py)` of a rectangle whose top-left pixel is `(x, y)`:
/// `(x + px, y + py)` in colour `c`.
pub open spec fn offset_pixel(x: i32, y: i32, px: int, py: int, c: u32) -> (i32, i32, u32) {
    ((x + px) as i32, (y + py) as i32, c)
}

/// A `w` by `h` rectangle holds `w * h` pixels, and for every column
/// `0 <= px < w` and row `0 <= py < h` the pixel `(x + px, y + py)` is the
/// one at position `py * w + px`: row by row, each row left to right.
pub proof fn lemma_rect_pixels_cover(x: i32, y: i32, w: u32, h: u32, c: u32)
    ensures
        rect_pixels(x, y, w, h, c).len() == w * h,
        forall|px: int, py: int|
            #![trigger offset_pixel(x, y, px, py, c)]
            0 <= px < w && 0 <= py < h ==> rect_pixels(x, y, w, h, c)[py * w + px] == offset_pixel(x, y, px, py, c),
{
    assert forall|px: int, py: int|
        #![trigger offset_pixel(x, y, px, py, c)]
        0 <= px < w && 0 <= py < h implies rect_pixels(x, y, w, h, c)[py * w + px] == offset_pixel(
            x,
            y,
            px,
            py,
            c,
        ) by {
        lemma_rect_cell(x, y, w, h, c, px, py);
    }
}

proof fn lemma_rect_cell(x: i32, y: i32, w: u32, h: u32, c: u32, px: int, py: int)
    requires
        0 <= px < w,
        0 <= py < h,
    ensures
        0 <= py * w + px < w * h,
        rect_pixels(x, y, w, h, c)[py * w + px] == offset_pixel(x, y, px, py, c),
{
    let k = py * w + px;
    assert(0 <= py * w) by (nonlinear_arith)
        requires
            0 <= py,
            0 <= w,
    ;
    assert(k < w * h) by (nonlinear_arith)
        requires
            k == py * w + px,
            0 <= px < w,
            0 <= py < h,
    ;
    vstd::arithmetic::div_mod::lemma_fundamental_div_mod_converse(k, w as int, py, px);
    assert(rect_pixels(x, y, w, h, c)[k] == rect_pixel(x, y, w, c, k));
}

/// Some pixel of `ps` lies at column `ix`, row `iy` of the box whose
/// top-left pixel is `(mx, my)`.
pub open spec fn covers(ps: Seq<(i32, i32, u32)>, mx: int, my: int, ix: int, iy: int) -> bool {
    exists|j: int| 0 <= j < ps.len() && ps[j].0 - mx == ix && ps[j].1 - my == iy
}

/// No pixel after pixel `j` of `ps` lies where it does: pixel `j` is the one
/// that shows there.
pub open spec fn shown(ps: Seq<(i32, i32, u32)>, j: int) -> bool {
    forall|k: int| j < k < ps.len() ==> (#[trigger] ps[k]).0 != ps[j].0 || ps[k].1 != ps[j].1
}

/// Byte `t` of a row-major RGBA buffer `w` pixels wide belongs to the pixel at
/// column `(t / 4) % w`, row `(t / 4) / w`; the bytes of column `ix`, row `iy`
/// start at `(iy * w + ix) * 4`.
proof fn lemma_byte_pixel(t: int, w: int, ix: int, iy: int)
    requires
        w > 0,
        0 <= ix < w,
        0 <= iy,
        (iy * w + ix) * 4 <= t < (iy * w + ix) * 4 + 4,
    ensures
        (t / 4) % w == ix,
        (t / 4) / w == iy,
{
    let q = iy * w + ix;
    vstd::arithmetic::div_mod::lemma_fundamental_div_mod_converse(t, 4, q, t - q * 4);
    vstd::arithmetic::div_mod::lemma_fundamental_div_mod_converse(q, w, iy, ix);
}

/// Painting pixels inside a `w` by `h` box lays them out row-major: the four
/// bytes at `((y - my) * w + (x - mx)) * 4` are the `(r, g, b, a)` of the pixel
/// that shows at `(x, y)`, and every byte of a place no pixel covers keeps its
/// value from `base`.
pub proof fn lemma_paint_row_major(ps: Seq<(i32, i32, u32)>, w: int, h: int, mx: int, my: int, base: Seq<u8>)
    requires
        w > 0,
        h > 0,
        base.len() == 4 * w * h,
        forall|j: int| 0 <= j < ps.len() ==> mx <= (#[trigger] ps[j]).0 < mx + w && my <= ps[j].1 < my + h,
    ensures
        paint(ps, w, mx, my, base).len() == base.len(),
        forall|j: int|
            0 <= j < ps.len() && #[trigger] shown(ps, j) ==> {
                let o = ((ps[j].1 - my) * w + (ps[j].0 - mx)) * 4;
                let c = unpacked(ps[j].2);
                &&& paint(ps, w, mx, my, base)[o] == c.0
                &&& paint(ps, w, mx, my, base)[o + 1] == c.1
                &&& paint(ps, w, mx, my, base)[o + 2] == c.2
                &&& paint(ps, w, mx, my, base)[o + 3] == c.3
            },
        forall|t: int|
            0 <= t < base.len() && !covers(ps, mx, my, (t / 4) % w, (t / 4) / w) ==> #[trigger] paint(
                ps,
                w,
                mx,
                my,
                base,
            )[t] == base[t],
    decreases ps.len(),
{
    if ps.len() > 0 {
        let q = ps.drop_last();
        let p = ps.last();
        let n = ps.len() - 1;
        assert forall|j: int| 0 <= j < q.len() implies mx <= (#[trigger] q[j]).0 < mx + w && my <= q[j].1 < my + h by {
            assert(q[j] == ps[j]);
        }
        lemma_paint_row_major(q, w, h, mx, my, base);
        let prev = paint(q, w, mx, my, base);
        let r = paint(ps, w, mx, my, base);
        let px = p.0 - mx;
        let py = p.1 - my;
        assert(ps[n] == p);
        lemma_index_in_bounds(px, py, w, h);
        let i = (py * w + px) * 4;
        assert forall|j: int| 0 <= j < ps.len() && #[trigger] shown(ps, j) implies {
            let o = ((ps[j].1 - my) * w + (ps[j].0 - mx)) * 4;
            let c = unpacked(ps[j].2);
            &&& r[o] == c.0
            &&& r[o + 1] == c.1
            &&& r[o + 2] == c.2
            &&& r[o + 3] == c.3
        } by {
            if j < n {
                let jx = ps[j].0 - mx;
                let jy = ps[j].1 - my;
                assert(q[j] == ps[j]);
                assert(shown(q, j)) by {
                    assert forall|k: int| j < k < q.len() implies (#[trigger] q[k]).0 != q[j].0 || q[k].1 != q[j].1 by {
                        assert(q[k] == ps[k]);
                    }
                }
                assert(ps[n].0 != ps[j].0 || ps[n].1 != ps[j].1);
                lemma_index_in_bounds(jx, jy, w, h);
                let o = (jy * w + jx) * 4;
                assert forall|s: int| 0 <= s < 4 implies !(i <= #[trigger] (o + s) < i + 4) by {
                    if i <= o + s < i + 4 {
                        lemma_byte_pixel(o + s, w, jx, jy);
                        lemma_byte_pixel(o + s, w, px, py);
                    }
                }
                assert(r[o] == prev[o]) by {
                    assert(!(i <= o + 0 < i + 4));
                }
                assert(r[o + 1] == prev[o + 1]) by {
                    assert(!(i <= o + 1 < i + 4));
                }
                assert(r[o + 2] == prev[o + 2]) by {
                    assert(!(i <= o + 2 < i + 4));
                }
                assert(r[o + 3] == prev[o + 3]) by {
                    assert(!(i <= o + 3 < i + 4));
                }
            }
        }
        assert forall|t: int| 0 <= t < base.len() && !covers(ps, mx, my, (t / 4) % w, (t / 4) / w) implies #[trigger] r[t]
            == base[t] by {
            if i <= t < i + 4 {
                lemma_byte_pixel(t, w, px, py);
                assert(ps[n].0 - mx == px && ps[n].1 - my == py);
            }
            assert(!covers(q, mx, my, (t / 4) % w, (t / 4) / w)) by {
                if covers(q, mx, my, (t / 4) % w, (t / 4) / w) {
                    let j = choose|j: int| 0 <= j < q.len() && q[j].0 - mx == (t / 4) % w && q[j].1 - my == (t / 4) / w;
                    assert(ps[j] == q[j]);
                }
            }
            assert(prev[t] == base[t]);
        }
    }
}

/// Every pixel lies inside the bounding box of all the pixels, and the box's
/// sides are `i32` values.
pub proof fn lemma_bounds(ps: Seq<(i32, i32, u32)>)
    ensures
        forall|j: int| 0 <= j < ps.len() ==> {
            &&& min_x_of(ps) <= (#[trigger] ps[j]).0 <= max_x_of(ps)
            &&& min_y_of(ps) <= ps[j].1 <= max_y_of(ps)
        },
        i32::MIN <= min_x_of(ps) <= i32::MAX,
        i32::MIN <= min_y_of(ps) <= i32::MAX,
        i32::MIN <= max_x_of(ps) <= i32::MAX,
        i32::MIN <= max_y_of(ps) <= i32::MAX,
    decreases ps.len(),
{
    if ps.len() > 0 {
        let q = ps.drop_last();
        lemma_bounds(q);
        assert forall|j: int| 0 <= j < ps.len() implies {
            &&& min_x_of(ps) <= (#[trigger] ps[j]).0 <= max_x_of(ps)
            &&& min_y_of(ps) <= ps[j].1 <= max_y_of(ps)
        } by {
            if j < ps.len() - 1 {
                assert(ps[j] == q[j]);
            }
        }
    }
}

proof fn lemma_index_in_bounds(ix: int, iy: int, w: int, h: int)
    requires
        0 <= ix < w,
        0 <= iy < h,
    ensures
        0 <= (iy * w + ix) * 4,
        (iy * w + ix) * 4 + 3 < 4 * w * h,
{
    assert(iy * w + ix < h * w) by (nonlinear_arith)
        requires
            0 <= ix < w,
            0 <= iy < h,
    ;
    assert(0 <= iy * w) by (nonlinear_arith)
        requires
            0 <= iy,
            0 <= w,
    ;
    assert(4 * w * h == (h * w) * 4) by (nonlinear_arith);
}

/// The pixels drawn so far and their bounding box.
pub struct GlyphCanvas {
    min_x: i32,
    min_y: i32,
    max_x: i32,
    max_y: i32,
    pixels: Vec<(i32, i32, u32)>,
}

impl GlyphCanvas {
    /// The bounding box fields track the pixels.
    pub closed spec fn wf(self) -> bool {
        &&& self.min_x == min_x_of(self.pixels@)
        &&& self.min_y == min_y_of(self.pixels@)
        &&& self.max_x == max_x_of(self.pixels@)
        &&& self.max_y == max_y_of(self.pixels@)
    }

    /// The pixels drawn so far, `(x, y, packed colour)`, in drawing order.
    pub closed spec fn pixels(self) -> Seq<(i32, i32, u32)> {
        self.pixels@
    }

    /// A canvas without pixels.
    pub fn new() -> (res: Self)
        ensures
            res.wf(),
            res.pixels() == Seq::<(i32, i32, u32)>::empty(),
    {
        GlyphCanvas { min_x: i32::MAX, min_y: i32::MAX, max_x: i32::MIN, max_y: i32::MIN, pixels: Vec::new() }
    }

    /// Whether nothing has been drawn.
    pub fn is_empty(&self) -> (res: bool)
        ensures
            res == (self.pixels().len() == 0),
    {
        self.pixels.len() == 0
    }

    /// Bounding box of the pixels: `(min_x, min_y, max_x, max_y)`.
    pub fn bounds(&self) -> (res: (i32, i32, i32, i32))
        requires
            self.wf(),
        ensures
            res.0 == min_x_of(self.pixels()),
            res.1 == min_y_of(self.pixels()),
            res.2 == max_x_of(self.pixels()),
            res.3 == max_y_of(self.pixels()),
    {
        (self.min_x, self.min_y, self.max_x, self.max_y)
    }

    fn push_pixel(&mut self, px: i32, py: i32, colour: u32)
        requires
            old(self).wf(),
        ensures
            final(self).wf(),
            final(self).pixels() == old(self).pixels().push((px, py, colour)),
    {
        if px < self.min_x {
            self.min_x = px;
        }
        if py < self.min_y {
            self.min_y = py;
        }
        if px > self.max_x {
            self.max_x = px;
        }
        if py > self.max_y {
            self.max_y = py;
        }
        self.pixels.push((px, py, colour));
        assert(self.pixels@.drop_last() =~= old(self).pixels@);
    }

    /// Draws a `w` by `h` rectangle of colour `colour` with its top-left
    /// pixel at `(x, y)`, row by row; a fully transparent colour draws
    /// nothing.
    pub fn add_rect(&mut self, x: i32, y: i32, w: u32, h: u32, colour: u32)
        requires
            old(self).wf(),
            rect_fits(x, y, w, h, colour),
        ensures
            final(self).wf(),
            unpacked(colour).3 == 0 ==> final(self).pixels() == old(self).pixels(),
            unpacked(colour).3 != 0 ==> final(self).pixels() == old(self).pixels() + rect_pixels(x, y, w, h, colour),
            unpacked(colour).3 != 0 ==> final(self).pixels().len() == old(self).pixels().len() + w * h,
            unpacked(colour).3 != 0 ==> forall|px: int, py: int|
                0 <= px < w && 0 <= py < h ==> final(self).pixels().contains(
                    #[trigger] offset_pixel(x, y, px, py, colour),
                ),
            unpacked(colour).3 != 0 && w > 0 && h > 0 && x + w - 1 <= i32::MAX && y + h - 1 <= i32::MAX ==> {
                &&& min_x_of(final(self).pixels()) <= x
                &&& min_y_of(final(self).pixels()) <= y
                &&& max_x_of(final(self).pixels()) >= x + w - 1
                &&& max_y_of(final(self).pixels()) >= y + h - 1
            },
    {
        if colour_alpha(colour) == 0 {
            return;
        }
        let ghost base = self.pixels@;
        let mut py: u32 = 0;
        assert(Seq::new(0nat, |k: int| rect_pixel(x, y, w, colour, k)) =~= Seq::<(i32, i32, u32)>::empty());
        assert(base + Seq::new(0nat, |k: int| rect_pixel(x, y, w, colour, k)) =~= base);
        while py < h
            invariant
                self.wf(),
                w > 0 && h > 0 ==> axis_fits(x, w) && axis_fits(y, h),
                py <= h,
                self.pixels@ == base + Seq::new((py * w) as nat, |k: int| rect_pixel(x, y, w, colour, k)),
            decreases h - py,
        {
            let mut px: u32 = 0;
            while px < w
                invariant
                    self.wf(),
                    w > 0 ==> axis_fits(x, w) && axis_fits(y, h),
                    py < h,
                    px <= w,
                    self.pixels@ == base + Seq::new((py * w + px) as nat, |k: int| rect_pixel(x, y, w, colour, k)),
                decreases w - px,
            {
                proof {
                    lemma_axis_offset(x, w, px);
                    lemma_axis_offset(y, h, py);
                }
                let pixel_x: i32 = x + (#[verifier::truncate] (px as i32));
                let pixel_y: i32 = y + (#[verifier::truncate] (py as i32));
                let ghost n = py * w + px;
                proof {
                    vstd::arithmetic::div_mod::lemma_fundamental_div_mod_converse(n, w as int, py as int, px as int);
                    assert(n % (w as int) == px as int && n / (w as int) == py as int);
                    assert(rect_pixel(x, y, w, colour, n) == (pixel_x, pixel_y, colour));
                    assert(Seq::new((n + 1) as nat, |k: int| rect_pixel(x, y, w, colour, k)) =~= Seq::new(n as nat, |k: int| rect_pixel(x, y, w, colour, k)).push(rect_pixel(x, y, w, colour, n)));
                    assert(base + Seq::new(n as nat, |k: int| rect_pixel(x, y, w, colour, k)).push(rect_pixel(x, y, w, colour, n)) =~= (base + Seq::new(n as nat, |k: int| rect_pixel(x, y, w, colour, k))).push(rect_pixel(x, y, w, colour, n)));
                }
                self.push_pixel(pixel_x, pixel_y, colour);
                px = px + 1;
            }
            assert(py * w + w == (py + 1) * w) by (nonlinear_arith);
            py = py + 1;
        }
        assert(h * w == w * h) by (nonlinear_arith);
        proof {
            let ps = self.pixels@;
            let n = base.len();
            lemma_rect_pixels_cover(x, y, w, h, colour);
            assert forall|px: int, py: int| 0 <= px < w && 0 <= py < h implies ps.contains(
                #[trigger] offset_pixel(x, y, px, py, colour),
            ) by {
                lemma_rect_cell(x, y, w, h, colour, px, py);
                assert(ps[n + py * w + px] == offset_pixel(x, y, px, py, colour));
            }
            if w > 0 && h > 0 && x + w - 1 <= i32::MAX && y + h - 1 <= i32::MAX {
                lemma_bounds(ps);
                let last_x = (w - 1) as int;
                let last_y = (h - 1) as int;
                let j_last = n + last_y * w + last_x;
                let j_first = n + 0 * w + 0;
                lemma_rect_cell(x, y, w, h, colour, last_x, last_y);
                lemma_rect_cell(x, y, w, h, colour, 0, 0);
                assert(ps[j_last] == offset_pixel(x, y, last_x, last_y, colour));
                assert(ps[j_first] == offset_pixel(x, y, 0, 0, colour));
                assert(ps[j_last].0 == x + w - 1 && ps[j_last].1 == y + h - 1);
                assert(ps[j_first].0 == x && ps[j_first].1 == y);
                assert(0 <= j_last < ps.len());
            }
        }
    }

    /// Width of the bounding box.
    pub closed spec fn box_width(self) -> int {
        self.max_x - self.min_x + 1
    }

    /// Height of the bounding box.
    pub closed spec fn box_height(self) -> int {
        self.max_y - self.min_y + 1
    }

    /// The pixels as an RGBA byte buffer cropped to their bounding box, with
    /// its width and height; every byte no pixel covers is 0. `None` when
    /// nothing was drawn.
    pub fn rasterize(&self) -> (res: Option<(Vec<u8>, u32, u32)>)
        requires
            self.wf(),
            self.pixels().len() > 0 ==> {
                &&& self.box_width() <= i32::MAX
                &&& self.box_height() <= i32::MAX
                &&& 4 * self.box_width() * self.box_height() <= usize::MAX
            },
        ensures
            self.pixels().len() == 0 ==> res is None,
            self.pixels().len() > 0 ==> (res matches Some((bytes, w, h)) && {
                &&& w == self.box_width()
                &&& h == self.box_height()
                &&& bytes@.len() == 4 * w * h
                &&& bytes@ == paint(
                    self.pixels(),
                    w as int,
                    min_x_of(self.pixels()),
                    min_y_of(self.pixels()),
                    Seq::new((4 * w * h) as nat, |k: int| 0u8),
                )
                &&& forall|j: int|
                    0 <= j < self.pixels().len() && #[trigger] shown(self.pixels(), j) ==> {
                        let o = ((self.pixels()[j].1 - min_y_of(self.pixels())) * w + (self.pixels()[j].0
                            - min_x_of(self.pixels()))) * 4;
                        let c = unpacked(self.pixels()[j].2);
                        &&& bytes@[o] == c.0
                        &&& bytes@[o + 1] == c.1
                        &&& bytes@[o + 2] == c.2
                        &&& bytes@[o + 3] == c.3
                    }
                &&& forall|t: int|
                    0 <= t < bytes@.len() && !covers(
                        self.pixels(),
                        min_x_of(self.pixels()),
                        min_y_of(self.pixels()),
                        (t / 4) % (w as int),
                        (t / 4) / (w as int),
                    ) ==> #[trigger] bytes@[t] == 0u8
            }),
    {
        if self.pixels.len() == 0 {
            return None;
        }
        proof {
            lemma_bounds(self.pixels@);
            assert(self.pixels@[0] == self.pixels@[0]);
        }
        let w: u32 = (self.max_x as i64 - self.min_x as i64 + 1) as u32;
        let h: u32 = (self.max_y as i64 - self.min_y as i64 + 1) as u32;
        let ghost total: int = 4 * (w as int) * (h as int);
        assert(0 <= total) by (nonlinear_arith)
            requires
                total == 4 * (w as int) * (h as int),
        ;
        let n: usize = (4 * (w as u64) * (h as u64)) as usize;
        let ghost zeros = Seq::new(n as nat, |k: int| 0u8);
        let mut bytes: Vec<u8> = Vec::new();
        while bytes.len() < n
            invariant
                n as int == total,
                bytes@.len() <= n,
                forall|k: int| 0 <= k < bytes@.len() ==> bytes@[k] == 0u8,
            decreases n - bytes@.len(),
        {
            bytes.push(0u8);
        }
        assert(bytes@ =~= zeros);
        let ghost ps = self.pixels@;
        assert(ps.take(0) =~= Seq::<(i32, i32, u32)>::empty());
        let mut i: usize = 0;
        while i < self.pixels.len()
            invariant
                self.wf(),
                ps == self.pixels@,
                i <= ps.len(),
                n as int == total,
                total == 4 * (w as int) * (h as int),
                w == max_x_of(ps) - min_x_of(ps) + 1,
                h == max_y_of(ps) - min_y_of(ps) + 1,
                forall|j: int| 0 <= j < ps.len() ==> {
                    &&& min_x_of(ps) <= (#[trigger] ps[j]).0 <= max_x_of(ps)
                    &&& min_y_of(ps) <= ps[j].1 <= max_y_of(ps)
                },
                bytes@.len() == n,
                bytes@ == paint(ps.take(i as int), w as int, min_x_of(ps), min_y_of(ps), zeros),
            decreases ps.len() - i,
        {
            let (x, y, colour) = self.pixels[i];
            let ix: usize = (x as i64 - self.min_x as i64) as usize;
            let iy: usize = (y as i64 - self.min_y as i64) as usize;
            proof {
                lemma_index_in_bounds(ix as int, iy as int, w as int, h as int);
                assert(ps.take(i + 1).drop_last() =~= ps.take(i as int));
                assert(ps.take(i + 1).last() == ps[i as int]);
            }
            let base: usize = (iy * (w as usize) + ix) * 4;
            let c = unpack_colour(colour);
            bytes.set(base, c.0);
            bytes.set(base + 1, c.1);
            bytes.set(base + 2, c.2);
            bytes.set(base + 3, c.3);
            i = i + 1;
        }
        assert(ps.take(ps.len() as int) =~= ps);
        proof {
            lemma_paint_row_major(ps, w as int, h as int, min_x_of(ps), min_y_of(ps), zeros);
        }
        Some((bytes, w, h))
    }

    /// The pixels as an RGBA image cropped to their bounding box (see
    /// `rasterize`), with its width and height; `None` when nothing was drawn.
    pub fn to_image(&self) -> (res: Option<(DynamicImage, u32, u32)>)
        requires
            self.wf(),
            self.pixels().len() > 0 ==> {
                &&& self.box_width() <= i32::MAX
                &&& self.box_height() <= i32::MAX
                &&& 4 * self.box_width() * self.box_height() <= usize::MAX
            },
        ensures
            self.pixels().len() == 0 <==> res is None,
            res matches Some((img, w, h)) ==> {
                &&& w == self.box_width()
                &&& h == self.box_height()
                &&& img == rgba_image(
                    w,
                    h,
                    paint(
                        self.pixels(),
                        w as int,
                        min_x_of(self.pixels()),
                        min_y_of(self.pixels()),
                        Seq::new((4 * w * h) as nat, |k: int| 0u8),
                    ),
                )
                &&& image_size(img) == (w, h)
            },
    {
        match self.rasterize() {
            None => None,
            Some((bytes, w, h)) => {
                proof {
                    assert(h >= 1);
                    assert(4 * (w as int) <= 4 * (w as int) * (h as int)) by (nonlinear_arith)
                        requires
                            h >= 1,
                    ;
                }
                match rgba_image_from_raw(w, h, bytes) {
                    Some(img) => Some((img, w, h)),
                    None => None,
                }
            },
        }
    }
}

} // verus!
