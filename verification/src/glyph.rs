//! Glyph bitmaps.
use vstd::prelude::*;

verus! {

/// The coverage of a glyph, row by row, and where it stands in its cell.
pub struct GlyphBmp {
    pub w: usize,
    pub h: usize,
    pub left: i32,
    pub top: i32,
    pub cov: Vec<u8>,
}

impl GlyphBmp {
    /// The bitmap has one byte of coverage for each of its pixels.
    pub open spec fn wf(self) -> bool {
        self.cov@.len() == self.w * self.h
    }

    /// The coverage of the pixel in column `x` and row `y`.
    pub open spec fn at(self, x: int, y: int) -> u8 {
        pixel(self.cov@, self.w as int, x, y)
    }
}

/// The pixel in column `x` and row `y` of rows that are `w` wide.
pub open spec fn pixel(cov: Seq<u8>, w: int, x: int, y: int) -> u8 {
    cov[y * w + x]
}

/// The coverage that the last sample for a pixel gives it; 0 if there is none.
pub open spec fn last_sample(samples: Seq<(u32, u32, u8)>, x: int, y: int) -> u8
    decreases samples.len(),
{
    if samples.len() == 0 {
        0
    } else if samples.last().0 == x && samples.last().1 == y {
        samples.last().2
    } else {
        last_sample(samples.drop_last(), x, y)
    }
}

/// Pixels in different columns or rows have different places.
pub proof fn places_differ(w: int, x: int, y: int, x2: int, y2: int)
    requires
        0 <= x < w,
        0 <= x2 < w,
        y * w + x == y2 * w + x2,
    ensures
        x == x2,
        y == y2,
{
    assert(x == x2 && y == y2) by (nonlinear_arith)
        requires
            0 <= x < w,
            0 <= x2 < w,
            y * w + x == y2 * w + x2,
    ;
}

/// A pixel within the bounds has its place within the bitmap.
pub proof fn place_is_within(w: int, h: int, x: int, y: int)
    requires
        0 <= x < w,
        0 <= y < h,
    ensures
        0 <= y * w <= y * w + x < w * h,
{
    assert(0 <= y * w <= y * w + x < w * h) by (nonlinear_arith)
        requires
            0 <= x < w,
            0 <= y < h,
    ;
}

/// A glyph bitmap of `w` by `h` pixels from samples `(x, y, coverage)`. Samples outside the bitmap
/// are passed over.
pub fn rasterize(
    w: usize,
    h: usize,
    left: i32,
    top: i32,
    samples: &Vec<(u32, u32, u8)>,
) -> (r: GlyphBmp)
    requires
        w * h <= usize::MAX,
    ensures
        r.wf(),
        r.w == w,
        r.h == h,
        r.left == left,
        r.top == top,
        forall|x: int, y: int|
            0 <= x < w && 0 <= y < h ==> #[trigger] r.at(x, y) == last_sample(samples@, x, y),
{
    let mut cov: Vec<u8> = vec![0u8; w * h];
    let n: usize = samples.len();
    assert forall|x: int, y: int| 0 <= x < w && 0 <= y < h implies #[trigger] pixel(cov@, w as int, x, y) == 0 by {
        place_is_within(w as int, h as int, x, y);
    }
    for i in 0..n
        invariant
            n == samples@.len(),
            cov@.len() == w * h,
            w * h <= usize::MAX,
            forall|x: int, y: int|
                0 <= x < w && 0 <= y < h ==> #[trigger] pixel(cov@, w as int, x, y) == last_sample(
                    samples@.take(i as int),
                    x,
                    y,
                ),
    {
        let x: usize = samples[i].0 as usize;
        let y: usize = samples[i].1 as usize;
        let ghost before = cov@;
        assert(samples@.take(i + 1).drop_last() == samples@.take(i as int));
        assert(samples@.take(i + 1).last() == samples@[i as int]);
        if x < w && y < h {
            proof {
                place_is_within(w as int, h as int, x as int, y as int);
            }
            cov[y * w + x] = samples[i].2;
            assert forall|x2: int, y2: int|
                0 <= x2 < w && 0 <= y2 < h implies #[trigger] pixel(cov@, w as int, x2, y2) == last_sample(
                samples@.take(i + 1),
                x2,
                y2,
            ) by {
                place_is_within(w as int, h as int, x2, y2);
                if y2 * w + x2 == y * w + x {
                    places_differ(w as int, x2, y2, x as int, y as int);
                } else {
                    assert(pixel(before, w as int, x2, y2) == last_sample(samples@.take(i as int), x2, y2));
                }
            }
        } else {
            assert forall|x2: int, y2: int|
                0 <= x2 < w && 0 <= y2 < h implies #[trigger] pixel(cov@, w as int, x2, y2) == last_sample(
                samples@.take(i + 1),
                x2,
                y2,
            ) by {
                assert(pixel(before, w as int, x2, y2) == last_sample(samples@.take(i as int), x2, y2));
            }
        }
    }
    assert(samples@.take(n as int) == samples@);
    let r = GlyphBmp { w, h, left, top, cov };
    assert forall|x: int, y: int| 0 <= x < w && 0 <= y < h implies #[trigger] r.at(x, y)
        == last_sample(samples@, x, y) by {
        assert(pixel(cov@, w as int, x, y) == last_sample(samples@.take(n as int), x, y));
    }
    r
}

/// The bitmap of a character without an outline.
pub fn blank() -> (r: GlyphBmp)
    ensures
        is_blank(r),
{
    GlyphBmp { w: 0, h: 0, left: 0, top: 0, cov: Vec::new() }
}

/// Whether a bitmap is that of a character without an outline.
pub open spec fn is_blank(g: GlyphBmp) -> bool {
    g.wf() && g.w == 0 && g.h == 0 && g.left == 0 && g.top == 0
}

/// The outline of a character: the size of its bitmap, where it stands in its cell, and the samples
/// `(x, y, coverage)` of what it covers.
pub struct Outline {
    pub w: usize,
    pub h: usize,
    pub left: i32,
    pub top: i32,
    pub samples: Vec<(u32, u32, u8)>,
}

/// Whether a bitmap is that of an outline.
pub open spec fn is_bitmap_of(g: GlyphBmp, o: Outline) -> bool {
    &&& g.wf()
    &&& g.w == o.w
    &&& g.h == o.h
    &&& g.left == o.left
    &&& g.top == o.top
    &&& forall|x: int, y: int|
        0 <= x < o.w && 0 <= y < o.h ==> #[trigger] g.at(x, y) == last_sample(o.samples@, x, y)
}

/// Whether every outline's bitmap has a size.
pub open spec fn sizes_fit(outlines: Seq<Option<Outline>>) -> bool {
    forall|i: int|
        0 <= i < outlines.len() ==> match #[trigger] outlines[i] {
            Some(o) => o.w * o.h <= usize::MAX,
            None => true,
        }
}

/// The glyphs to rain, one for each character: the bitmap of its outline, or a blank one if it has
/// none. Without characters there is one blank glyph.
pub fn glyph_set(outlines: &Vec<Option<Outline>>) -> (r: Vec<GlyphBmp>)
    requires
        sizes_fit(outlines@),
    ensures
        r@.len() > 0,
        forall|i: int| 0 <= i < r@.len() ==> (#[trigger] r@[i]).wf(),
        outlines@.len() > 0 ==> r@.len() == outlines@.len(),
        outlines@.len() == 0 ==> r@.len() == 1 && is_blank(r@[0]),
        forall|i: int|
            0 <= i < outlines@.len() ==> match outlines@[i] {
                Some(o) => is_bitmap_of(#[trigger] r@[i], o),
                None => is_blank(r@[i]),
            },
{
    let n: usize = outlines.len();
    let mut out: Vec<GlyphBmp> = Vec::new();
    for i in 0..n
        invariant
            n == outlines@.len(),
            sizes_fit(outlines@),
            out@.len() == i,
            forall|j: int|
                0 <= j < i ==> match outlines@[j] {
                    Some(o) => is_bitmap_of(#[trigger] out@[j], o),
                    None => is_blank(out@[j]),
                },
    {
        let ghost outline = outlines@[i as int];
        match &outlines[i] {
            Some(o) => {
                out.push(rasterize(o.w, o.h, o.left, o.top, &o.samples));
            },
            None => {
                out.push(blank());
            },
        }
    }
    if n == 0 {
        out.push(blank());
    }
    out
}

/// The coverage of a pixel is that of its last sample, and 0 if it has none.
pub proof fn the_last_sample_counts(samples: Seq<(u32, u32, u8)>, x: int, y: int, j: int)
    requires
        0 <= j <= samples.len(),
        forall|i: int| j < i < samples.len() ==> samples[i].0 != x || samples[i].1 != y,
        j < samples.len() ==> samples[j].0 == x && samples[j].1 == y,
        j == samples.len() ==> forall|i: int|
            0 <= i < samples.len() ==> samples[i].0 != x || samples[i].1 != y,
    ensures
        last_sample(samples, x, y) == if j < samples.len() {
            samples[j].2
        } else {
            0
        },
    decreases samples.len(),
{
    if samples.len() > 0 && j != samples.len() - 1 {
        let rest = samples.drop_last();
        assert(samples.last() == samples[samples.len() - 1]);
        if j == samples.len() {
            the_last_sample_counts(rest, x, y, rest.len() as int);
        } else {
            the_last_sample_counts(rest, x, y, j);
        }
    }
}

/// A bitmap holds its coverage row by row: a byte for each pixel, rows as wide as the bitmap.
pub proof fn bitmaps_hold_rows(g: GlyphBmp, o: Outline, x: int, y: int)
    requires
        is_bitmap_of(g, o),
        0 <= x < o.w,
        0 <= y < o.h,
    ensures
        g.cov@.len() == o.w * o.h,
        g.cov@[y * o.w + x] == last_sample(o.samples@, x, y),
        g.w == o.w && g.h == o.h && g.left == o.left && g.top == o.top,
{
    assert(g.at(x, y) == last_sample(o.samples@, x, y));
}

/// A character without an outline has no pixels and stands nowhere.
pub proof fn blank_glyphs_have_no_pixels(g: GlyphBmp)
    requires
        is_blank(g),
    ensures
        g.w == 0 && g.h == 0 && g.left == 0 && g.top == 0 && g.cov@.len() == 0,
{
    assert(0 * g.h == 0) by (nonlinear_arith);
}

/// Bitmaps fit if each has no more pixels than can be counted.
pub proof fn countable_bitmaps_fit(outlines: Seq<Option<Outline>>)
    ensures
        sizes_fit(outlines) <==> forall|i: int|
            0 <= i < outlines.len() ==> (#[trigger] outlines[i] matches Some(o) ==> o.w * o.h
                <= usize::MAX),
{
}

} // verus!
