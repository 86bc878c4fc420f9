//! Painting glyphs into a buffer of `0x00RRGGBB` pixels.
use vstd::prelude::*;

use crate::glyph::GlyphBmp;
use crate::glyph::place_is_within;

verus! {

/// A colour channel at the coverage `a`.
pub open spec fn channel(c: u32, a: u8) -> int {
    (c * a / 255) % 256
}

/// The pixel of a colour at the coverage `a`.
pub open spec fn tinted(r: u32, gr: u32, b: u32, a: u8) -> u32 {
    (channel(r, a) * 0x1_0000 + channel(gr, a) * 0x100 + channel(b, a)) as u32
}

/// Whether the pixel `(gx, gy)` of a glyph at `(ox, oy)` is in its bitmap and in a row of the
/// picture.
pub open spec fn in_view(g: GlyphBmp, height: usize, oy: i32, gx: int, gy: int) -> bool {
    &&& 0 <= gx < g.w as i32
    &&& 0 <= gy < g.h as i32
    &&& 0 <= oy + gy < height as i32
}

/// Whether the pixel `(gx, gy)` of a glyph at `(ox, oy)` covers something and lies in the picture.
pub open spec fn inked(
    g: GlyphBmp,
    width: usize,
    height: usize,
    ox: i32,
    oy: i32,
    gx: int,
    gy: int,
) -> bool {
    &&& in_view(g, height, oy, gx, gy)
    &&& g.at(gx, gy) != 0
    &&& 0 <= ox + gx < width as i32
}

/// Whether the pixel `(gx, gy)` of a glyph at `(ox, oy)`, if it covers something in view, has
/// coordinates and colours within their types and, if it is inked, a place in a buffer of `len`
/// pixels.
pub open spec fn pixel_fits(
    len: int,
    width: usize,
    height: usize,
    ox: i32,
    oy: i32,
    g: GlyphBmp,
    r: u32,
    gr: u32,
    b: u32,
    gx: int,
    gy: int,
) -> bool {
    in_view(g, height, oy, gx, gy) && g.at(gx, gy) != 0 ==> {
        &&& ox + gx <= i32::MAX
        &&& inked(g, width, height, ox, oy, gx, gy) ==> {
            &&& (oy + gy) * width + (ox + gx) < len
            &&& r * g.at(gx, gy) <= u32::MAX
            &&& gr * g.at(gx, gy) <= u32::MAX
            &&& b * g.at(gx, gy) <= u32::MAX
        }
    }
}

/// Whether a glyph can be painted at `(ox, oy)`: its rows and its pixels fit.
pub open spec fn blit_fits(
    len: int,
    width: usize,
    height: usize,
    ox: i32,
    oy: i32,
    g: GlyphBmp,
    r: u32,
    gr: u32,
    b: u32,
) -> bool {
    &&& g.wf()
    &&& oy + g.h as i32 - 1 <= i32::MAX
    &&& forall|gx: int, gy: int|
        #[trigger]
        pixel_fits(len, width, height, ox, oy, g, r, gr, b, gx, gy)
}

/// The buffer after painting a glyph at `(ox, oy)`: the pixels that it inks take its colour at
/// their coverage, and the others stay.
pub open spec fn blitted(
    buf: Seq<u32>,
    width: usize,
    height: usize,
    ox: i32,
    oy: i32,
    g: GlyphBmp,
    r: u32,
    gr: u32,
    b: u32,
) -> Seq<u32> {
    Seq::new(
        buf.len(),
        |i: int|
            {
                let gx = i % (width as int) - ox;
                let gy = i / (width as int) - oy;
                if inked(g, width, height, ox, oy, gx, gy) {
                    tinted(r, gr, b, g.at(gx, gy))
                } else {
                    buf[i]
                }
            },
    )
}

/// The buffer after the glyph's rows before `y` and the pixels before `x` in the row `y`.
spec fn blitted_to(
    buf: Seq<u32>,
    width: usize,
    height: usize,
    ox: i32,
    oy: i32,
    g: GlyphBmp,
    r: u32,
    gr: u32,
    b: u32,
    x: int,
    y: int,
) -> Seq<u32> {
    Seq::new(
        buf.len(),
        |i: int|
            {
                let gx = i % (width as int) - ox;
                let gy = i / (width as int) - oy;
                if inked(g, width, height, ox, oy, gx, gy) && (gy < y || (gy == y && gx < x)) {
                    tinted(r, gr, b, g.at(gx, gy))
                } else {
                    buf[i]
                }
            },
    )
}

/// What is left of a length taken as a signed 32-bit number is no more than the length.
pub(crate) proof fn signed_is_no_more(n: usize)
    ensures
        n as i32 <= n,
{
    let m = n as i32;
    assert(m <= n) by (bit_vector)
        requires
            m == n as i32,
    ;
}

/// The column and the row of a place.
pub(crate) proof fn place_splits(w: int, x: int, y: int)
    requires
        0 <= x < w,
    ensures
        (y * w + x) % w == x,
        (y * w + x) / w == y,
{
    vstd::arithmetic::div_mod::lemma_fundamental_div_mod_converse(y * w + x, w, y, x);
}

/// One more pixel of the glyph changes the buffer at most in that pixel's place.
proof fn pixel_advances(
    buf: Seq<u32>,
    width: usize,
    height: usize,
    ox: i32,
    oy: i32,
    g: GlyphBmp,
    r: u32,
    gr: u32,
    b: u32,
    x: int,
    y: int,
)
    requires
        inked(g, width, height, ox, oy, x, y) ==> 0 <= (oy + y) * width + (ox + x) < buf.len(),
    ensures
        blitted_to(buf, width, height, ox, oy, g, r, gr, b, x + 1, y) == if inked(
            g,
            width,
            height,
            ox,
            oy,
            x,
            y,
        ) {
            blitted_to(buf, width, height, ox, oy, g, r, gr, b, x, y).update(
                (oy + y) * width + (ox + x),
                tinted(r, gr, b, g.at(x, y)),
            )
        } else {
            blitted_to(buf, width, height, ox, oy, g, r, gr, b, x, y)
        },
{
    let old_buf = blitted_to(buf, width, height, ox, oy, g, r, gr, b, x, y);
    let new_buf = blitted_to(buf, width, height, ox, oy, g, r, gr, b, x + 1, y);
    let w = width as int;
    if inked(g, width, height, ox, oy, x, y) {
        let place = (oy + y) * w + (ox + x);
        signed_is_no_more(width);
        place_splits(w, ox + x, oy + y);
        assert forall|i: int| 0 <= i < buf.len() implies new_buf[i] == old_buf.update(
            place,
            tinted(r, gr, b, g.at(x, y)),
        )[i] by {
            if i != place && i % w - ox == x && i / w - oy == y {
                vstd::arithmetic::div_mod::lemma_fundamental_div_mod(i, w);
                assert(w * (i / w) == (oy + y) * w) by (nonlinear_arith)
                    requires
                        i / w == oy + y,
                ;
            }
        }
        assert(new_buf =~= old_buf.update(place, tinted(r, gr, b, g.at(x, y))));
    } else {
        assert(new_buf =~= old_buf);
    }
}

fn tint(r: u32, gr: u32, b: u32, a: u8) -> (p: u32)
    requires
        r * a <= u32::MAX,
        gr * a <= u32::MAX,
        b * a <= u32::MAX,
    ensures
        p == tinted(r, gr, b, a),
{
    let rq: u32 = r * (a as u32) / 255;
    let gq: u32 = gr * (a as u32) / 255;
    let bq: u32 = b * (a as u32) / 255;
    let rr: u32 = rq & 0xFF;
    let gg: u32 = gq & 0xFF;
    let bb: u32 = bq & 0xFF;
    assert(rq & 0xFF == rq % 256) by (bit_vector);
    assert(gq & 0xFF == gq % 256) by (bit_vector);
    assert(bq & 0xFF == bq % 256) by (bit_vector);
    assert((rr << 16) | (gg << 8) | bb == rr * 0x1_0000 + gg * 0x100 + bb) by (bit_vector)
        requires
            rr < 256,
            gg < 256,
            bb < 256,
    ;
    (rr << 16) | (gg << 8) | bb
}

/// Paints a glyph in one colour with its corner at `(ox, oy)`, cut off at the edges of a picture of
/// `width` by `height` pixels.
pub fn blit(
    buf: &mut [u32],
    width: usize,
    height: usize,
    ox: i32,
    oy: i32,
    g: &GlyphBmp,
    r: u32,
    gr: u32,
    b: u32,
)
    requires
        blit_fits(old(buf)@.len() as int, width, height, ox, oy, *g, r, gr, b),
    ensures
        final(buf)@ == blitted(old(buf)@, width, height, ox, oy, *g, r, gr, b),
{
    let ghost start = buf@;
    let ghost len = buf.len();
    let h: i32 = g.h as i32;
    let w: i32 = g.w as i32;
    let view_h: i32 = height as i32;
    let view_w: i32 = width as i32;
    proof {
        signed_is_no_more(g.h);
        signed_is_no_more(g.w);
        signed_is_no_more(width);
    }
    let mut gy: i32 = 0;
    assert(buf@ =~= blitted_to(start, width, height, ox, oy, *g, r, gr, b, 0, 0));
    while gy < h
        invariant
            0 <= gy,
            gy <= h || h < 0,
            h == g.h as i32,
            w == g.w as i32,
            view_h == height as i32,
            view_w == width as i32,
            h <= g.h,
            w <= g.w,
            view_w <= width,
            buf@.len() == start.len() == len,
            blit_fits(start.len() as int, width, height, ox, oy, *g, r, gr, b),
            buf@ == blitted_to(start, width, height, ox, oy, *g, r, gr, b, 0, gy as int),
        decreases h - gy,
    {
        let py: i32 = oy + gy;
        if py >= 0 && py < view_h {
            let mut gx: i32 = 0;
            while gx < w
                invariant
                    0 <= gx,
                    gx <= w || w < 0,
                    0 <= gy < h,
                    py == oy + gy,
                    0 <= py < view_h,
                    h == g.h as i32,
                    w == g.w as i32,
                    view_h == height as i32,
                    view_w == width as i32,
                    h <= g.h,
                    w <= g.w,
                    view_w <= width,
                    buf@.len() == start.len() == len,
                    blit_fits(start.len() as int, width, height, ox, oy, *g, r, gr, b),
                    buf@ == blitted_to(
                        start,
                        width,
                        height,
                        ox,
                        oy,
                        *g,
                        r,
                        gr,
                        b,
                        gx as int,
                        gy as int,
                    ),
                decreases w - gx,
            {
                proof {
                    place_is_within(g.w as int, g.h as int, gx as int, gy as int);
                    assert(g.cov.len() == g.w * g.h);
                }
                let a: u8 = g.cov[(gy as usize) * g.w + gx as usize];
                assert(pixel_fits(
                    len as int,
                    width,
                    height,
                    ox,
                    oy,
                    *g,
                    r,
                    gr,
                    b,
                    gx as int,
                    gy as int,
                ));
                assert(py * width >= 0) by (nonlinear_arith)
                    requires
                        py >= 0,
                        width >= 0,
                ;
                assert(a == g.at(gx as int, gy as int));
                if a != 0 {
                    let px: i32 = ox + gx;
                    if px >= 0 && px < view_w {
                        assert(inked(*g, width, height, ox, oy, gx as int, gy as int));
                        proof {
                            place_splits(width as int, px as int, py as int);
                        }
                        let i: usize = (py as usize) * width + px as usize;
                        buf[i] = tint(r, gr, b, a);
                    }
                }
                proof {
                    pixel_advances(
                        start,
                        width,
                        height,
                        ox,
                        oy,
                        *g,
                        r,
                        gr,
                        b,
                        gx as int,
                        gy as int,
                    );
                }
                gx = gx + 1;
            }
        }
        assert(buf@ =~= blitted_to(start, width, height, ox, oy, *g, r, gr, b, 0, gy + 1));
        gy = gy + 1;
    }
    assert(buf@ =~= blitted(start, width, height, ox, oy, *g, r, gr, b));
}

/// Whether a glyph can be painted at `(ox, oy)` in a buffer of `len` pixels.
pub fn can_blit(
    len: usize,
    width: usize,
    height: usize,
    ox: i32,
    oy: i32,
    g: &GlyphBmp,
    r: u32,
    gr: u32,
    b: u32,
) -> (fits: bool)
    ensures
        fits == blit_fits(len as int, width, height, ox, oy, *g, r, gr, b),
{
    let h: i32 = g.h as i32;
    let w: i32 = g.w as i32;
    let view_h: i32 = height as i32;
    let view_w: i32 = width as i32;
    proof {
        signed_is_no_more(g.h);
        signed_is_no_more(g.w);
        signed_is_no_more(width);
        signed_is_no_more(height);
    }
    match g.w.checked_mul(g.h) {
        Some(n) => {
            if n != g.cov.len() {
                return false;
            }
        },
        None => {
            assert(g.cov.len() != g.w * g.h);
            return false;
        },
    }
    if oy as i64 + h as i64 - 1 > i32::MAX as i64 {
        return false;
    }
    if ox as i64 + w as i64 - 1 <= i32::MAX as i64 && r <= 255 && gr <= 255 && b <= 255 {
        if let Some(n) = width.checked_mul(height) {
            if n <= len {
                assert forall|gx: int, gy: int|
                    #[trigger]
                    pixel_fits(len as int, width, height, ox, oy, *g, r, gr, b, gx, gy) by {
                    if inked(*g, width, height, ox, oy, gx, gy) {
                        place_is_within(width as int, height as int, ox + gx, oy + gy);
                        let a = g.at(gx, gy);
                        assert(r * a <= 255 * 255 && gr * a <= 255 * 255 && b * a <= 255 * 255)
                            by (nonlinear_arith)
                            requires
                                r <= 255,
                                gr <= 255,
                                b <= 255,
                                a <= 255,
                        ;
                    }
                }
                return true;
            }
        }
    }
    let mut gy: i32 = 0;
    while gy < h
        invariant
            0 <= gy,
            gy <= h || h < 0,
            g.wf(),
            oy + h - 1 <= i32::MAX,
            h == g.h as i32,
            w == g.w as i32,
            view_h == height as i32,
            view_w == width as i32,
            h <= g.h,
            w <= g.w,
            forall|x: int, y: int|
                y < gy ==> #[trigger] pixel_fits(
                    len as int,
                    width,
                    height,
                    ox,
                    oy,
                    *g,
                    r,
                    gr,
                    b,
                    x,
                    y,
                ),
        decreases h - gy,
    {
        let py: i32 = oy + gy;
        if py >= 0 && py < view_h {
            let mut gx: i32 = 0;
            while gx < w
                invariant
                    0 <= gx,
                    gx <= w || w < 0,
                    0 <= gy < h,
                    g.wf(),
                    py == oy + gy,
                    0 <= py < view_h,
                    h == g.h as i32,
                    w == g.w as i32,
                    view_h == height as i32,
                    view_w == width as i32,
                    h <= g.h,
                    w <= g.w,
                    forall|x: int, y: int|
                        y < gy || (y == gy && x < gx) ==> #[trigger] pixel_fits(
                            len as int,
                            width,
                            height,
                            ox,
                            oy,
                            *g,
                            r,
                            gr,
                            b,
                            x,
                            y,
                        ),
                decreases w - gx,
            {
                proof {
                    place_is_within(g.w as int, g.h as int, gx as int, gy as int);
                    assert(g.cov.len() == g.w * g.h);
                }
                let a: u8 = g.cov[(gy as usize) * g.w + gx as usize];
                assert(a == g.at(gx as int, gy as int));
                if a != 0 {
                    let px: i64 = ox as i64 + gx as i64;
                    let mut fits: bool = px <= i32::MAX as i64;
                    if fits && px >= 0 && px < view_w as i64 {
                        proof {
                            assert(py * width <= 0x8000_0000 * 0x1_0000_0000_0000_0000) by (nonlinear_arith)
                                requires
                                    0 <= py <= 0x7fff_ffff,
                                    0 <= width <= 0xffff_ffff_ffff_ffff,
                            ;
                            assert(r * a <= 0xffff_ffff * 255 && gr * a <= 0xffff_ffff * 255 && b * a
                                <= 0xffff_ffff * 255) by (nonlinear_arith)
                                requires
                                    0 <= r <= 0xffff_ffff,
                                    0 <= gr <= 0xffff_ffff,
                                    0 <= b <= 0xffff_ffff,
                                    0 <= a <= 255,
                            ;
                        }
                        fits = (py as u128) * (width as u128) + (px as u128) < len as u128
                            && (r as u64) * (a as u64) <= u32::MAX as u64 && (gr as u64) * (
                        a as u64) <= u32::MAX as u64 && (b as u64) * (a as u64) <= u32::MAX as u64;
                    }
                    assert(in_view(*g, height, oy, gx as int, gy as int));
                    assert(fits == pixel_fits(
                        len as int,
                        width,
                        height,
                        ox,
                        oy,
                        *g,
                        r,
                        gr,
                        b,
                        gx as int,
                        gy as int,
                    ));
                    if !fits {
                        return false;
                    }
                }
                gx = gx + 1;
            }
        }
        gy = gy + 1;
    }
    true
}

/// Painting a glyph twice in the same place is painting it once.
pub proof fn blitting_twice_is_blitting_once(
    buf: Seq<u32>,
    width: usize,
    height: usize,
    ox: i32,
    oy: i32,
    g: GlyphBmp,
    r: u32,
    gr: u32,
    b: u32,
)
    ensures
        blitted(
            blitted(buf, width, height, ox, oy, g, r, gr, b),
            width,
            height,
            ox,
            oy,
            g,
            r,
            gr,
            b,
        ) == blitted(buf, width, height, ox, oy, g, r, gr, b),
{
    assert(blitted(
        blitted(buf, width, height, ox, oy, g, r, gr, b),
        width,
        height,
        ox,
        oy,
        g,
        r,
        gr,
        b,
    ) =~= blitted(buf, width, height, ox, oy, g, r, gr, b));
}

/// A glyph touches no pixel outside its box and none that it does not cover.
pub proof fn glyphs_stay_in_their_box(
    buf: Seq<u32>,
    width: usize,
    height: usize,
    ox: i32,
    oy: i32,
    g: GlyphBmp,
    r: u32,
    gr: u32,
    b: u32,
    px: int,
    py: int,
)
    requires
        0 <= px < width,
        0 <= py * width + px < buf.len(),
        !(ox <= px < ox + g.w as i32 && oy <= py < oy + g.h as i32) || g.at(px - ox, py - oy) == 0,
    ensures
        blitted(buf, width, height, ox, oy, g, r, gr, b)[py * width + px] == buf[py * width + px],
{
    place_splits(width as int, px, py);
}

/// A fully covered pixel takes the colour itself.
pub proof fn full_coverage_is_the_colour(r: u8, gr: u8, b: u8)
    ensures
        tinted(r as u32, gr as u32, b as u32, 255) == r * 0x1_0000 + gr * 0x100 + b,
{
    assert((r as u32) * 255u8 / 255 == r);
    assert((gr as u32) * 255u8 / 255 == gr);
    assert((b as u32) * 255u8 / 255 == b);
}

/// More coverage never darkens a channel.
pub proof fn coverage_brightens(c: u8, a: u8, more: u8)
    requires
        a <= more,
    ensures
        channel(c as u32, a) <= channel(c as u32, more) <= c,
{
    assert((c as int) * a <= (c as int) * more <= c * 255) by (nonlinear_arith)
        requires
            0 <= a <= more <= 255,
            c >= 0,
    ;
}

/// Whether `v` is the channel `c` at the coverage `a` of 255, rounded down.
pub open spec fn is_covered(v: int, c: int, a: u8) -> bool {
    255 * v <= c * a < 255 * (v + 1)
}

/// Whether a pixel is `0x00RRGGBB` of this colour at the coverage `a`.
pub open spec fn is_tint(p: u32, r: int, gr: int, b: int, a: u8) -> bool {
    &&& p < 0x100_0000
    &&& is_covered(p as int / 0x1_0000, r, a)
    &&& is_covered(p as int / 0x100 % 0x100, gr, a)
    &&& is_covered(p as int % 0x100, b, a)
}

proof fn channels_are_covered(c: u32, a: u8)
    requires
        c <= 255,
    ensures
        is_covered(channel(c, a), c as int, a),
        0 <= channel(c, a) < 256,
{
    assert(0 <= c * a <= 255 * 255) by (nonlinear_arith)
        requires
            0 <= c <= 255,
            0 <= a <= 255,
    ;
}

/// A colour of bytes at a coverage is that part of each channel, red on top and blue at the bottom.
pub proof fn tints_are_parts_of_the_colour(r: u32, gr: u32, b: u32, a: u8)
    requires
        r <= 255,
        gr <= 255,
        b <= 255,
    ensures
        is_tint(tinted(r, gr, b, a), r as int, gr as int, b as int, a),
{
    channels_are_covered(r, a);
    channels_are_covered(gr, a);
    channels_are_covered(b, a);
    three_bytes_come_apart(channel(r, a), channel(gr, a), channel(b, a));
}

/// Of a channel that is more than a byte at its coverage, the lowest byte is painted.
pub proof fn channels_keep_their_lowest_byte(
    r: u32,
    gr: u32,
    b: u32,
    a: u8,
    at_r: int,
    at_g: int,
    at_b: int,
)
    requires
        is_covered(at_r, r as int, a),
        is_covered(at_g, gr as int, a),
        is_covered(at_b, b as int, a),
    ensures
        tinted(r, gr, b, a) == (at_r % 0x100) * 0x1_0000 + (at_g % 0x100) * 0x100 + at_b % 0x100,
{
    assert(at_r == r * a / 255);
    assert(at_g == gr * a / 255);
    assert(at_b == b * a / 255);
    three_bytes_come_apart(channel(r, a), channel(gr, a), channel(b, a));
}

proof fn three_bytes_come_apart(x: int, y: int, z: int)
    requires
        0 <= x < 256,
        0 <= y < 256,
        0 <= z < 256,
    ensures
        ({
            let p = (x * 0x1_0000 + y * 0x100 + z) as u32;
            p < 0x100_0000 && p as int / 0x1_0000 == x && p as int / 0x100 % 0x100 == y && p as int
                % 0x100 == z
        }),
{
}

/// A pixel that a glyph covers takes the glyph's colour at the coverage there. Rows of coverage are
/// as wide as the glyph, and rows of the buffer as wide as the picture.
pub proof fn covered_pixels_take_the_colour(
    buf: Seq<u32>,
    width: usize,
    height: usize,
    ox: i32,
    oy: i32,
    g: GlyphBmp,
    r: u32,
    gr: u32,
    b: u32,
    gx: int,
    gy: int,
)
    requires
        width <= i32::MAX,
        height <= i32::MAX,
        g.w <= i32::MAX,
        g.h <= i32::MAX,
        0 <= gx < g.w,
        0 <= gy < g.h,
        g.cov@[gy * g.w + gx] > 0,
        0 <= ox + gx < width,
        0 <= oy + gy < height,
        (oy + gy) * width + ox + gx < buf.len(),
        r <= 255,
        gr <= 255,
        b <= 255,
    ensures
        is_tint(
            blitted(buf, width, height, ox, oy, g, r, gr, b)[(oy + gy) * width + ox + gx],
            r as int,
            gr as int,
            b as int,
            g.cov@[gy * g.w + gx],
        ),
{
    place_splits(width as int, ox + gx, oy + gy);
    assert((oy + gy) * width >= 0) by (nonlinear_arith)
        requires
            oy + gy >= 0,
            width >= 0,
    ;
    assert((oy + gy) * width + (ox + gx) == (oy + gy) * width + ox + gx);
    tints_are_parts_of_the_colour(r, gr, b, g.cov@[gy * g.w + gx]);
}

/// A pixel that a glyph does not cover, or that is outside its box or outside the picture, stays.
pub proof fn other_pixels_stay(
    buf: Seq<u32>,
    width: usize,
    height: usize,
    ox: i32,
    oy: i32,
    g: GlyphBmp,
    r: u32,
    gr: u32,
    b: u32,
    px: int,
    py: int,
)
    requires
        width <= i32::MAX,
        height <= i32::MAX,
        g.w <= i32::MAX,
        g.h <= i32::MAX,
        0 <= px < width,
        0 <= py * width + px < buf.len(),
        0 <= px - ox < g.w && 0 <= py - oy < g.h && 0 <= py < height ==> g.cov@[(py - oy) * g.w + (px
            - ox)] == 0,
    ensures
        blitted(buf, width, height, ox, oy, g, r, gr, b)[py * width + px] == buf[py * width + px],
        blitted(buf, width, height, ox, oy, g, r, gr, b).len() == buf.len(),
{
    place_splits(width as int, px, py);
}

} // verus!
