//! Pictures of the rain: bytes of red, green and blue, and indices into a palette.
use vstd::prelude::*;

use crate::color::Rgb;

verus! {

/// The red channel of a pixel.
pub open spec fn red(px: u32) -> u8 {
    (px / 0x1_0000 % 256) as u8
}

/// The green channel of a pixel.
pub open spec fn green(px: u32) -> u8 {
    (px / 0x100 % 256) as u8
}

/// The blue channel of a pixel.
pub open spec fn blue(px: u32) -> u8 {
    (px % 256) as u8
}

/// The channels of the pixels one after the other.
pub open spec fn rgb_of(buf: Seq<u32>) -> Seq<u8> {
    Seq::new(
        3 * buf.len(),
        |i: int|
            if i % 3 == 0 {
                red(buf[i / 3])
            } else if i % 3 == 1 {
                green(buf[i / 3])
            } else {
                blue(buf[i / 3])
            },
    )
}

fn split(px: u32) -> (r: (u8, u8, u8))
    ensures
        r == (red(px), green(px), blue(px)),
{
    assert((px >> 16) as u8 == (px / 0x1_0000 % 256) as u8) by (bit_vector);
    assert((px >> 8) as u8 == (px / 0x100 % 256) as u8) by (bit_vector);
    assert(px as u8 == (px % 256) as u8) by (bit_vector);
    ((px >> 16) as u8, (px >> 8) as u8, px as u8)
}

/// The channels of the pixels one after the other.
pub fn rgb_bytes(buf: &[u32]) -> (r: Vec<u8>)
    ensures
        r@ == rgb_of(buf@),
{
    let n: usize = buf.len();
    let mut out: Vec<u8> = Vec::new();
    assert(out@ =~= rgb_of(buf@.take(0)));
    for i in 0..n
        invariant
            n == buf@.len(),
            out@ == rgb_of(buf@.take(i as int)),
    {
        let ghost before = out@;
        let (r, g, b): (u8, u8, u8) = split(buf[i]);
        out.push(r);
        out.push(g);
        out.push(b);
        let ghost more = buf@.take(i + 1);
        assert forall|j: int| 0 <= j < 3 * (i + 1) implies out@[j] == rgb_of(more)[j] by {
            if j < 3 * i {
                assert(out@[j] == before[j]);
                assert(more[j / 3] == buf@.take(i as int)[j / 3]);
            } else {
                assert(j / 3 == i);
                assert(more[i as int] == buf@[i as int]);
            }
        }
        assert(out@ =~= rgb_of(more));
    }
    assert(buf@.take(n as int) == buf@);
    out
}

/// Width of a picture of one frame.
pub const SHOT_WIDTH: u32 = 1600;

/// Height of a picture of one frame.
pub const SHOT_HEIGHT: u32 = 900;

/// How often the rain moves before that picture is taken.
pub const SHOT_STEPS: u32 = 220;

/// Width of an animation.
pub const GIF_WIDTH: u16 = 800;

/// Height of an animation.
pub const GIF_HEIGHT: u16 = 450;

/// How often the rain moves before the first frame of an animation.
pub const GIF_STEPS: u32 = 120;

/// How many frames an animation has.
pub const GIF_FRAMES: u32 = 60;

/// How long a frame of an animation stays, in hundredths of a second.
pub const GIF_DELAY: u16 = 5;

/// How many shades of the trail an animation has.
pub const LEVELS: usize = 32;

/// How many colours the palette of an animation holds.
pub const COLORS: usize = 64;

/// A channel at the shade `k` of 32.
pub open spec fn shade(c: u8, k: int) -> u8 {
    (c * k / 32) as u8
}

/// The colour `i` of an animation: black, the leader, then the trail from dark to bright.
pub open spec fn palette_color(head: Rgb, trail: Rgb, i: int) -> Rgb {
    if i == 1 {
        head
    } else if 2 <= i < 2 + LEVELS {
        (shade(trail.0, i - 1), shade(trail.1, i - 1), shade(trail.2, i - 1))
    } else {
        (0u8, 0u8, 0u8)
    }
}

/// The channels of the palette one after the other.
pub open spec fn palette_of(head: Rgb, trail: Rgb) -> Seq<u8> {
    Seq::new(
        (3 * COLORS) as nat,
        |j: int|
            {
                let c = palette_color(head, trail, j / 3);
                if j % 3 == 0 {
                    c.0
                } else if j % 3 == 1 {
                    c.1
                } else {
                    c.2
                }
            },
    )
}

fn shaded(c: u8, k: usize) -> (r: u8)
    requires
        k <= 32,
    ensures
        r == shade(c, k as int),
{
    assert(c * k <= 255 * 32) by (nonlinear_arith)
        requires
            c <= 255,
            k <= 32,
    ;
    ((c as usize) * k / 32) as u8
}

/// The palette of an animation, as channels one after the other.
pub fn palette(head: Rgb, trail: Rgb) -> (r: Vec<u8>)
    ensures
        r@ == palette_of(head, trail),
{
    let mut out: Vec<u8> = Vec::new();
    for i in 0..COLORS
        invariant
            out@ == palette_of(head, trail).take(3 * i),
    {
        let (r, g, b): Rgb = if i == 1 {
            head
        } else if 2 <= i && i < 2 + LEVELS {
            (shaded(trail.0, i - 1), shaded(trail.1, i - 1), shaded(trail.2, i - 1))
        } else {
            (0u8, 0u8, 0u8)
        };
        assert((r, g, b) == palette_color(head, trail, i as int));
        out.push(r);
        out.push(g);
        out.push(b);
        assert(out@ =~= palette_of(head, trail).take(3 * (i + 1)));
    }
    assert(out@ =~= palette_of(head, trail));
    out
}

/// The greatest of the channels of a pixel.
pub open spec fn brightest(px: u32) -> u8 {
    let m = if red(px) >= green(px) {
        red(px)
    } else {
        green(px)
    };
    if m >= blue(px) {
        m
    } else {
        blue(px)
    }
}

/// The palette's index for a pixel: black, a light leader, or a shade of the trail.
pub open spec fn index_of(px: u32) -> u8 {
    if red(px) == 0 && green(px) == 0 && blue(px) == 0 {
        0
    } else if red(px) > 120 && blue(px) > 120 {
        1
    } else {
        (2 + brightest(px) * 32 / 256) as u8
    }
}

/// The palette's index for a pixel.
pub fn palette_index(px: u32) -> (r: u8)
    ensures
        r == index_of(px),
{
    let (r, g, b): (u8, u8, u8) = split(px);
    if r == 0 && g == 0 && b == 0 {
        0
    } else if r > 120 && b > 120 {
        1
    } else {
        let m: u8 = if r >= g {
            r
        } else {
            g
        };
        let top: u8 = if m >= b {
            m
        } else {
            b
        };
        2 + ((top as usize) * LEVELS / 256) as u8
    }
}

/// The palette's indices for the pixels.
pub open spec fn indices_of(buf: Seq<u32>) -> Seq<u8> {
    buf.map_values(|px: u32| index_of(px))
}

/// The palette's indices for the pixels.
pub fn index_frame(buf: &[u32]) -> (r: Vec<u8>)
    ensures
        r@ == indices_of(buf@),
{
    let n: usize = buf.len();
    let mut out: Vec<u8> = Vec::new();
    for i in 0..n
        invariant
            n == buf@.len(),
            out@ == indices_of(buf@.take(i as int)),
    {
        out.push(palette_index(buf[i]));
        assert(out@ =~= indices_of(buf@.take(i + 1)));
    }
    assert(buf@.take(n as int) == buf@);
    out
}

/// Every index stands for one of the 34 colours in use, and only black for black.
pub proof fn indices_are_in_the_palette(px: u32)
    ensures
        index_of(px) < 2 + LEVELS,
        px < 0x100_0000 ==> (index_of(px) == 0 <==> px == 0),
{
}

/// The shades of the trail grow from dark to bright and end with the trail's own colour.
pub proof fn shades_grow_to_the_trail(head: Rgb, trail: Rgb, i: int, j: int)
    requires
        2 <= i <= j < 2 + LEVELS,
    ensures
        palette_color(head, trail, i).0 <= palette_color(head, trail, j).0 <= trail.0,
        palette_color(head, trail, i).1 <= palette_color(head, trail, j).1 <= trail.1,
        palette_color(head, trail, i).2 <= palette_color(head, trail, j).2 <= trail.2,
        palette_color(head, trail, 1 + LEVELS) == trail,
{
    assert forall|c: u8| #[trigger] shade(c, i - 1) <= shade(c, j - 1) <= c by {
        assert(c * (i - 1) <= c * (j - 1) <= c * 32) by (nonlinear_arith)
            requires
                2 <= i <= j < 34,
                c >= 0,
        ;
    }
    assert(shade(trail.0, i - 1) <= shade(trail.0, j - 1));
    assert(shade(trail.1, i - 1) <= shade(trail.1, j - 1));
    assert(shade(trail.2, i - 1) <= shade(trail.2, j - 1));
}

/// The pixel made of three channels is split into the same channels.
pub proof fn channels_read_back(r: u8, g: u8, b: u8)
    ensures
        red((r * 0x1_0000 + g * 0x100 + b) as u32) == r,
        green((r * 0x1_0000 + g * 0x100 + b) as u32) == g,
        blue((r * 0x1_0000 + g * 0x100 + b) as u32) == b,
{
}

/// The bytes of a picture are three for each pixel, its red, green and blue in this order.
pub proof fn pixels_lie_in_order(buf: Seq<u32>, i: int)
    requires
        0 <= i < buf.len(),
    ensures
        rgb_of(buf).len() == 3 * buf.len(),
        rgb_of(buf)[3 * i] == red(buf[i]),
        rgb_of(buf)[3 * i + 1] == green(buf[i]),
        rgb_of(buf)[3 * i + 2] == blue(buf[i]),
{
}

/// The bytes of a picture are the pixels of the buffer, `0x00RRGGBB` each, red first.
pub proof fn bytes_spell_the_pixels(buf: Seq<u32>, i: int)
    requires
        0 <= i < buf.len(),
    ensures
        rgb_of(buf).len() == 3 * buf.len(),
        rgb_of(buf)[3 * i] * 0x1_0000 + rgb_of(buf)[3 * i + 1] * 0x100 + rgb_of(buf)[3 * i + 2]
            == buf[i] % 0x100_0000,
{
}

/// A pixel that is neither black nor light in red and blue has the shade of its greatest channel:
/// with `m` for that channel the shades before it come to `32 * m / 256`.
pub proof fn the_greatest_channel_picks_the_shade(r: u8, g: u8, b: u8, m: u8)
    requires
        r > 0 || g > 0 || b > 0,
        r <= 120 || b <= 120,
        m >= r && m >= g && m >= b,
        m == r || m == g || m == b,
    ensures
        ({
            let k = index_of((r * 0x1_0000 + g * 0x100 + b) as u32) - 2;
            0 <= k && k * 256 <= m * 32 < (k + 1) * 256
        }),
{
    channels_read_back(r, g, b);
}

/// Black has the first index, and what is light in red and blue the second, the leader's.
pub proof fn black_and_leaders_have_their_own_index(r: u8, g: u8, b: u8)
    ensures
        index_of(0) == 0,
        r > 120 && b > 120 ==> index_of((r * 0x1_0000 + g * 0x100 + b) as u32) == 1,
{
    channels_read_back(r, g, b);
}

/// The top byte of a pixel, which holds no channel, does not matter.
pub proof fn the_top_byte_does_not_matter(px: u32, top: u8)
    requires
        px < 0x100_0000,
    ensures
        index_of((top * 0x100_0000 + px) as u32) == index_of(px),
{
    let q = (top * 0x100_0000 + px) as u32;
    assert(q / 0x1_0000 % 256 == px / 0x1_0000 % 256 && q / 0x100 % 256 == px / 0x100 % 256 && q
        % 256 == px % 256) by (bit_vector)
        requires
            q == top * 0x100_0000 + px,
            px < 0x100_0000,
    ;
}

/// Every pixel of a frame has its own index in its own place.
pub proof fn pixels_are_indexed_one_by_one(buf: Seq<u32>, i: int)
    requires
        0 <= i < buf.len(),
    ensures
        indices_of(buf).len() == buf.len(),
        indices_of(buf)[i] == index_of(buf[i]),
{
}

/// The three bytes of the palette's colour `i`.
pub open spec fn palette_bytes(p: Seq<u8>, i: int) -> Rgb {
    (p[3 * i], p[3 * i + 1], p[3 * i + 2])
}

/// Whether `v` is the part `k` of 32 of the channel `c`, rounded down.
pub open spec fn is_part(v: u8, c: u8, k: int) -> bool {
    32 * v <= c * k < 32 * (v + 1)
}

/// The palette holds 64 colours: black, the leader's, the trail's 32 shades from one part of 32 up
/// to the whole, and black to fill it up.
pub proof fn the_palette_is_black_leader_and_shades(head: Rgb, trail: Rgb, i: int)
    requires
        0 <= i < 64,
    ensures
        palette_of(head, trail).len() == 192,
        i == 0 || i >= 34 ==> palette_bytes(palette_of(head, trail), i) == (0u8, 0u8, 0u8),
        i == 1 ==> palette_bytes(palette_of(head, trail), i) == head,
        2 <= i < 34 ==> {
            &&& is_part(palette_bytes(palette_of(head, trail), i).0, trail.0, i - 1)
            &&& is_part(palette_bytes(palette_of(head, trail), i).1, trail.1, i - 1)
            &&& is_part(palette_bytes(palette_of(head, trail), i).2, trail.2, i - 1)
        },
{
    if 2 <= i < 34 {
        part_is_rounded_down(trail.0, i - 1);
        part_is_rounded_down(trail.1, i - 1);
        part_is_rounded_down(trail.2, i - 1);
    }
}

proof fn part_is_rounded_down(c: u8, k: int)
    requires
        1 <= k <= 32,
    ensures
        is_part(shade(c, k), c, k),
{
    assert(0 <= c * k <= 255 * 32) by (nonlinear_arith)
        requires
            0 <= c <= 255,
            1 <= k <= 32,
    ;
}

/// A trail in a full colour comes out in that very colour: its own index is that of the whole trail,
/// unless it is light enough to count as a leader.
pub proof fn full_trails_keep_their_colour(head: Rgb, trail: Rgb)
    requires
        trail.0 == 255 || trail.1 == 255 || trail.2 == 255,
        trail.0 <= 120 || trail.2 <= 120,
    ensures
        palette_bytes(
            palette_of(head, trail),
            index_of((trail.0 * 0x1_0000 + trail.1 * 0x100 + trail.2) as u32) as int,
        ) == trail,
{
    channels_read_back(trail.0, trail.1, trail.2);
    let i = index_of((trail.0 * 0x1_0000 + trail.1 * 0x100 + trail.2) as u32) as int;
    the_greatest_channel_picks_the_shade(trail.0, trail.1, trail.2, 255);
    assert(i == 33);
    the_palette_is_black_leader_and_shades(head, trail, 33);
}

/// The brighter of two pixels of a trail has no darker a shade.
pub proof fn brighter_pixels_have_brighter_shades(r: u8, g: u8, b: u8, r2: u8, g2: u8, b2: u8)
    requires
        r <= r2 && g <= g2 && b <= b2,
        r2 <= 120 || b2 <= 120,
    ensures
        index_of((r * 0x1_0000 + g * 0x100 + b) as u32) <= index_of(
            (r2 * 0x1_0000 + g2 * 0x100 + b2) as u32,
        ),
{
    channels_read_back(r, g, b);
    channels_read_back(r2, g2, b2);
}

} // verus!
