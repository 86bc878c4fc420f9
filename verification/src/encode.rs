//! Picture files: PNG for one frame, GIF for an animation.
use vstd::prelude::*;

use crate::color::Rgb;
use crate::picture::{indices_of, palette_of, rgb_of};
use crate::picture::{index_frame, palette, rgb_bytes};

verus! {

/// A picture that could not be encoded.
#[derive(Debug, Clone, Copy, PartialEq, Eq, Structural)]
pub struct EncodeError;

/// The errors of the `png` crate.
#[verifier::external_type_specification]
#[verifier::external_body]
pub struct ExPngError(png::EncodingError);

/// The errors of the `gif` crate.
#[verifier::external_type_specification]
#[verifier::external_body]
pub struct ExGifError(gif::EncodingError);

/// The bytes of a PNG file with 8-bit red, green and blue channels, as `png::Encoder` writes it.
pub uninterp spec fn png_file(width: u32, height: u32, rgb: Seq<u8>) -> Seq<u8>;

/// Whether the channels are those of a picture of this size that is not empty.
pub open spec fn is_picture(width: u32, height: u32, rgb: Seq<u8>) -> bool {
    width > 0 && height > 0 && rgb.len() == 3 * width * height
}

/// `png::Encoder` with its header and image data written into memory. It refuses an empty picture
/// and channels that are not three for each pixel, and nothing else; the file depends on the size
/// and the channels alone.
#[verifier::external_body]
fn write_png(width: u32, height: u32, rgb: &[u8]) -> (r: Result<Vec<u8>, png::EncodingError>)
    requires
        3 * width < u32::MAX,
        3 * width * height < usize::MAX,
    ensures
        r is Ok <==> is_picture(width, height, rgb@),
        r matches Ok(file) ==> file@ == png_file(width, height, rgb@),
{
    let mut file = Vec::new();
    let mut encoder = png::Encoder::new(&mut file, width, height);
    encoder.set_color(png::ColorType::Rgb);
    encoder.set_depth(png::BitDepth::Eight);
    encoder.write_header()?.write_image_data(rgb)?;
    Ok(file)
}

/// A PNG file of one frame.
pub fn encode_png(width: u32, height: u32, buf: &[u32]) -> (r: Result<Vec<u8>, EncodeError>)
    requires
        3 * width < u32::MAX,
        3 * width * height < usize::MAX,
    ensures
        r is Ok <==> width > 0 && height > 0 && buf@.len() == width * height,
        r matches Ok(file) ==> file@ == png_file(width, height, rgb_of(buf@)),
{
    let rgb = rgb_bytes(buf);
    assert(rgb@.len() == 3 * width * height <==> buf@.len() == width * height) by (nonlinear_arith)
        requires
            rgb@.len() == 3 * buf@.len(),
    ;
    match write_png(width, height, rgb.as_slice()) {
        Ok(file) => Ok(file),
        Err(_) => Err(EncodeError),
    }
}

/// The `gif` crate's encoder, writing into memory.
#[verifier::external_body]
pub struct GifEncoder {
    inner: gif::Encoder<Vec<u8>>,
}

/// The bytes that the encoder has written.
pub uninterp spec fn gif_written(e: GifEncoder) -> Seq<u8>;

/// The indices of each frame that the encoder has written.
pub uninterp spec fn gif_indices(e: GifEncoder) -> Seq<Seq<u8>>;

/// How many colours the palette has that the encoder was made with.
pub uninterp spec fn gif_colors(e: GifEncoder) -> nat;

/// Whether a frame of `n` pixels needs no more working memory than the frames before it: it has
/// fewer than four pixels, or one of them was no smaller.
pub open spec fn needs_no_memory<A>(frames: Seq<Seq<A>>, n: nat) -> bool {
    n < 4 || exists|i: int| 0 <= i < frames.len() && (#[trigger] frames[i]).len() >= n
}

/// A 16-bit number, low byte first.
pub open spec fn le16(n: u16) -> Seq<u8> {
    seq![(n % 256) as u8, (n / 256) as u8]
}

/// The size field of a colour table: `t` where the table has room for `2 << t` colours.
pub open spec fn table_bits(colors: nat) -> u8 {
    if colors <= 2 {
        0
    } else if colors <= 4 {
        1
    } else if colors <= 8 {
        2
    } else if colors <= 16 {
        3
    } else if colors <= 32 {
        4
    } else if colors <= 64 {
        5
    } else if colors <= 128 {
        6
    } else {
        7
    }
}

/// How many colours a colour table with this size field has room for.
pub open spec fn table_room(bits: u8) -> nat {
    if bits == 0 {
        2
    } else if bits == 1 {
        4
    } else if bits == 2 {
        8
    } else if bits == 3 {
        16
    } else if bits == 4 {
        32
    } else if bits == 5 {
        64
    } else if bits == 6 {
        128
    } else {
        256
    }
}

/// How a GIF file starts: signature, size, and colour table filled up with black.
pub open spec fn gif_head(width: u16, height: u16, palette: Seq<u8>) -> Seq<u8> {
    let n = palette.len() / 3;
    let t = table_bits(n);
    seq![71u8, 73, 70, 56, 57, 97] + le16(width) + le16(height) + seq![(128 + 17 * t) as u8, 0u8, 0]
        + palette.take(3 * n as int) + Seq::new(
        (3 * (table_room(t) - n)) as nat,
        |i: int| 0u8,
    )
}

/// The block that makes a GIF repeat for ever.
pub open spec fn gif_repeat() -> Seq<u8> {
    seq![33u8, 255, 11, 78, 69, 84, 83, 67, 65, 80, 69, 50, 46, 48, 3, 1, 0, 0, 0]
}

/// The compressed image data for indices, as `gif::Encoder` writes it.
pub uninterp spec fn gif_image_data(indices: Seq<u8>) -> Seq<u8>;

/// How a frame of a GIF starts: how long it stays, and its size.
pub open spec fn gif_frame_head(width: u16, height: u16, delay: u16) -> Seq<u8> {
    seq![33u8, 249, 4, 4] + le16(delay) + seq![0u8, 0, 44, 0, 0, 0, 0] + le16(width) + le16(height)
        + seq![0u8]
}

/// A frame of a GIF.
pub open spec fn gif_frame(width: u16, height: u16, delay: u16, indices: Seq<u8>) -> Seq<u8> {
    gif_frame_head(width, height, delay) + gif_image_data(indices)
}

/// `gif::Encoder::new` writes the head of the file. It refuses a palette of more than 256 colours
/// and nothing else.
#[verifier::external_body]
fn gif_new(width: u16, height: u16, palette: &[u8]) -> (r: Result<GifEncoder, gif::EncodingError>)
    ensures
        r is Ok <==> palette@.len() / 3 <= 256,
        r matches Ok(e) ==> gif_written(e) == gif_head(width, height, palette@),
        r matches Ok(e) ==> gif_indices(e) == Seq::<Seq<u8>>::empty(),
        r matches Ok(e) ==> gif_colors(e) == palette@.len() / 3,
{
    let inner = gif::Encoder::new(Vec::new(), width, height, palette)?;
    Ok(GifEncoder { inner })
}

/// `gif::Encoder::set_repeat` with an infinite count writes the block that says so; into memory it
/// does not fail.
#[verifier::external_body]
fn gif_repeat_forever(e: &mut GifEncoder) -> (r: Result<(), gif::EncodingError>)
    ensures
        r is Ok,
        gif_written(*final(e)) == gif_written(*old(e)) + gif_repeat(),
        gif_indices(*final(e)) == gif_indices(*old(e)),
        gif_colors(*final(e)) == gif_colors(*old(e)),
{
    e.inner.set_repeat(gif::Repeat::Infinite)
}

/// `gif::Encoder::write_frame` with an opaque frame that fills the picture. Too few indices are
/// refused with nothing written. Enough indices are written if the encoder has a palette and the
/// frame needs no memory: the encoder reserves a byte for every four indices in a buffer that it
/// keeps from frame to frame, and does not fail otherwise. Of a frame larger than all before it
/// nothing is promised, since reserving fails when memory runs out, and neither is what a failure
/// there leaves written.
#[verifier::external_body]
fn gif_write_frame(
    e: &mut GifEncoder,
    width: u16,
    height: u16,
    delay: u16,
    indices: Vec<u8>,
) -> (r: Result<(), gif::EncodingError>)
    requires
        width > 0 && height > 0 || indices@.len() == 0,
    ensures
        r is Ok ==> gif_written(*final(e)) == gif_written(*old(e)) + (gif_frame_head(
            width,
            height,
            delay,
        ) + gif_image_data(indices@)),
        r is Ok ==> indices@.len() >= width * height,
        r is Ok ==> gif_indices(*final(e)) == gif_indices(*old(e)).push(indices@),
        indices@.len() < width * height ==> gif_written(*final(e)) == gif_written(*old(e)),
        indices@.len() < width * height ==> gif_indices(*final(e)) == gif_indices(*old(e)),
        gif_colors(*final(e)) == gif_colors(*old(e)),
        indices@.len() >= width * height && gif_colors(*old(e)) > 0 && needs_no_memory(
            gif_indices(*old(e)),
            indices@.len(),
        ) ==> r is Ok,
{
    let mut frame = gif::Frame::default();
    frame.width = width;
    frame.height = height;
    frame.buffer = std::borrow::Cow::Owned(indices);
    frame.delay = delay;
    e.inner.write_frame(&frame)
}

/// `gif::Encoder::into_inner` writes the trailer and gives the bytes back; from memory it does not
/// fail.
#[verifier::external_body]
fn gif_into_bytes(e: GifEncoder) -> (r: Option<Vec<u8>>)
    ensures
        r is Some,
        r->0@ == gif_written(e).push(59u8),
{
    e.inner.into_inner().ok()
}

/// The frames of a GIF one after the other.
pub open spec fn gif_frames(
    width: u16,
    height: u16,
    delay: u16,
    frames: Seq<Seq<u32>>,
) -> Seq<u8>
    decreases frames.len(),
{
    if frames.len() == 0 {
        Seq::empty()
    } else {
        gif_frames(width, height, delay, frames.drop_last()) + gif_frame(
            width,
            height,
            delay,
            indices_of(frames.last()),
        )
    }
}

/// What an animation has written.
#[verifier::ext_equal]
pub struct AnimationView {
    pub width: u16,
    pub height: u16,
    /// How long a frame stays, in hundredths of a second.
    pub delay: u16,
    /// Colour of the leaders.
    pub head: Rgb,
    /// Colour of the trails.
    pub trail: Rgb,
    /// The frames so far.
    pub frames: Seq<Seq<u32>>,
}

/// The bytes of an animation so far: head, repeat block and frames.
pub open spec fn animation_bytes(a: AnimationView) -> Seq<u8> {
    gif_head(a.width, a.height, palette_of(a.head, a.trail)) + gif_repeat() + gif_frames(
        a.width,
        a.height,
        a.delay,
        a.frames,
    )
}

/// A frame has an index for each pixel, so it needs no memory in the one if not in the other.
proof fn frames_have_as_many_indices(frames: Seq<Seq<u32>>, n: nat)
    requires
        needs_no_memory(frames, n),
    ensures
        needs_no_memory(frames.map_values(|f: Seq<u32>| indices_of(f)), n),
{
    if n >= 4 {
        let i = choose|i: int| 0 <= i < frames.len() && (#[trigger] frames[i]).len() >= n;
        let indices = frames.map_values(|f: Seq<u32>| indices_of(f));
        assert(indices[i].len() == frames[i].len());
    }
}

/// An animation in the making.
pub struct Animation {
    encoder: GifEncoder,
    width: u16,
    height: u16,
    delay: u16,
    head: Rgb,
    trail: Rgb,
    frames: Ghost<Seq<Seq<u32>>>,
}

impl View for Animation {
    type V = AnimationView;

    closed spec fn view(&self) -> AnimationView {
        AnimationView {
            width: self.width,
            height: self.height,
            delay: self.delay,
            head: self.head,
            trail: self.trail,
            frames: self.frames@,
        }
    }
}

impl Animation {
    /// The encoder has a palette and has written what the view says.
    pub closed spec fn wf(self) -> bool {
        &&& gif_written(self.encoder) == animation_bytes(self@)
        &&& gif_indices(self.encoder) == self@.frames.map_values(|f: Seq<u32>| indices_of(f))
        &&& gif_colors(self.encoder) > 0
    }

    /// An animation without frames that repeats for ever, with the palette for these colours.
    pub fn new(width: u16, height: u16, delay: u16, head: Rgb, trail: Rgb) -> (r: Result<
        Animation,
        EncodeError,
    >)
        ensures
            r is Ok,
            r->Ok_0.wf(),
            r->Ok_0@ == (AnimationView { width, height, delay, head, trail, frames: Seq::empty() }),
    {
        let colors = palette(head, trail);
        match gif_new(width, height, colors.as_slice()) {
            Ok(mut encoder) => match gif_repeat_forever(&mut encoder) {
                Ok(()) => {
                    let ghost none: Seq<Seq<u32>> = Seq::empty();
                    let a = Animation {
                        encoder,
                        width,
                        height,
                        delay,
                        head,
                        trail,
                        frames: Ghost(none),
                    };
                    assert(animation_bytes(a@) =~= gif_written(a.encoder));
                    assert(gif_indices(a.encoder) =~= none.map_values(
                        |f: Seq<u32>| indices_of(f),
                    ));
                    Ok(a)
                },
                Err(_) => Err(EncodeError),
            },
            Err(_) => Err(EncodeError),
        }
    }

    /// Adds a frame. A frame with too few pixels is refused and leaves the animation as it is. Any
    /// other frame is taken if it is no larger than one before it, or has fewer than four pixels.
    /// That a larger one is taken is not promised, since the encoder may run out of memory; if it
    /// is not, the animation is of no more use.
    pub fn add_frame(&mut self, buf: &[u32]) -> (r: Result<(), EncodeError>)
        requires
            old(self).wf(),
            old(self)@.width > 0 && old(self)@.height > 0 || buf@.len() == 0,
        ensures
            r is Ok ==> final(self).wf() && final(self)@ == (AnimationView {
                frames: old(self)@.frames.push(buf@),
                ..old(self)@
            }),
            r is Ok ==> buf@.len() >= old(self)@.width * old(self)@.height,
            buf@.len() < old(self)@.width * old(self)@.height ==> final(self).wf() && final(self)@
                == old(self)@,
            buf@.len() >= old(self)@.width * old(self)@.height && needs_no_memory(
                old(self)@.frames,
                buf@.len(),
            ) ==> r is Ok,
    {
        let indices = index_frame(buf);
        proof {
            if needs_no_memory(self@.frames, buf@.len()) {
                frames_have_as_many_indices(self@.frames, buf@.len());
            }
        }
        match gif_write_frame(&mut self.encoder, self.width, self.height, self.delay, indices) {
            Ok(()) => {
                let ghost before = self.frames@;
                self.frames = Ghost(before.push(buf@));
                proof {
                    assert(before.push(buf@).drop_last() =~= before);
                    assert(animation_bytes(self@) =~= gif_written(self.encoder));
                    assert(gif_indices(self.encoder) =~= before.push(buf@).map_values(
                        |f: Seq<u32>| indices_of(f),
                    ));
                }
                Ok(())
            },
            Err(_) => Err(EncodeError),
        }
    }

    /// The finished file: what was written, and the trailer.
    pub fn finish(self) -> (r: Vec<u8>)
        requires
            self.wf(),
        ensures
            r@ == animation_bytes(self@).push(59u8),
    {
        gif_into_bytes(self.encoder).unwrap()
    }
}

/// A frame comes after all that was written before it, and changes none of it.
pub proof fn frames_follow_one_another(a: AnimationView, frame: Seq<u32>)
    ensures
        animation_bytes(AnimationView { frames: a.frames.push(frame), ..a }) == animation_bytes(a)
            + gif_frame(a.width, a.height, a.delay, indices_of(frame)),
{
    assert(a.frames.push(frame).drop_last() =~= a.frames);
    assert(animation_bytes(AnimationView { frames: a.frames.push(frame), ..a })
        =~= animation_bytes(a) + gif_frame(a.width, a.height, a.delay, indices_of(frame)));
}

/// An animation starts with its signature, its size, low bytes first, and the palette for its
/// colours, and then says that it repeats for ever.
pub proof fn animations_start_with_size_and_palette(a: AnimationView)
    requires
        a.frames.len() == 0,
    ensures
        ({
            let b = animation_bytes(a);
            let colors = palette_of(a.head, a.trail);
            &&& b.len() == 224
            &&& b.take(6) == seq![71u8, 73, 70, 56, 57, 97]
            &&& b[6] + 0x100 * b[7] == a.width
            &&& b[8] + 0x100 * b[9] == a.height
            &&& b[10] == 0xd5 && b[11] == 0 && b[12] == 0
            &&& b.subrange(13, 205) == colors
            &&& b[205] == 33 && b[206] == 255 && b[207] == 11
            &&& b.subrange(208, 219) == seq![78u8, 69, 84, 83, 67, 65, 80, 69, 50, 46, 48]
            &&& b.subrange(219, 224) == seq![3u8, 1, 0, 0, 0]
        }),
{
    let b = animation_bytes(a);
    let colors = palette_of(a.head, a.trail);
    assert(colors.len() == 192);
    assert(colors.len() / 3 == 64);
    assert(table_bits(64) == 5 && table_room(5) == 64);
    assert(gif_head(a.width, a.height, colors).len() == 205);
    assert(b.take(6) =~= seq![71u8, 73, 70, 56, 57, 97]);
    assert(b.subrange(13, 205) =~= colors);
    assert(b.subrange(208, 219) =~= seq![78u8, 69, 84, 83, 67, 65, 80, 69, 50, 46, 48]);
    assert(b.subrange(219, 224) =~= seq![3u8, 1, 0, 0, 0]);
}

/// A frame that is added follows all that was written before it: how long it stays and its size, low
/// bytes first, and then its pixels as indices into the palette.
pub proof fn frames_are_added_at_the_end(a: AnimationView, frame: Seq<u32>)
    ensures
        ({
            let was = animation_bytes(a);
            let b = animation_bytes(AnimationView { frames: a.frames.push(frame), ..a });
            let n = was.len() as int;
            let data = gif_image_data(indices_of(frame));
            &&& b.len() == n + 18 + data.len()
            &&& b.take(n) == was
            &&& b.subrange(n, n + 4) == seq![33u8, 249, 4, 4]
            &&& b[n + 4] + 0x100 * b[n + 5] == a.delay
            &&& b.subrange(n + 6, n + 13) == seq![0u8, 0, 44, 0, 0, 0, 0]
            &&& b[n + 13] + 0x100 * b[n + 14] == a.width
            &&& b[n + 15] + 0x100 * b[n + 16] == a.height
            &&& b[n + 17] == 0
            &&& b.skip(n + 18) == data
        }),
{
    frames_follow_one_another(a, frame);
    let was = animation_bytes(a);
    let b = animation_bytes(AnimationView { frames: a.frames.push(frame), ..a });
    let n = was.len() as int;
    let data = gif_image_data(indices_of(frame));
    assert(gif_frame_head(a.width, a.height, a.delay).len() == 18);
    assert(b.take(n) =~= was);
    assert(b.subrange(n, n + 4) =~= seq![33u8, 249, 4, 4]);
    assert(b.subrange(n + 6, n + 13) =~= seq![0u8, 0, 44, 0, 0, 0, 0]);
    assert(b.skip(n + 18) =~= data);
}

} // verus!
