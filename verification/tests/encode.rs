use wlmatrix::encode::{encode_png, Animation, EncodeError};
use wlmatrix::picture::palette;

const HEAD: (u8, u8, u8) = (220, 255, 220);
const TRAIL: (u8, u8, u8) = (0, 255, 40);

#[test]
fn a_png_file_holds_the_picture() {
    let buf = [0x000000, 0xdcffdc, 0x00ff28, 0x010203, 0x040506, 0x070809];
    let file = encode_png(3, 2, &buf).unwrap();
    assert_eq!(file[0..8], [137, 80, 78, 71, 13, 10, 26, 10]);
    let mut reader = png::Decoder::new(std::io::Cursor::new(file)).read_info().unwrap();
    assert_eq!(reader.info().color_type, png::ColorType::Rgb);
    assert_eq!(reader.info().bit_depth, png::BitDepth::Eight);
    assert_eq!((reader.info().width, reader.info().height), (3, 2));
    let mut pixels = vec![0; reader.output_buffer_size()];
    reader.next_frame(&mut pixels).unwrap();
    assert_eq!(
        pixels,
        vec![0, 0, 0, 220, 255, 220, 0, 255, 40, 1, 2, 3, 4, 5, 6, 7, 8, 9]
    );
}

#[test]
fn the_same_picture_gives_the_same_png_file() {
    let buf: Vec<u32> = (0..600u32).map(|i| i * 0x1f2f).collect();
    assert_eq!(encode_png(30, 20, &buf), encode_png(30, 20, &buf));
}

#[test]
fn png_refuses_empty_and_ill_sized_pictures() {
    assert_eq!(encode_png(0, 1, &[]), Err(EncodeError));
    assert_eq!(encode_png(1, 0, &[]), Err(EncodeError));
    assert_eq!(encode_png(2, 2, &[0, 0, 0]), Err(EncodeError));
    assert_eq!(encode_png(2, 2, &[0, 0, 0, 0, 0]), Err(EncodeError));
    assert!(encode_png(2, 2, &[0, 0, 0, 0]).is_ok());
}

fn head(width: u16, height: u16) -> Vec<u8> {
    let mut v = b"GIF89a".to_vec();
    v.extend_from_slice(&width.to_le_bytes());
    v.extend_from_slice(&height.to_le_bytes());
    v.extend_from_slice(&[0xd5, 0, 0]);
    v.extend_from_slice(&palette(HEAD, TRAIL));
    v.extend_from_slice(&[0x21, 0xff, 11]);
    v.extend_from_slice(b"NETSCAPE2.0");
    v.extend_from_slice(&[3, 1, 0, 0, 0]);
    v
}

#[test]
fn an_animation_starts_with_its_palette_and_repeats() {
    let a = Animation::new(800, 450, 5, HEAD, TRAIL).unwrap();
    let mut expected = head(800, 450);
    expected.push(0x3b);
    assert_eq!(a.finish(), expected);
}

#[test]
fn frames_follow_one_after_the_other() {
    let mut a = Animation::new(2, 1, 5, HEAD, TRAIL).unwrap();
    a.add_frame(&[0, 0xdcffdc]).unwrap();
    let one = {
        let mut b = Animation::new(2, 1, 5, HEAD, TRAIL).unwrap();
        b.add_frame(&[0, 0xdcffdc]).unwrap();
        b.finish()
    };
    let mut expected = head(2, 1);
    let start = expected.len();
    expected.extend_from_slice(&[0x21, 0xf9, 4, 4, 5, 0, 0, 0]);
    expected.extend_from_slice(&[0x2c, 0, 0, 0, 0, 2, 0, 1, 0, 0]);
    assert_eq!(one[..expected.len()], expected);
    let frame = one[start..one.len() - 1].to_vec();

    a.add_frame(&[0, 0xdcffdc]).unwrap();
    let two = a.finish();
    assert_eq!(two[..one.len() - 1], one[..one.len() - 1]);
    assert_eq!(two[one.len() - 1..two.len() - 1], frame);
    assert_eq!(two[two.len() - 1], 0x3b);
}

#[test]
fn a_gif_file_holds_the_frames() {
    let mut a = Animation::new(3, 2, 5, HEAD, TRAIL).unwrap();
    a.add_frame(&[0, 0xdcffdc, 0x00ff28, 0x000100, 0, 0]).unwrap();
    a.add_frame(&[0x00ff28; 6]).unwrap();
    let file = a.finish();
    let mut options = gif::DecodeOptions::new();
    options.set_color_output(gif::ColorOutput::Indexed);
    let mut decoder = options.read_info(std::io::Cursor::new(file)).unwrap();
    assert_eq!((decoder.width(), decoder.height()), (3, 2));
    assert_eq!(decoder.global_palette().unwrap(), &palette(HEAD, TRAIL)[..]);
    let first = decoder.read_next_frame().unwrap().unwrap();
    assert_eq!(first.delay, 5);
    assert_eq!(first.buffer.to_vec(), vec![0, 1, 33, 2, 0, 0]);
    let second = decoder.read_next_frame().unwrap().unwrap();
    assert_eq!(second.buffer.to_vec(), vec![33; 6]);
    assert!(decoder.read_next_frame().unwrap().is_none());
    assert_eq!(decoder.repeat(), gif::Repeat::Infinite);
}

#[test]
fn a_short_frame_is_refused_and_leaves_no_trace() {
    let mut a = Animation::new(2, 2, 5, HEAD, TRAIL).unwrap();
    assert_eq!(a.add_frame(&[0, 0, 0]), Err(EncodeError));
    let mut expected = head(2, 2);
    expected.push(0x3b);
    assert_eq!(a.finish(), expected);
}

#[test]
fn frames_no_larger_than_one_before_are_taken() {
    let mut a = Animation::new(40, 30, 5, HEAD, TRAIL).unwrap();
    let noise: Vec<u32> = (0..1300u32).map(|i| i.wrapping_mul(0x9e37_79b9) >> 8).collect();
    assert_eq!(a.add_frame(&noise), Ok(()));
    assert_eq!(a.add_frame(&noise[..1199]), Err(EncodeError));
    for n in [1300, 1200, 1250, 1300] {
        assert_eq!(a.add_frame(&noise[..n]), Ok(()));
    }
    let mut small = Animation::new(3, 1, 5, HEAD, TRAIL).unwrap();
    assert_eq!(small.add_frame(&[1, 2, 3]), Ok(()));
    let mut none = Animation::new(0, 1, 5, HEAD, TRAIL).unwrap();
    assert_eq!(none.add_frame(&[]), Ok(()));
}
