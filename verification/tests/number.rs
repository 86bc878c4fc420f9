use wlmatrix::number::{parse_whole, Single};
use wlmatrix::text::chars_of;

fn single(v: f32) -> Single {
    Single { bits: v.to_bits() }
}

fn samples() -> Vec<f32> {
    let mut v = vec![
        0.0,
        -0.0,
        0.5,
        -0.5,
        4.0,
        3.999_999_8,
        15.0,
        26.0,
        f32::MAX,
        f32::MIN,
        f32::MIN_POSITIVE,
        f32::INFINITY,
        f32::NEG_INFINITY,
        f32::NAN,
        -f32::NAN,
        1.0e-45,
        -1.0e-45,
    ];
    let mut bits: u32 = 0x1234_5678;
    for _ in 0..100 {
        bits = bits.wrapping_mul(1_664_525).wrapping_add(1_013_904_223);
        v.push(f32::from_bits(bits));
    }
    v
}

#[test]
fn the_order_is_that_of_numbers() {
    for a in samples() {
        for b in samples() {
            assert_eq!(single(a).gt(single(b)), a > b, "{a} {b}");
            assert_eq!(single(a).ge(single(b)), a >= b, "{a} {b}");
        }
    }
}

#[test]
fn the_greater_and_the_lesser_are_those_of_numbers() {
    for a in samples() {
        for b in samples() {
            let max = f32::from_bits(single(a).max(single(b)).bits);
            let min = f32::from_bits(single(a).min(single(b)).bits);
            if a.is_nan() && b.is_nan() {
                assert!(max.is_nan() && min.is_nan());
            } else {
                assert_eq!(max, a.max(b), "{a} {b}");
                assert_eq!(min, a.min(b), "{a} {b}");
            }
        }
    }
}

#[test]
fn whole_numbers_are_read_as_the_standard_library_does() {
    for s in [
        "0",
        "30",
        "+7",
        "007",
        "18446744073709551615",
        "18446744073709551616",
        "99999999999999999999999",
        "",
        "+",
        "-1",
        "-0",
        "+-1",
        "1 ",
        " 1",
        "1.0",
        "1_000",
        "٣",
        "++1",
    ] {
        assert_eq!(parse_whole(&chars_of(s)), s.parse::<u64>().ok(), "{s}");
    }
    assert_eq!(parse_whole(&chars_of("240")), Some(240));
}
