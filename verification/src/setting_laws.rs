//! What every setting makes of a configuration, key by key.
use vstd::prelude::*;

use crate::charset::charset_of;
use crate::color::{color_of, color_text};
use crate::config::{
    applied, configured, default_config, densified, number_texts, readable_setting,
    readable_settings, Config, ConfigView, Setting,
};
use crate::config::setting_views;
use crate::number::whole_number;
use crate::number::{Reading, Single};
use crate::number_laws::{numbers_are_in_the_order_of_their_worth, worth};
use crate::text::{find_is_the_first, first_is_what_find_finds, lowercase, trimmed};

verus! {

proof fn keys_differ()
    ensures
        "fps"@.len() == 3,
        "font"@.len() == 4,
        "speed"@.len() == 5,
        "color"@.len() == 5,
        "charset"@.len() == 7,
        "font_size"@.len() == 9,
        "font-size"@.len() == 9,
        "speed_min"@.len() == 9,
        "speed_max"@.len() == 9,
        "speed"@[0] == 's',
        "color"@[0] == 'c',
        "font_size"@[4] == '_',
        "font-size"@[4] == '-',
        "speed_min"@[4] == 'd',
        "speed_max"@[4] == 'd',
        "speed_min"@[7] == 'i',
        "speed_max"@[7] == 'a',
{
    reveal_strlit("fps");
    reveal_strlit("font");
    reveal_strlit("speed");
    reveal_strlit("color");
    reveal_strlit("charset");
    reveal_strlit("font_size");
    reveal_strlit("font-size");
    reveal_strlit("speed_min");
    reveal_strlit("speed_max");
}

/// Whether two configurations are the same but for the frame rate.
pub open spec fn same_but_rate(a: ConfigView, b: ConfigView) -> bool {
    &&& a.font_px == b.font_px
    &&& a.head == b.head
    &&& a.trail == b.trail
    &&& a.charset == b.charset
    &&& a.font_path == b.font_path
}

/// A frame rate of 1 to 240 is taken as it is spelled, a lesser one as 1 and a greater one as 240.
/// A value that spells no number changes nothing.
pub proof fn frame_rates_are_taken_as_they_are(
    cfg: ConfigView,
    val: Seq<char>,
    n: Seq<Option<Reading>>,
)
    ensures
        whole_number(val) matches Some(v) ==> {
            &&& 1 <= v <= 240 ==> applied(cfg, "fps"@, val, n).fps == v
            &&& v < 1 ==> applied(cfg, "fps"@, val, n).fps == 1
            &&& v > 240 ==> applied(cfg, "fps"@, val, n).fps == 240
        },
        whole_number(val) is None ==> applied(cfg, "fps"@, val, n).fps == cfg.fps,
        same_but_rate(applied(cfg, "fps"@, val, n), cfg),
{
}

/// A greater number never makes a lesser frame rate, and every rate of 1 to 240 can be had.
pub proof fn frame_rates_follow_the_number(
    a: ConfigView,
    b: ConfigView,
    x: Seq<char>,
    y: Seq<char>,
    n: Seq<Option<Reading>>,
    m: Seq<Option<Reading>>,
)
    requires
        whole_number(x) matches Some(v) && whole_number(y) matches Some(w) && v <= w,
    ensures
        applied(a, "fps"@, x, n).fps <= applied(b, "fps"@, y, m).fps,
        applied(b, "fps"@, y, m).fps - applied(a, "fps"@, x, n).fps <= whole_number(y).unwrap()
            - whole_number(x).unwrap(),
{
}

/// A glyph size that is a number of four or more, infinity included, is taken as it is, and any
/// other changes nothing. Both spellings of the key do the same.
pub proof fn glyph_sizes_from_four_are_taken(
    cfg: ConfigView,
    val: Seq<char>,
    n: Seq<Option<Reading>>,
)
    ensures
        applied(cfg, "font_size"@, val, n) == applied(cfg, "font-size"@, val, n),
        n[0] matches Some(r) ==> applied(cfg, "font_size"@, val, n).font_px == if 0x4080_0000
            <= r.value.bits <= 0x7f80_0000 {
            r.value
        } else {
            cfg.font_px
        },
        n[0] is None ==> applied(cfg, "font_size"@, val, n).font_px == cfg.font_px,
        applied(cfg, "font_size"@, val, n).fps == cfg.fps,
{
    keys_differ();
}

/// Whether the speeds of a configuration come from `a` and `b`: the greater is the greatest speed,
/// and the lesser the least, or one half if it is less than that or no number.
pub open spec fn speeds_from(out: ConfigView, a: Single, b: Single) -> bool {
    let turned = !a.is_nan() && !b.is_nan() && worth(a) > worth(b);
    let least = if turned {
        b
    } else {
        a
    };
    &&& out.speed_max == if turned {
        a
    } else {
        b
    }
    &&& out.speed_min == if !least.is_nan() && worth(least) >= worth(
        Single { bits: 0x3f00_0000 },
    ) {
        least
    } else {
        Single { bits: 0x3f00_0000 }
    }
}

/// Where the two speeds come from: each key of one speed sets that one, the key of both sets both,
/// from two numbers with a dash between or from four tenths of one number and that number, and what
/// cannot be read and every other key sets neither.
pub proof fn speeds_come_from_their_keys(
    cfg: ConfigView,
    key: Seq<char>,
    val: Seq<char>,
    n: Seq<Option<Reading>>,
)
    ensures
        n[0] matches Some(r) ==> {
            &&& speeds_from(applied(cfg, "speed_min"@, val, n), r.value, cfg.speed_max)
            &&& speeds_from(applied(cfg, "speed_max"@, val, n), cfg.speed_min, r.value)
            &&& !val.contains('-') ==> speeds_from(
                applied(cfg, "speed"@, val, n),
                r.four_tenths,
                r.value,
            )
            &&& val.contains('-') ==> match n[1] {
                Some(s) => speeds_from(applied(cfg, "speed"@, val, n), r.value, s.value),
                None => speeds_from(applied(cfg, "speed"@, val, n), cfg.speed_min, cfg.speed_max),
            }
        },
        n[0] is None || !(key == "speed_min"@ || key == "speed_max"@ || key == "speed"@)
            ==> speeds_from(applied(cfg, key, val, n), cfg.speed_min, cfg.speed_max),
{
    keys_differ();
    find_is_the_first(val, '-');
    if val.contains('-') {
        let i = choose|i: int| 0 <= i < val.len() && val[i] == '-';
        assert(val[i] == '-');
    }
    let half = Single { bits: 0x3f00_0000 };
    if let Some(r) = n[0] {
        by_worth(r.value, cfg.speed_max, half);
        by_worth(cfg.speed_min, r.value, half);
        by_worth(r.four_tenths, r.value, half);
        if let Some(s) = n[1] {
            by_worth(r.value, s.value, half);
        }
    }
    by_worth(cfg.speed_min, cfg.speed_max, half);
}

proof fn by_worth(a: Single, b: Single, c: Single)
    ensures
        a.above(b) <==> !a.is_nan() && !b.is_nan() && worth(a) > worth(b),
        a.at_least(c) <==> !a.is_nan() && !c.is_nan() && worth(a) >= worth(c),
        b.at_least(c) <==> !b.is_nan() && !c.is_nan() && worth(b) >= worth(c),
{
    numbers_are_in_the_order_of_their_worth(a, b);
    numbers_are_in_the_order_of_their_worth(a, c);
    numbers_are_in_the_order_of_their_worth(b, c);
}

/// The colours are those that the value stands for in lower case and without white space round it,
/// the characters those that the value asks for, and the font file the value itself. Other keys set
/// none of these.
pub proof fn colours_characters_and_font_come_from_their_keys(
    cfg: ConfigView,
    key: Seq<char>,
    val: Seq<char>,
    n: Seq<Option<Reading>>,
)
    ensures
        ({
            let out = applied(cfg, key, val, n);
            &&& key == "color"@ ==> match color_of(lowercase(trimmed(val))) {
                Some((head, trail)) => out.head == head && out.trail == trail,
                None => out.head == cfg.head && out.trail == cfg.trail,
            }
            &&& key != "color"@ ==> out.head == cfg.head && out.trail == cfg.trail
            &&& key == "charset"@ ==> out.charset == charset_of(lowercase(val), val)
            &&& key != "charset"@ ==> out.charset == cfg.charset
            &&& key == "font"@ ==> out.font_path == Some(val)
            &&& key != "font"@ ==> out.font_path == cfg.font_path
            &&& key != "fps"@ ==> out.fps == cfg.fps
            &&& key != "font_size"@ && key != "font-size"@ ==> out.font_px == cfg.font_px
        }),
{
    keys_differ();
}

/// Which texts of a value are numbers: the whole value for the glyph size and for one speed, and for
/// both speeds the parts before and after the first dash, without white space round them. A value
/// without a dash is one number.
pub proof fn numbers_are_found_in_values(
    key: Seq<char>,
    a: Seq<char>,
    b: Seq<char>,
    val: Seq<char>,
)
    requires
        !a.contains('-'),
    ensures
        number_texts("font_size"@, val) == seq![val],
        number_texts("font-size"@, val) == seq![val],
        number_texts("speed_min"@, val) == seq![val],
        number_texts("speed_max"@, val) == seq![val],
        number_texts("speed"@, a) == seq![a],
        number_texts("speed"@, a + seq!['-'] + b) == seq![trimmed(a), trimmed(b)],
        !(key == "font_size"@ || key == "font-size"@ || key == "speed_min"@ || key == "speed_max"@
            || key == "speed"@) ==> number_texts(key, val).len() == 0,
{
    keys_differ();
    assert forall|j: int| 0 <= j < a.len() implies a[j] != '-' by {
        assert(a.contains(a[j]));
    }
    first_is_what_find_finds(a, '-', a.len());
    let t = a + seq!['-'] + b;
    assert forall|j: int| 0 <= j < a.len() implies t[j] != '-' by {
        assert(t[j] == a[j]);
    }
    assert(t[a.len() as int] == '-');
    first_is_what_find_finds(t, '-', a.len());
    assert(t.take(a.len() as int) =~= a);
    assert(t.skip(a.len() as int + 1) =~= b);
}

/// Every setting but a colour can be read, and a colour where its text can; settings can be read
/// where each of them can.
pub proof fn only_colours_can_be_unreadable(
    key: Seq<char>,
    val: Seq<char>,
    settings: Seq<(Seq<char>, Seq<char>)>,
)
    ensures
        key != "color"@ ==> readable_setting(key, val),
        readable_setting("color"@, val) == color_text(val),
        readable_settings(settings) <==> forall|i: int|
            0 <= i < settings.len() ==> (#[trigger] settings[i]).0 != "color"@ || color_text(
                settings[i].1,
            ),
{
}

/// Settings are applied one after the other: none changes nothing, and each is applied to what those
/// before it have made.
pub proof fn settings_are_applied_in_turn(
    cfg: ConfigView,
    settings: Seq<(Seq<char>, Seq<char>)>,
    numbers: Seq<Vec<Option<Reading>>>,
    k: nat,
)
    ensures
        configured(cfg, settings, numbers, 0) == cfg,
        configured(cfg, settings, numbers, k + 1) == applied(
            configured(cfg, settings, numbers, k),
            settings[k as int].0,
            settings[k as int].1,
            numbers[k as int]@,
        ),
{
}

/// For an animation the glyphs are fifteen pixels where they would be larger or of no size, and as
/// large as before otherwise; all else stays.
pub proof fn animations_have_glyphs_up_to_fifteen(cfg: ConfigView)
    ensures
        ({
            let out = densified(cfg);
            let larger = 0x4170_0000 < cfg.font_px.bits <= 0x7fff_ffff || cfg.font_px.bits
                > 0xff80_0000;
            &&& larger ==> out.font_px.bits == 0x4170_0000
            &&& !larger ==> out.font_px == cfg.font_px
            &&& out.fps == cfg.fps
            &&& out.speed_min == cfg.speed_min
            &&& out.speed_max == cfg.speed_max
            &&& out.head == cfg.head
            &&& out.trail == cfg.trail
            &&& out.charset == cfg.charset
            &&& out.font_path == cfg.font_path
        }),
{
}

/// Where nothing is set the rain is green, thirty frames a second, of glyphs of twenty-six pixels
/// that fall six to twenty-four rows a second.
pub proof fn rain_is_green_by_default()
    ensures
        default_config().fps == 30,
        worth(default_config().font_px) == 26 * worth(Single { bits: 0x3f80_0000 }),
        worth(default_config().speed_min) == 6 * worth(Single { bits: 0x3f80_0000 }),
        worth(default_config().speed_max) == 24 * worth(Single { bits: 0x3f80_0000 }),
        default_config().head == (220u8, 255u8, 220u8),
        default_config().trail == (0u8, 255u8, 40u8),
        default_config().charset
            == "ABCDEFGHIJKLMNOPQRSTUVWXYZabcdefghijklmnopqrstuvwxyz0123456789@#$%&*+-/<>=?!:"@,
        default_config().font_path is None,
{
    vstd::arithmetic::power2::lemma_pow2_unfold(127);
    vstd::arithmetic::power2::lemma_pow2_unfold(128);
    vstd::arithmetic::power2::lemma_pow2_unfold(129);
    vstd::arithmetic::power2::lemma_pow2_unfold(130);
    let p = vstd::arithmetic::power2::pow2(126) as int;
    assert(worth(Single { bits: 0x3f80_0000 }) == 0x80_0000 * p);
    assert(worth(Single { bits: 0x41d0_0000 }) == 0xd0_0000 * (16 * p));
    assert(worth(Single { bits: 0x40c0_0000 }) == 0xc0_0000 * (4 * p));
    assert(worth(Single { bits: 0x41c0_0000 }) == 0xc0_0000 * (16 * p));
}

/// A configuration and a list of settings are seen whole.
pub proof fn configurations_are_seen_whole(cfg: Config, settings: Seq<Setting>)
    ensures
        cfg@.font_px == cfg.font_px,
        cfg@.fps == cfg.fps,
        cfg@.speed_min == cfg.speed_min,
        cfg@.speed_max == cfg.speed_max,
        cfg@.head == cfg.head,
        cfg@.trail == cfg.trail,
        cfg@.charset == cfg.charset@,
        cfg.font_path matches Some(p) ==> cfg@.font_path == Some(p@),
        cfg.font_path is None ==> cfg@.font_path is None,
        setting_views(settings).len() == settings.len(),
        forall|i: int|
            0 <= i < settings.len() ==> #[trigger] setting_views(settings)[i] == (
                settings[i].key@,
                settings[i].val@,
            ),
{
}

} // verus!
