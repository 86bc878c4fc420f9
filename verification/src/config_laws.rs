//! What holds of every configuration file and of every setting.
use vstd::prelude::*;

use crate::charset::charset_is_never_empty;
use crate::color::color_of;
use crate::config::{
    applied, configured, default_config, densified, is_font_size, number_texts, put, setting_on,
    settings_of, settings_on, settled, value_of, ConfigView, FIFTEEN,
    FOUR, HALF,
};
use crate::number::whole_number;
use crate::number::{Reading, Single};
use crate::text::{
    after, before, find, find_is_the_first, first_is_what_find_finds, lowercase, trimmed,
    trimmed_end, trimmed_start, trimming_keeps_inner_text, white_space,
};

verus! {

/// What every configuration keeps: a frame rate of 1 to 240, glyphs of at least four pixels, a
/// least speed of at least one half and something to rain.
pub open spec fn sound(cfg: ConfigView) -> bool {
    &&& 1 <= cfg.fps <= 240
    &&& cfg.font_px.at_least(Single { bits: FOUR })
    &&& cfg.speed_min.at_least(Single { bits: HALF })
    &&& cfg.charset.len() > 0
}

/// The default configuration is sound, and settling leaves it as it is.
pub proof fn default_is_sound()
    ensures
        sound(default_config()),
        settled(default_config()) == default_config(),
{
    reveal_strlit(
        "ABCDEFGHIJKLMNOPQRSTUVWXYZabcdefghijklmnopqrstuvwxyz0123456789@#$%&*+-/<>=?!:",
    );
}

/// Whatever is set, to whatever value, a sound configuration stays sound.
pub proof fn settings_keep_it_sound(
    cfg: ConfigView,
    key: Seq<char>,
    val: Seq<char>,
    n: Seq<Option<Reading>>,
)
    requires
        sound(cfg),
    ensures
        sound(applied(cfg, key, val, n)),
{
    charset_is_never_empty(lowercase(val), val);
}

/// A sound configuration stays sound through a whole file.
pub proof fn files_keep_it_sound(
    cfg: ConfigView,
    settings: Seq<(Seq<char>, Seq<char>)>,
    numbers: Seq<Vec<Option<Reading>>>,
    k: nat,
)
    requires
        sound(cfg),
    ensures
        sound(configured(cfg, settings, numbers, k)),
    decreases k,
{
    if k > 0 {
        files_keep_it_sound(cfg, settings, numbers, (k - 1) as nat);
        settings_keep_it_sound(
            configured(cfg, settings, numbers, (k - 1) as nat),
            settings[k - 1].0,
            settings[k - 1].1,
            numbers[k - 1]@,
        );
    }
}

/// An animation's configuration is sound if the one it is made from is, and its glyphs are no
/// larger than those and than fifteen pixels.
pub proof fn densified_is_sound(cfg: ConfigView)
    requires
        sound(cfg),
    ensures
        sound(densified(cfg)),
        cfg.font_px.at_least(densified(cfg).font_px),
        (Single { bits: FIFTEEN }).at_least(densified(cfg).font_px),
{
}

/// After any setting the least speed is at least one half, whatever it was before.
pub proof fn least_speed_is_at_least_half(
    cfg: ConfigView,
    key: Seq<char>,
    val: Seq<char>,
    n: Seq<Option<Reading>>,
)
    ensures
        applied(cfg, key, val, n).speed_min.at_least(Single { bits: HALF }),
{
}

/// Speeds that are numbers come out in order, if one of them is at least one half.
pub proof fn speeds_come_out_in_order(cfg: ConfigView)
    requires
        !cfg.speed_min.is_nan(),
        !cfg.speed_max.is_nan(),
        cfg.speed_min.at_least(Single { bits: HALF }) || cfg.speed_max.at_least(
            Single { bits: HALF },
        ),
    ensures
        settled(cfg).speed_max.at_least(settled(cfg).speed_min),
{
}

/// The order in which the two speeds are given does not matter, if they differ.
pub proof fn speed_order_does_not_matter(cfg: ConfigView, a: Single, b: Single)
    requires
        !a.is_nan(),
        !b.is_nan(),
        a.rank() != b.rank(),
    ensures
        settled(ConfigView { speed_min: a, speed_max: b, ..cfg }) == settled(
            ConfigView { speed_min: b, speed_max: a, ..cfg },
        ),
{
}

/// The keys that mean something.
pub open spec fn known_key(key: Seq<char>) -> bool {
    ||| key == "fps"@
    ||| is_font_size(key)
    ||| key == "speed_min"@
    ||| key == "speed_max"@
    ||| key == "speed"@
    ||| key == "color"@
    ||| key == "charset"@
    ||| key == "font"@
}

/// An unknown key sets nothing.
pub proof fn unknown_keys_set_nothing(
    cfg: ConfigView,
    key: Seq<char>,
    val: Seq<char>,
    n: Seq<Option<Reading>>,
)
    requires
        !known_key(key),
    ensures
        put(cfg, key, val, n) == cfg,
        number_texts(key, val).len() == 0,
{
}

/// The idle time is left to the daemon: the renderer passes over it.
pub proof fn idle_time_is_passed_over(
    cfg: ConfigView,
    val: Seq<char>,
    n: Seq<Option<Reading>>,
)
    ensures
        put(cfg, "idle_ms"@, val, n) == cfg,
{
    reveal_strlit("idle_ms");
    reveal_strlit("fps");
    reveal_strlit("font_size");
    reveal_strlit("font-size");
    reveal_strlit("speed_min");
    reveal_strlit("speed_max");
    reveal_strlit("speed");
    reveal_strlit("color");
    reveal_strlit("charset");
    reveal_strlit("font");
    assert("idle_ms"@[0] == 'i');
    assert("fps"@[0] == 'f' && "speed"@[0] == 's' && "color"@[0] == 'c' && "charset"@[0] == 'c'
        && "font"@[0] == 'f' && "speed_min"@[0] == 's' && "speed_max"@[0] == 's'
        && "font_size"@[0] == 'f' && "font-size"@[0] == 'f');
}

/// A value that cannot be read sets nothing.
pub proof fn unreadable_values_set_nothing(
    cfg: ConfigView,
    key: Seq<char>,
    val: Seq<char>,
    n: Seq<Option<Reading>>,
)
    requires
        n.len() == number_texts(key, val).len(),
        key == "fps"@ ==> whole_number(val) is None,
        key == "color"@ ==> color_of(lowercase(trimmed(val))) is None,
        key != "charset"@,
        key != "font"@,
        forall|i: int| 0 <= i < n.len() ==> #[trigger] n[i] is None,
    ensures
        put(cfg, key, val, n) == cfg,
{
    if number_texts(key, val).len() > 0 {
        assert(n[0] is None);
    }
}

/// The key of the frame rate touches the frame rate and nothing else, and each other key likewise
/// its own part. In a configuration whose speeds are in order and at least one half this also holds
/// once they are settled, but that a key of one speed may then touch the other.
pub proof fn settings_touch_their_own_part(
    cfg: ConfigView,
    key: Seq<char>,
    val: Seq<char>,
    n: Seq<Option<Reading>>,
)
    ensures
        ({
            let out = put(cfg, key, val, n);
            &&& out.fps != cfg.fps ==> key == "fps"@
            &&& out.font_px != cfg.font_px ==> is_font_size(key)
            &&& out.speed_min != cfg.speed_min ==> key == "speed_min"@ || key == "speed"@
            &&& out.speed_max != cfg.speed_max ==> key == "speed_max"@ || key == "speed"@
            &&& out.head != cfg.head ==> key == "color"@
            &&& out.trail != cfg.trail ==> key == "color"@
            &&& out.charset != cfg.charset ==> key == "charset"@
            &&& out.font_path != cfg.font_path ==> key == "font"@
        }),
        cfg.speed_max.at_least(cfg.speed_min) && cfg.speed_min.at_least(Single { bits: HALF }) ==> ({
            let out = applied(cfg, key, val, n);
            &&& out.fps != cfg.fps ==> key == "fps"@
            &&& out.font_px != cfg.font_px ==> is_font_size(key)
            &&& out.speed_min != cfg.speed_min || out.speed_max != cfg.speed_max ==> key
                == "speed_min"@ || key == "speed_max"@ || key == "speed"@
            &&& out.head != cfg.head ==> key == "color"@
            &&& out.trail != cfg.trail ==> key == "color"@
            &&& out.charset != cfg.charset ==> key == "charset"@
            &&& out.font_path != cfg.font_path ==> key == "font"@
        }),
{
}

/// What a configuration is made of.
pub enum Part {
    FrameRate,
    GlyphSize,
    Speeds,
    Colours,
    Characters,
    FontFile,
}

/// Whether two configurations agree on a part.
pub open spec fn same_part(a: ConfigView, b: ConfigView, part: Part) -> bool {
    match part {
        Part::FrameRate => a.fps == b.fps,
        Part::GlyphSize => a.font_px == b.font_px,
        Part::Speeds => a.speed_min == b.speed_min && a.speed_max == b.speed_max,
        Part::Colours => a.head == b.head && a.trail == b.trail,
        Part::Characters => a.charset == b.charset,
        Part::FontFile => a.font_path == b.font_path,
    }
}

/// Whether a setting says all of a part: it has the part's key and a value that can be read.
pub open spec fn decides(
    part: Part,
    key: Seq<char>,
    val: Seq<char>,
    n: Seq<Option<Reading>>,
) -> bool {
    match part {
        Part::FrameRate => key == "fps"@ && whole_number(val) is Some,
        Part::GlyphSize => is_font_size(key) && (n[0] matches Some(r) && r.value.at_least(
            Single { bits: FOUR },
        )),
        Part::Speeds => key == "speed"@ && n[0] is Some && (find(val, '-') < val.len() ==> n[1]
            is Some),
        Part::Colours => key == "color"@ && color_of(lowercase(trimmed(val))) is Some,
        Part::Characters => key == "charset"@,
        Part::FontFile => key == "font"@,
    }
}

proof fn keys_differ()
    ensures
        !is_font_size("fps"@),
        !is_font_size("speed"@),
        !is_font_size("color"@),
        !is_font_size("charset"@),
        !is_font_size("font"@),
        "fps"@ != "speed"@,
        "fps"@ != "color"@,
        "fps"@ != "charset"@,
        "fps"@ != "font"@,
        "speed"@ != "speed_min"@,
        "speed"@ != "speed_max"@,
        "speed"@ != "color"@,
        "speed"@ != "charset"@,
        "speed"@ != "font"@,
        "color"@ != "speed_min"@,
        "color"@ != "speed_max"@,
        "charset"@ != "speed_min"@,
        "charset"@ != "speed_max"@,
        "font"@ != "speed_min"@,
        "font"@ != "speed_max"@,
        "color"@ != "charset"@,
        "color"@ != "font"@,
        "charset"@ != "font"@,
        "fps"@ != "font_size"@,
        "fps"@ != "font-size"@,
{
    reveal_strlit("fps");
    reveal_strlit("font_size");
    reveal_strlit("font-size");
    reveal_strlit("speed_min");
    reveal_strlit("speed_max");
    reveal_strlit("speed");
    reveal_strlit("color");
    reveal_strlit("charset");
    reveal_strlit("font");
    assert("fps"@.len() == 3 && "font_size"@.len() == 9 && "font-size"@.len() == 9
        && "speed_min"@.len() == 9 && "speed_max"@.len() == 9 && "speed"@.len() == 5
        && "color"@.len() == 5 && "charset"@.len() == 7 && "font"@.len() == 4);
    assert("speed"@[0] == 's' && "color"@[0] == 'c');
}

/// A setting that says all of a part wins over whatever was set before: that part comes out the
/// same in every configuration.
pub proof fn later_settings_win(
    a: ConfigView,
    b: ConfigView,
    part: Part,
    key: Seq<char>,
    val: Seq<char>,
    n: Seq<Option<Reading>>,
)
    requires
        decides(part, key, val, n),
    ensures
        same_part(applied(a, key, val, n), applied(b, key, val, n), part),
{
    keys_differ();
}

/// Where two configurations agree on a part, they still agree on it after the same setting.
pub proof fn settings_keep_agreement(
    a: ConfigView,
    b: ConfigView,
    part: Part,
    key: Seq<char>,
    val: Seq<char>,
    n: Seq<Option<Reading>>,
)
    requires
        same_part(a, b, part),
    ensures
        same_part(applied(a, key, val, n), applied(b, key, val, n), part),
{
}

/// Flags win over the file: where one of the flags says all of a part, that part does not depend on
/// the configuration `a` or `b` that the file has made before.
pub proof fn flags_win_over_the_file(
    a: ConfigView,
    b: ConfigView,
    part: Part,
    flags: Seq<(Seq<char>, Seq<char>)>,
    numbers: Seq<Vec<Option<Reading>>>,
    i: nat,
    k: nat,
)
    requires
        i < k,
        decides(part, flags[i as int].0, flags[i as int].1, numbers[i as int]@),
    ensures
        same_part(configured(a, flags, numbers, k), configured(b, flags, numbers, k), part),
    decreases k,
{
    let before_a = configured(a, flags, numbers, (k - 1) as nat);
    let before_b = configured(b, flags, numbers, (k - 1) as nat);
    let (key, val) = flags[k - 1];
    let n = numbers[k - 1]@;
    if i == k - 1 {
        later_settings_win(before_a, before_b, part, key, val, n);
    } else {
        flags_win_over_the_file(a, b, part, flags, numbers, i, (k - 1) as nat);
        settings_keep_agreement(before_a, before_b, part, key, val, n);
    }
}

/// The settings of two texts, one a line after the other, are those of the first and then those of
/// the second.
pub proof fn lines_are_read_one_by_one(a: Seq<char>, b: Seq<char>)
    ensures
        settings_of(a + seq!['\n'] + b) == settings_of(a) + settings_of(b),
    decreases a.len(),
{
    let t = a + seq!['\n'] + b;
    find_is_the_first(a, '\n');
    let k = find(a, '\n');
    assert forall|j: int| 0 <= j < k implies t[j] != '\n' by {
        assert(t[j] == a[j]);
    }
    if k >= a.len() {
        assert(t[k as int] == '\n');
        first_is_what_find_finds(t, '\n', k);
        assert(before(t, '\n') =~= a);
        assert(after(t, '\n') =~= b);
    } else {
        assert(t[k as int] == a[k as int]);
        first_is_what_find_finds(t, '\n', k);
        assert(before(t, '\n') =~= before(a, '\n'));
        let rest = after(a, '\n');
        assert(after(t, '\n') =~= rest + seq!['\n'] + b);
        lines_are_read_one_by_one(rest, b);
        assert(settings_on(before(a, '\n')) + (settings_of(rest) + settings_of(b)) =~= (settings_on(
            before(a, '\n'),
        ) + settings_of(rest)) + settings_of(b));
    }
}

/// Whether a line is blank, a comment or a section header.
pub open spec fn idle_line(line: Seq<char>) -> bool {
    let l = trimmed(line);
    find(line, '\n') >= line.len() && (l.len() == 0 || l[0] == '#' || l[0] == '[')
}

/// Blank lines, comments and section headers can stand anywhere: the settings are the same without
/// them.
pub proof fn idle_lines_change_nothing(a: Seq<char>, line: Seq<char>, b: Seq<char>)
    requires
        idle_line(line),
    ensures
        settings_of(a + seq!['\n'] + line + seq!['\n'] + b) == settings_of(a + seq!['\n'] + b),
        settings_of(line + seq!['\n'] + b) == settings_of(b),
        settings_of(a + seq!['\n'] + line) == settings_of(a),
{
    lines_are_read_one_by_one(a + seq!['\n'] + line, b);
    lines_are_read_one_by_one(a, line);
    lines_are_read_one_by_one(a, b);
    lines_are_read_one_by_one(line, b);
    assert(settings_of(line) =~= Seq::empty());
    assert(settings_of(a) + settings_of(line) =~= settings_of(a));
    assert(settings_of(line) + settings_of(b) =~= settings_of(b));
}

/// Whether a text can be written as a key.
pub open spec fn plain_key(k: Seq<char>) -> bool {
    &&& k.len() > 0
    &&& k[0] != '#'
    &&& k[0] != '['
    &&& !white_space(k[0])
    &&& !white_space(k.last())
    &&& forall|i: int| 0 <= i < k.len() ==> k[i] != '=' && k[i] != '\n'
}

/// The line `key = "value"`.
pub open spec fn quoted_line(k: Seq<char>, v: Seq<char>) -> Seq<char> {
    k + seq![' ', '=', ' ', '"'] + v + seq!['"']
}

/// The line `key = value`.
pub open spec fn bare_line(k: Seq<char>, v: Seq<char>) -> Seq<char> {
    k + seq![' ', '=', ' '] + v
}

proof fn trimmed_start_drops_a_space(s: Seq<char>)
    requires
        s.len() > 0 ==> !white_space(s[0]),
    ensures
        trimmed_start(seq![' '] + s) == s,
{
    let t = seq![' '] + s;
    assert(t[0] == ' ');
    assert(t.skip(1) =~= s);
    reveal_with_fuel(trimmed_start, 2);
}

proof fn trimmed_end_drops_a_space(s: Seq<char>)
    requires
        s.len() > 0 ==> !white_space(s.last()),
    ensures
        trimmed_end(s + seq![' ']) == s,
{
    let t = s + seq![' '];
    assert(t.last() == ' ');
    assert(t.drop_last() =~= s);
    reveal_with_fuel(trimmed_end, 2);
}

/// The key of a line that starts with a plain key and ` = `, and what is read as its value.
proof fn key_is_read_back(k: Seq<char>, w: Seq<char>)
    requires
        plain_key(k),
        w.len() > 0,
        !white_space(w[0]),
        !white_space(w.last()),
    ensures
        setting_on(k + seq![' ', '=', ' '] + w) == Some((k, value_of(w))),
{
    let line = k + seq![' ', '=', ' '] + w;
    assert(line[0] == k[0]);
    assert(line.last() == w.last());
    trimming_keeps_inner_text(line);
    let e = k.len() + 1;
    assert forall|j: int| 0 <= j < e implies line[j] != '=' by {
        if j < k.len() {
            assert(line[j] == k[j]);
        }
    }
    assert(line[e as int] == '=');
    first_is_what_find_finds(line, '=', e);
    assert(before(line, '=') =~= k + seq![' ']);
    assert(after(line, '=') =~= seq![' '] + w);
    assert((k + seq![' '])[0] == k[0]);
    trimmed_end_drops_a_space(k);
    trimmed_start_drops_a_space(w);
}

/// A value in quotes is read back as it was written, `#`, `=` and white space included, if it
/// holds no quote and no line feed.
pub proof fn quoted_values_read_back(k: Seq<char>, v: Seq<char>)
    requires
        plain_key(k),
        forall|i: int| 0 <= i < v.len() ==> v[i] != '"' && v[i] != '\n',
    ensures
        settings_of(quoted_line(k, v)) == seq![(k, v)],
{
    let line = quoted_line(k, v);
    let w = seq!['"'] + v + seq!['"'];
    assert(line =~= k + seq![' ', '=', ' '] + w);
    assert(w[0] == '"' && w.last() == '"');
    key_is_read_back(k, w);
    let rest = w.skip(1);
    assert forall|j: int| 0 <= j < v.len() implies rest[j] != '"' by {
        assert(rest[j] == v[j]);
    }
    assert(rest[v.len() as int] == '"');
    first_is_what_find_finds(rest, '"', v.len());
    assert(before(rest, '"') =~= v);
    assert forall|j: int| 0 <= j < line.len() implies line[j] != '\n' by {
        if j < k.len() {
            assert(line[j] == k[j]);
        } else if k.len() + 4 <= j < k.len() + 4 + v.len() {
            assert(line[j] == v[j - k.len() - 4]);
        }
    }
    first_is_what_find_finds(line, '\n', line.len());
}

/// A bare value is read back as it was written, if it is not empty, holds no `#`, no quote at its
/// start and no line feed, and has no white space at its ends.
pub proof fn bare_values_read_back(k: Seq<char>, v: Seq<char>)
    requires
        plain_key(k),
        v.len() > 0,
        v[0] != '"',
        !white_space(v[0]),
        !white_space(v.last()),
        forall|i: int| 0 <= i < v.len() ==> v[i] != '#' && v[i] != '\n',
    ensures
        settings_of(bare_line(k, v)) == seq![(k, v)],
{
    let line = bare_line(k, v);
    key_is_read_back(k, v);
    first_is_what_find_finds(v, '#', v.len());
    assert(before(v, '#') =~= v);
    trimming_keeps_inner_text(v);
    assert forall|j: int| 0 <= j < line.len() implies line[j] != '\n' by {
        if j < k.len() {
            assert(line[j] == k[j]);
        } else if k.len() + 3 <= j {
            assert(line[j] == v[j - k.len() - 3]);
        }
    }
    first_is_what_find_finds(line, '\n', line.len());
}

/// A comment after a bare value is left out.
pub proof fn inline_comments_are_left_out(k: Seq<char>, v: Seq<char>, comment: Seq<char>)
    requires
        plain_key(k),
        v.len() > 0,
        v[0] != '"',
        !white_space(v[0]),
        !white_space(v.last()),
        forall|i: int| 0 <= i < v.len() ==> v[i] != '#' && v[i] != '\n',
        forall|i: int| 0 <= i < comment.len() ==> comment[i] != '\n',
        comment.len() > 0 ==> !white_space(comment.last()),
    ensures
        settings_of(bare_line(k, v) + seq![' ', '#'] + comment) == settings_of(bare_line(k, v)),
{
    let w = v + seq![' ', '#'] + comment;
    let line = bare_line(k, v) + seq![' ', '#'] + comment;
    assert(line =~= k + seq![' ', '=', ' '] + w);
    assert(w[0] == v[0]);
    assert(w.last() == if comment.len() > 0 {
        comment.last()
    } else {
        '#'
    });
    key_is_read_back(k, w);
    assert forall|j: int| 0 <= j < v.len() + 1 implies w[j] != '#' by {
        if j < v.len() {
            assert(w[j] == v[j]);
        }
    }
    assert(w[v.len() as int + 1] == '#');
    first_is_what_find_finds(w, '#', v.len() + 1);
    assert(before(w, '#') =~= v + seq![' ']);
    assert((v + seq![' '])[0] == v[0]);
    trimmed_end_drops_a_space(v);
    assert forall|j: int| 0 <= j < line.len() implies line[j] != '\n' by {
        if j < k.len() {
            assert(line[j] == k[j]);
        } else if k.len() + 3 <= j < k.len() + 3 + v.len() {
            assert(line[j] == v[j - k.len() - 3]);
        } else if k.len() + 5 + v.len() <= j {
            assert(line[j] == comment[j - k.len() - 5 - v.len()]);
        }
    }
    first_is_what_find_finds(line, '\n', line.len());
    bare_values_read_back(k, v);
}

} // verus!
