//! The configuration: a flat `key = value` file and the settings it makes.
use vstd::prelude::*;
use vstd::slice::slice_subrange;

use crate::charset::{charset_of, DEFAULT_CHARSET};
use crate::charset::resolve_charset;
use crate::color::{color_of, color_text};
use crate::color::{is_color_text, resolve_color, CutCharacter, Rgb};
use crate::number::whole_number;
use crate::number::{parse_whole, Reading, Single};
use crate::text::{after, before, find, lowercase, trimmed};
use crate::text::{chars_of, position, same_text, text_of, trim};

verus! {

/// The bit pattern of one half.
pub const HALF: u32 = 0x3f00_0000;

/// The bit pattern of four.
pub const FOUR: u32 = 0x4080_0000;

/// The bit pattern of six.
pub const SIX: u32 = 0x40c0_0000;

/// The bit pattern of fifteen.
pub const FIFTEEN: u32 = 0x4170_0000;

/// The bit pattern of twenty-four.
pub const TWENTY_FOUR: u32 = 0x41c0_0000;

/// The bit pattern of twenty-six.
pub const TWENTY_SIX: u32 = 0x41d0_0000;

/// How the rain looks and moves.
pub struct Config {
    /// Glyph size in pixels.
    pub font_px: Single,
    /// Frames per second.
    pub fps: u64,
    /// Least fall speed, in rows per second.
    pub speed_min: Single,
    /// Greatest fall speed, in rows per second.
    pub speed_max: Single,
    /// Colour of the leader.
    pub head: Rgb,
    /// Colour of the trail.
    pub trail: Rgb,
    /// The characters that rain.
    pub charset: String,
    /// The font file asked for.
    pub font_path: Option<String>,
}

/// A configuration with its texts as sequences of characters.
#[verifier::ext_equal]
pub struct ConfigView {
    pub font_px: Single,
    pub fps: u64,
    pub speed_min: Single,
    pub speed_max: Single,
    pub head: Rgb,
    pub trail: Rgb,
    pub charset: Seq<char>,
    pub font_path: Option<Seq<char>>,
}

impl View for Config {
    type V = ConfigView;

    open spec fn view(&self) -> ConfigView {
        ConfigView {
            font_px: self.font_px,
            fps: self.fps,
            speed_min: self.speed_min,
            speed_max: self.speed_max,
            head: self.head,
            trail: self.trail,
            charset: self.charset@,
            font_path: match self.font_path {
                Some(p) => Some(p@),
                None => None,
            },
        }
    }
}

/// The configuration before any setting.
pub open spec fn default_config() -> ConfigView {
    ConfigView {
        font_px: Single { bits: TWENTY_SIX },
        fps: 30,
        speed_min: Single { bits: SIX },
        speed_max: Single { bits: TWENTY_FOUR },
        head: (220u8, 255u8, 220u8),
        trail: (0u8, 255u8, 40u8),
        charset: DEFAULT_CHARSET@,
        font_path: None,
    }
}

impl Default for Config {
    fn default() -> (r: Self)
        ensures
            r@ == default_config(),
    {
        Config {
            font_px: Single { bits: TWENTY_SIX },
            fps: 30,
            speed_min: Single { bits: SIX },
            speed_max: Single { bits: TWENTY_FOUR },
            head: (220u8, 255u8, 220u8),
            trail: (0u8, 255u8, 40u8),
            charset: DEFAULT_CHARSET.to_owned(),
            font_path: None,
        }
    }
}

/// One setting: a key and its value.
pub struct Setting {
    pub key: String,
    pub val: String,
}

impl View for Setting {
    type V = (Seq<char>, Seq<char>);

    open spec fn view(&self) -> (Seq<char>, Seq<char>) {
        (self.key@, self.val@)
    }
}

/// The settings, key and value, as sequences of characters.
pub open spec fn setting_views(s: Seq<Setting>) -> Seq<(Seq<char>, Seq<char>)> {
    s.map_values(|x: Setting| x@)
}

/// The value written after the `=`: inside quotes, up to the closing one; else up to a `#`.
pub open spec fn value_of(v: Seq<char>) -> Seq<char> {
    if v.len() > 0 && v[0] == '"' {
        before(v.skip(1), '"')
    } else {
        trimmed(before(v, '#'))
    }
}

/// The setting on a line. Blank lines, comments, section headers and lines without `=` hold none.
pub open spec fn setting_on(line: Seq<char>) -> Option<(Seq<char>, Seq<char>)> {
    let l = trimmed(line);
    if l.len() == 0 || l[0] == '#' || l[0] == '[' || find(l, '=') >= l.len() {
        None
    } else {
        Some((trimmed(before(l, '=')), value_of(trimmed(after(l, '=')))))
    }
}

/// The settings on a line as a list of none or one.
pub open spec fn settings_on(line: Seq<char>) -> Seq<(Seq<char>, Seq<char>)> {
    match setting_on(line) {
        Some(s) => seq![s],
        None => Seq::empty(),
    }
}

/// The settings of a file, in the order of its lines.
pub open spec fn settings_of(text: Seq<char>) -> Seq<(Seq<char>, Seq<char>)>
    decreases text.len(),
    via settings_of_decreases
{
    if find(text, '\n') >= text.len() {
        settings_on(text)
    } else {
        settings_on(before(text, '\n')) + settings_of(after(text, '\n'))
    }
}

#[via_fn]
proof fn settings_of_decreases(text: Seq<char>) {
    crate::text::find_is_the_first(text, '\n');
}

fn read_value(v: &[char]) -> (r: String)
    ensures
        r@ == value_of(v@),
{
    if v.len() > 0 && v[0] == '"' {
        let rest = slice_subrange(v, 1, v.len());
        assert(rest@ == v@.skip(1));
        let end: usize = position(rest, '"');
        text_of(slice_subrange(rest, 0, end))
    } else {
        let end: usize = position(v, '#');
        text_of(trim(slice_subrange(v, 0, end)))
    }
}

fn read_line(line: &[char]) -> (r: Option<Setting>)
    ensures
        match r {
            Some(s) => setting_on(line@) == Some(s@),
            None => setting_on(line@) is None,
        },
{
    let l = trim(line);
    if l.len() == 0 || l[0] == '#' || l[0] == '[' {
        return None;
    }
    let eq: usize = position(l, '=');
    if eq >= l.len() {
        return None;
    }
    let key = text_of(trim(slice_subrange(l, 0, eq)));
    let rest = slice_subrange(l, eq + 1, l.len());
    assert(rest@ == after(l@, '='));
    let val = read_value(trim(rest));
    Some(Setting { key, val })
}

/// The settings of a file, in the order of its lines. A line is `key = value` or `key = "value"`;
/// a comment after a bare value is left out, and blank lines, `#` comments, `[section]` headers
/// and lines without `=` are passed over.
pub fn settings_in(text: &str) -> (r: Vec<Setting>)
    ensures
        setting_views(r@) == settings_of(text@),
{
    let all = chars_of(text);
    let mut out: Vec<Setting> = Vec::new();
    let mut rest = all.as_slice();
    assert(setting_views(out@) =~= Seq::empty());
    assert(setting_views(out@) + settings_of(rest@) == settings_of(text@));
    loop
        invariant
            setting_views(out@) + settings_of(rest@) == settings_of(text@),
        decreases rest@.len(),
    {
        let end: usize = position(rest, '\n');
        let ghost done = setting_views(out@);
        let line = read_line(slice_subrange(rest, 0, end));
        let ghost found = settings_on(before(rest@, '\n'));
        match line {
            Some(s) => {
                out.push(s);
            },
            None => {},
        }
        assert(setting_views(out@) =~= done + found);
        if end >= rest.len() {
            assert(before(rest@, '\n') == rest@);
            return out;
        }
        let next = slice_subrange(rest, end + 1, rest.len());
        assert(next@ == after(rest@, '\n'));
        assert(done + (found + settings_of(next@)) =~= (done + found) + settings_of(next@));
        rest = next;
    }
}

/// Whether a key is that of the glyph size.
pub open spec fn is_font_size(key: Seq<char>) -> bool {
    key == "font_size"@ || key == "font-size"@
}

/// The texts in a setting's value that are to be read as single-precision numbers.
pub open spec fn number_texts(key: Seq<char>, val: Seq<char>) -> Seq<Seq<char>> {
    if is_font_size(key) || key == "speed_min"@ || key == "speed_max"@ {
        seq![val]
    } else if key == "speed"@ {
        if find(val, '-') < val.len() {
            seq![trimmed(before(val, '-')), trimmed(after(val, '-'))]
        } else {
            seq![val]
        }
    } else {
        Seq::empty()
    }
}

/// What a setting puts into the configuration. `n` holds, for each of its `number_texts`, what it
/// reads as; a value that cannot be read leaves the configuration as it is, and so does an unknown
/// key.
pub open spec fn put(
    cfg: ConfigView,
    key: Seq<char>,
    val: Seq<char>,
    n: Seq<Option<Reading>>,
) -> ConfigView {
    if key == "fps"@ {
        match whole_number(val) {
            Some(v) => ConfigView { fps: clamped(v, 1, 240), ..cfg },
            None => cfg,
        }
    } else if is_font_size(key) {
        match n[0] {
            Some(r) if r.value.at_least(Single { bits: FOUR }) => ConfigView {
                font_px: r.value,
                ..cfg
            },
            _ => cfg,
        }
    } else if key == "speed_min"@ {
        match n[0] {
            Some(r) => ConfigView { speed_min: r.value, ..cfg },
            None => cfg,
        }
    } else if key == "speed_max"@ {
        match n[0] {
            Some(r) => ConfigView { speed_max: r.value, ..cfg },
            None => cfg,
        }
    } else if key == "speed"@ {
        if find(val, '-') < val.len() {
            match (n[0], n[1]) {
                (Some(a), Some(b)) => ConfigView { speed_min: a.value, speed_max: b.value, ..cfg },
                _ => cfg,
            }
        } else {
            match n[0] {
                Some(r) => ConfigView { speed_min: r.four_tenths, speed_max: r.value, ..cfg },
                None => cfg,
            }
        }
    } else if key == "color"@ {
        match color_of(lowercase(trimmed(val))) {
            Some((h, t)) => ConfigView { head: h, trail: t, ..cfg },
            None => cfg,
        }
    } else if key == "charset"@ {
        ConfigView { charset: charset_of(lowercase(val), val), ..cfg }
    } else if key == "font"@ {
        ConfigView { font_path: Some(val), ..cfg }
    } else {
        cfg
    }
}

/// `v` kept within `low..=high`.
pub open spec fn clamped(v: u64, low: u64, high: u64) -> u64 {
    if v < low {
        low
    } else if v > high {
        high
    } else {
        v
    }
}

/// The speeds put in order, the lesser then raised to one half.
pub open spec fn settled(cfg: ConfigView) -> ConfigView {
    if cfg.speed_min.above(cfg.speed_max) {
        ConfigView {
            speed_min: cfg.speed_max.raised_to(Single { bits: HALF }),
            speed_max: cfg.speed_min,
            ..cfg
        }
    } else {
        ConfigView { speed_min: cfg.speed_min.raised_to(Single { bits: HALF }), ..cfg }
    }
}

/// The configuration after one setting.
pub open spec fn applied(
    cfg: ConfigView,
    key: Seq<char>,
    val: Seq<char>,
    n: Seq<Option<Reading>>,
) -> ConfigView {
    settled(put(cfg, key, val, n))
}

/// Whether a setting can be read without cutting a character of a colour in two.
pub open spec fn readable_setting(key: Seq<char>, val: Seq<char>) -> bool {
    key == "color"@ ==> color_text(val)
}

/// The texts in a setting's value that are to be read as single-precision numbers, in the order
/// in which `apply_key` takes what they read as.
pub fn numbers_in(key: &str, val: &str) -> (r: Vec<String>)
    ensures
        r@.map_values(|t: String| t@) == number_texts(key@, val@),
        r@.len() == number_texts(key@, val@).len(),
{
    let mut out: Vec<String> = Vec::new();
    if same_text(key, "font_size") || same_text(key, "font-size") || same_text(key, "speed_min")
        || same_text(key, "speed_max") {
        out.push(val.to_owned());
    } else if same_text(key, "speed") {
        let all = chars_of(val);
        let v = all.as_slice();
        let dash: usize = position(v, '-');
        if dash < v.len() {
            let rest = slice_subrange(v, dash + 1, v.len());
            assert(rest@ == after(v@, '-'));
            out.push(text_of(trim(slice_subrange(v, 0, dash))));
            out.push(text_of(trim(rest)));
        } else {
            out.push(val.to_owned());
        }
    }
    assert(out@.map_values(|t: String| t@) =~= number_texts(key@, val@));
    out
}

/// Applies one setting. `numbers` holds what each text of `numbers_in` reads as, `None` for one
/// that is no number. Afterwards the speeds are in order and the lesser is at least one half.
pub fn apply_key(cfg: &mut Config, key: &str, val: &str, numbers: &Vec<Option<Reading>>)
    requires
        numbers@.len() == number_texts(key@, val@).len(),
        readable_setting(key@, val@),
    ensures
        final(cfg)@ == applied(old(cfg)@, key@, val@, numbers@),
{
    if same_text(key, "fps") {
        let digits = chars_of(val);
        if let Some(v) = parse_whole(digits.as_slice()) {
            cfg.fps = if v < 1 {
                1
            } else if v > 240 {
                240
            } else {
                v
            };
        }
    } else if same_text(key, "font_size") || same_text(key, "font-size") {
        if let Some(r) = numbers[0] {
            if r.value.ge(Single { bits: FOUR }) {
                cfg.font_px = r.value;
            }
        }
    } else if same_text(key, "speed_min") {
        if let Some(r) = numbers[0] {
            cfg.speed_min = r.value;
        }
    } else if same_text(key, "speed_max") {
        if let Some(r) = numbers[0] {
            cfg.speed_max = r.value;
        }
    } else if same_text(key, "speed") {
        let all = chars_of(val);
        let v = all.as_slice();
        if position(v, '-') < v.len() {
            if let (Some(a), Some(b)) = (numbers[0], numbers[1]) {
                cfg.speed_min = a.value;
                cfg.speed_max = b.value;
            }
        } else if let Some(r) = numbers[0] {
            cfg.speed_min = r.four_tenths;
            cfg.speed_max = r.value;
        }
    } else if same_text(key, "color") {
        if let Some((h, t)) = resolve_color(val) {
            cfg.head = h;
            cfg.trail = t;
        }
    } else if same_text(key, "charset") {
        cfg.charset = resolve_charset(val);
    } else if same_text(key, "font") {
        cfg.font_path = Some(val.to_owned());
    }
    assert(cfg@ == put(old(cfg)@, key@, val@, numbers@));
    if cfg.speed_min.gt(cfg.speed_max) {
        let lesser: Single = cfg.speed_max;
        cfg.speed_max = cfg.speed_min;
        cfg.speed_min = lesser;
    }
    cfg.speed_min = cfg.speed_min.max(Single { bits: HALF });
}

/// The configuration after the first `k` of the settings, `numbers[i]` holding what the number
/// texts of the setting `i` read as.
pub open spec fn configured(
    cfg: ConfigView,
    settings: Seq<(Seq<char>, Seq<char>)>,
    numbers: Seq<Vec<Option<Reading>>>,
    k: nat,
) -> ConfigView
    decreases k,
{
    if k == 0 {
        cfg
    } else {
        applied(
            configured(cfg, settings, numbers, (k - 1) as nat),
            settings[k - 1].0,
            settings[k - 1].1,
            numbers[k - 1]@,
        )
    }
}

/// Whether there is one reading for each number text of each setting.
pub open spec fn numbers_match(
    settings: Seq<(Seq<char>, Seq<char>)>,
    numbers: Seq<Vec<Option<Reading>>>,
) -> bool {
    &&& numbers.len() == settings.len()
    &&& forall|i: int|
        0 <= i < settings.len() ==> (#[trigger] numbers[i])@.len() == number_texts(
            settings[i].0,
            settings[i].1,
        ).len()
}

/// Whether every setting can be read.
pub open spec fn readable_settings(settings: Seq<(Seq<char>, Seq<char>)>) -> bool {
    forall|i: int|
        0 <= i < settings.len() ==> readable_setting((#[trigger] settings[i]).0, settings[i].1)
}

/// Applies settings one after the other. `numbers[i]` holds what the texts of `numbers_in` for the
/// setting `i` read as.
pub fn apply_settings(
    cfg: &mut Config,
    settings: &Vec<Setting>,
    numbers: &Vec<Vec<Option<Reading>>>,
)
    requires
        numbers_match(setting_views(settings@), numbers@),
        readable_settings(setting_views(settings@)),
    ensures
        final(cfg)@ == configured(
            old(cfg)@,
            setting_views(settings@),
            numbers@,
            settings@.len(),
        ),
{
    let n: usize = settings.len();
    for i in 0..n
        invariant
            n == settings@.len(),
            numbers_match(setting_views(settings@), numbers@),
            readable_settings(setting_views(settings@)),
            cfg@ == configured(old(cfg)@, setting_views(settings@), numbers@, i as nat),
    {
        assert(setting_views(settings@)[i as int] == settings@[i as int]@);
        apply_key(cfg, settings[i].key.as_str(), settings[i].val.as_str(), &numbers[i]);
    }
}

/// Applies the settings of a file one after the other. `numbers[i]` holds what the texts of
/// `numbers_in` for the setting `i` of `settings_in(text)` read as.
pub fn parse_config_text(text: &str, cfg: &mut Config, numbers: &Vec<Vec<Option<Reading>>>)
    requires
        numbers_match(settings_of(text@), numbers@),
        readable_settings(settings_of(text@)),
    ensures
        final(cfg)@ == configured(
            old(cfg)@,
            settings_of(text@),
            numbers@,
            settings_of(text@).len(),
        ),
{
    let settings = settings_in(text);
    assert(setting_views(settings@).len() == settings@.len());
    apply_settings(cfg, &settings, numbers);
}

/// Applies one setting, unless reading it would cut a character in two: then the configuration
/// stays as it is.
pub fn try_apply_key(
    cfg: &mut Config,
    key: &str,
    val: &str,
    numbers: &Vec<Option<Reading>>,
) -> (r: Result<(), CutCharacter>)
    requires
        numbers@.len() == number_texts(key@, val@).len(),
    ensures
        r is Ok <==> readable_setting(key@, val@),
        r is Ok ==> final(cfg)@ == applied(old(cfg)@, key@, val@, numbers@),
        r is Err ==> *final(cfg) == *old(cfg),
{
    if same_text(key, "color") && !is_color_text(val) {
        return Err(CutCharacter);
    }
    apply_key(cfg, key, val, numbers);
    Ok(())
}

/// Applies settings one after the other, unless reading one would cut a character in two: then the
/// configuration stays as it is.
pub fn try_apply_settings(
    cfg: &mut Config,
    settings: &Vec<Setting>,
    numbers: &Vec<Vec<Option<Reading>>>,
) -> (r: Result<(), CutCharacter>)
    requires
        numbers_match(setting_views(settings@), numbers@),
    ensures
        r is Ok <==> readable_settings(setting_views(settings@)),
        r is Ok ==> final(cfg)@ == configured(
            old(cfg)@,
            setting_views(settings@),
            numbers@,
            settings@.len(),
        ),
        r is Err ==> *final(cfg) == *old(cfg),
{
    let n: usize = settings.len();
    let ghost views = setting_views(settings@);
    for i in 0..n
        invariant
            n == settings@.len(),
            views == setting_views(settings@),
            *cfg == *old(cfg),
            forall|j: int| 0 <= j < i ==> readable_setting((#[trigger] views[j]).0, views[j].1),
    {
        assert(views[i as int] == settings@[i as int]@);
        if same_text(settings[i].key.as_str(), "color") && !is_color_text(
            settings[i].val.as_str(),
        ) {
            assert(!readable_setting(views[i as int].0, views[i as int].1));
            return Err(CutCharacter);
        }
    }
    apply_settings(cfg, settings, numbers);
    Ok(())
}

/// Applies the settings of a file, unless reading one would cut a character in two: then the
/// configuration stays as it is.
pub fn try_parse_config_text(
    text: &str,
    cfg: &mut Config,
    numbers: &Vec<Vec<Option<Reading>>>,
) -> (r: Result<(), CutCharacter>)
    requires
        numbers_match(settings_of(text@), numbers@),
    ensures
        r is Ok <==> readable_settings(settings_of(text@)),
        r is Ok ==> final(cfg)@ == configured(
            old(cfg)@,
            settings_of(text@),
            numbers@,
            settings_of(text@).len(),
        ),
        r is Err ==> *final(cfg) == *old(cfg),
{
    let settings = settings_in(text);
    assert(setting_views(settings@).len() == settings@.len());
    try_apply_settings(cfg, &settings, numbers)
}

/// The configuration for an animation: the same, with glyphs of at most fifteen pixels.
pub open spec fn densified(cfg: ConfigView) -> ConfigView {
    ConfigView { font_px: cfg.font_px.lowered_to(Single { bits: FIFTEEN }), ..cfg }
}

/// A copy of the configuration with glyphs of at most fifteen pixels, so that the rain stays
/// dense in a small picture.
pub fn densify(cfg: &Config) -> (r: Config)
    ensures
        r@ == densified(cfg@),
{
    Config {
        font_px: cfg.font_px.min(Single { bits: FIFTEEN }),
        fps: cfg.fps,
        speed_min: cfg.speed_min,
        speed_max: cfg.speed_max,
        head: cfg.head,
        trail: cfg.trail,
        charset: cfg.charset.clone(),
        font_path: match &cfg.font_path {
            Some(p) => Some(p.clone()),
            None => None,
        },
    }
}

} // verus!
