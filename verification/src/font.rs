//! Fonts: which file to use, and which glyph stands for a character.
use vstd::prelude::*;

use ab_glyph::Font;

use crate::font_data::are_lengths_fit;
use crate::font_data::lengths_fit;
use crate::text::chars_of;

verus! {

/// A parsed font of the `ab_glyph` crate.
#[verifier::external_type_specification]
#[verifier::external_body]
pub struct ExFontVec(ab_glyph::FontVec);

/// The `ab_glyph` crate's error for data that is no font.
#[verifier::external_type_specification]
#[verifier::external_body]
pub struct ExInvalidFont(ab_glyph::InvalidFont);

/// The glyphs that a font has for characters.
pub uninterp spec fn char_map(font: ab_glyph::FontVec) -> Map<char, u16>;

/// The glyphs for characters in font data, as `ab_glyph::FontVec::try_from_vec` reads it; none if
/// the data is no font.
pub uninterp spec fn parsed_font(data: Seq<u8>) -> Option<Map<char, u16>>;

/// The glyph for a character; the glyph 0 if the font has none for it.
pub open spec fn glyph_for(map: Map<char, u16>, c: char) -> u16 {
    if map.dom().contains(c) {
        map[c]
    } else {
        0
    }
}

/// Data that is no font.
#[derive(Debug, Clone, Copy, PartialEq, Eq, Structural)]
pub struct NotAFont;

/// `ab_glyph::FontVec::try_from_vec` parses font data. Whether it is a font, and which glyphs it
/// has for characters, depends on the data alone. Data with a length past 32 bits is kept out: with
/// it the parser stops in some builds, and reads on elsewhere in others.
#[verifier::external_body]
fn parse(data: Vec<u8>) -> (r: Result<ab_glyph::FontVec, ab_glyph::InvalidFont>)
    requires
        lengths_fit(data@),
    ensures
        match r {
            Ok(font) => parsed_font(data@) == Some(char_map(font)),
            Err(_) => parsed_font(data@) is None,
        },
{
    ab_glyph::FontVec::try_from_vec(data)
}

/// `ab_glyph::Font::glyph_id` looks a character up; the glyph 0 stands for one that the font does
/// not have.
#[verifier::external_body]
fn look_up(font: &ab_glyph::FontVec, c: char) -> (r: u16)
    ensures
        r == glyph_for(char_map(*font), c),
{
    font.glyph_id(c).0
}

/// Parses font data. Data with a length past 32 bits is no font.
pub fn load_font(data: Vec<u8>) -> (r: Result<ab_glyph::FontVec, NotAFont>)
    ensures
        r is Ok <==> lengths_fit(data@) && parsed_font(data@) is Some,
        r matches Ok(font) ==> parsed_font(data@) == Some(char_map(font)),
{
    if !are_lengths_fit(data.as_slice()) {
        return Err(NotAFont);
    }
    match parse(data) {
        Ok(font) => Ok(font),
        Err(_) => Err(NotAFont),
    }
}

/// The glyphs for a text, character by character.
pub fn glyph_ids(font: &ab_glyph::FontVec, text: &str) -> (r: Vec<u16>)
    ensures
        r@ == text@.map_values(|c: char| glyph_for(char_map(*font), c)),
{
    let chars = chars_of(text);
    let n: usize = chars.len();
    let mut out: Vec<u16> = Vec::new();
    for i in 0..n
        invariant
            n == chars@.len(),
            chars@ == text@,
            out@ == text@.take(i as int).map_values(|c: char| glyph_for(char_map(*font), c)),
    {
        out.push(look_up(font, chars[i]));
        assert(out@ =~= text@.take(i + 1).map_values(|c: char| glyph_for(char_map(*font), c)));
    }
    assert(text@.take(n as int) == text@);
    out
}

/// The glyph whose width is that of a cell: the font's `M`.
pub fn measure_glyph(font: &ab_glyph::FontVec) -> (r: u16)
    ensures
        r == glyph_for(char_map(*font), 'M'),
{
    look_up(font, 'M')
}

/// The font files to look for, in order.
pub open spec fn candidates() -> Seq<Seq<char>> {
    seq![
        "/usr/share/fonts/truetype/dejavu/DejaVuSansMono.ttf"@,
        "/usr/share/fonts/truetype/liberation/LiberationMono-Regular.ttf"@,
        "/usr/share/fonts/truetype/noto/NotoSansMono-Regular.ttf"@,
        "/usr/share/fonts/truetype/noto/NotoMono-Regular.ttf"@,
    ]
}

/// The font files to look for, in order.
pub fn font_candidates() -> (r: Vec<String>)
    ensures
        r@.map_values(|s: String| s@) == candidates(),
        r@.len() == 4,
{
    let mut out: Vec<String> = Vec::new();
    out.push("/usr/share/fonts/truetype/dejavu/DejaVuSansMono.ttf".to_owned());
    out.push("/usr/share/fonts/truetype/liberation/LiberationMono-Regular.ttf".to_owned());
    out.push("/usr/share/fonts/truetype/noto/NotoSansMono-Regular.ttf".to_owned());
    out.push("/usr/share/fonts/truetype/noto/NotoMono-Regular.ttf".to_owned());
    assert(out@.map_values(|s: String| s@) =~= candidates());
    out
}

/// The first of the candidates from `i` on that is present; the first of all if none is.
pub open spec fn first_present(present: Seq<bool>, i: int) -> Seq<char>
    decreases candidates().len() - i,
{
    if i >= candidates().len() || i < 0 {
        candidates()[0]
    } else if present[i] {
        candidates()[i]
    } else {
        first_present(present, i + 1)
    }
}

/// The font file to read: the configured one if it exists, else the first candidate that is
/// present, else the first candidate.
pub open spec fn font_choice(
    configured: Option<Seq<char>>,
    found: bool,
    present: Seq<bool>,
) -> Seq<char> {
    match configured {
        Some(p) if found => p,
        _ => first_present(present, 0),
    }
}

/// The font file to read. `found` says whether the configured file exists, and `present[i]`
/// whether the candidate `i` does.
pub fn choose_font(configured: &Option<String>, found: bool, present: &Vec<bool>) -> (r: String)
    requires
        present@.len() == 4,
    ensures
        r@ == font_choice(
            match *configured {
                Some(p) => Some(p@),
                None => None,
            },
            found,
            present@,
        ),
{
    if let Some(p) = configured {
        if found {
            return p.clone();
        }
    }
    let all = font_candidates();
    let ghost texts = all@.map_values(|s: String| s@);
    let mut i: usize = 0;
    while i < 4
        invariant
            i <= 4,
            !(configured is Some && found),
            all@.len() == 4,
            present@.len() == 4,
            texts == all@.map_values(|s: String| s@),
            texts == candidates(),
            first_present(present@, 0) == first_present(present@, i as int),
        decreases 4 - i,
    {
        if present[i] {
            assert(texts[i as int] == all@[i as int]@);
            return all[i].clone();
        }
        i = i + 1;
    }
    assert(texts[0] == all@[0]@);
    all[0].clone()
}

/// A configured font that exists wins; otherwise the candidates are tried in order, and the first
/// of them stands in when none is present.
pub proof fn fonts_are_tried_in_order(configured: Seq<char>, present: Seq<bool>, i: int)
    requires
        0 <= i < candidates().len(),
    ensures
        font_choice(Some(configured), true, present) == configured,
        present[i] && (forall|j: int| 0 <= j < i ==> !#[trigger] present[j]) ==> font_choice(
            None,
            false,
            present,
        ) == candidates()[i] && font_choice(Some(configured), false, present) == candidates()[i],
        (forall|j: int| 0 <= j < candidates().len() ==> !#[trigger] present[j]) ==> font_choice(
            None,
            false,
            present,
        ) == candidates()[0],
{
    reveal_with_fuel(first_present, 5);
}

/// Where no candidate is present, the first stands in, whether another font was asked for or not; a
/// font that was asked for and exists is taken whatever is present.
pub proof fn the_first_candidate_stands_in(
    configured: Option<Seq<char>>,
    found: bool,
    present: Seq<bool>,
)
    ensures
        configured matches Some(p) ==> found ==> font_choice(configured, found, present) == p,
        (configured is None || !found) && !present[0] && !present[1] && !present[2] && !present[3]
            ==> font_choice(configured, found, present)
            == "/usr/share/fonts/truetype/dejavu/DejaVuSansMono.ttf"@,
        (configured is None || !found) && present[0] ==> font_choice(configured, found, present)
            == "/usr/share/fonts/truetype/dejavu/DejaVuSansMono.ttf"@,
        (configured is None || !found) && !present[0] && present[1] ==> font_choice(
            configured,
            found,
            present,
        ) == "/usr/share/fonts/truetype/liberation/LiberationMono-Regular.ttf"@,
        (configured is None || !found) && !present[0] && !present[1] && present[2] ==> font_choice(
            configured,
            found,
            present,
        ) == "/usr/share/fonts/truetype/noto/NotoSansMono-Regular.ttf"@,
        (configured is None || !found) && !present[0] && !present[1] && !present[2] && present[3]
            ==> font_choice(configured, found, present)
            == "/usr/share/fonts/truetype/noto/NotoMono-Regular.ttf"@,
{
    reveal_with_fuel(first_present, 5);
}

/// A character has the glyph that the map has for it, and the glyph 0 where it has none.
pub proof fn missing_characters_have_glyph_zero(map: Map<char, u16>, c: char, g: u16)
    ensures
        glyph_for(map.insert(c, g), c) == g,
        glyph_for(map.remove(c), c) == 0,
{
}

} // verus!
