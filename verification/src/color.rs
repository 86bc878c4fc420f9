//! Rain colours: names and `#RRGGBB` texts.
use vstd::prelude::*;
use vstd::slice::slice_subrange;

use crate::text::{
    ascii, ascii_lower, lowercase, lowercase_is_settled, lowercase_keeps_ascii, trimmed,
    trimmed_end, trimmed_has_bare_ends, trimmed_start, trimming_keeps_inner_text, white_space,
};
use crate::text::{chars_of, spells, text_of, trim};

verus! {

/// Red, green and blue.
pub type Rgb = (u8, u8, u8);

/// The colours of the leader and of the trail that a colour name stands for.
pub open spec fn preset_color(s: Seq<char>) -> Option<(Rgb, Rgb)> {
    if s == "green"@ {
        Some(((220u8, 255u8, 220u8), (0u8, 255u8, 40u8)))
    } else if s == "amber"@ || s == "orange"@ {
        Some(((255u8, 240u8, 200u8), (255u8, 176u8, 0u8)))
    } else if s == "cyan"@ || s == "blue"@ {
        Some(((210u8, 255u8, 255u8), (0u8, 255u8, 210u8)))
    } else if s == "white"@ {
        Some(((255u8, 255u8, 255u8), (170u8, 170u8, 170u8)))
    } else if s == "red"@ || s == "crimson"@ {
        Some(((255u8, 210u8, 210u8), (255u8, 40u8, 40u8)))
    } else if s == "purple"@ || s == "magenta"@ {
        Some(((245u8, 210u8, 255u8), (200u8, 0u8, 255u8)))
    } else {
        None
    }
}

/// `s` without the `#` signs it starts with.
pub open spec fn unhashed(s: Seq<char>) -> Seq<char>
    decreases s.len(),
{
    if s.len() > 0 && s[0] == '#' {
        unhashed(s.skip(1))
    } else {
        s
    }
}

/// The value of a hexadecimal digit of either case.
pub open spec fn hex_digit(c: char) -> Option<u8> {
    if '0' <= c <= '9' {
        Some((c as u8 - '0' as u8) as u8)
    } else if 'a' <= c <= 'f' {
        Some((c as u8 - 'a' as u8 + 10) as u8)
    } else if 'A' <= c <= 'F' {
        Some((c as u8 - 'A' as u8 + 10) as u8)
    } else {
        None
    }
}

/// The byte that two hexadecimal digits spell.
pub open spec fn hex_pair(a: char, b: char) -> Option<u8> {
    match (hex_digit(a), hex_digit(b)) {
        (Some(x), Some(y)) => Some((16 * x + y) as u8),
        _ => None,
    }
}

/// The colour that six characters spell in three pairs.
pub open spec fn hex_color(s: Seq<char>) -> Option<Rgb> {
    if s.len() == 6 {
        match (hex_pair(s[0], s[1]), hex_pair(s[2], s[3]), hex_pair(s[4], s[5])) {
            (Some(r), Some(g), Some(b)) => Some((r, g, b)),
            _ => None,
        }
    } else {
        None
    }
}

/// A colour channel moved halfway towards full.
pub open spec fn brightened(c: u8) -> u8 {
    ((c + 255) / 2) as u8
}

/// The colours of the leader and of the trail that a lower-case text stands for.
pub open spec fn color_of(s: Seq<char>) -> Option<(Rgb, Rgb)> {
    match preset_color(s) {
        Some(c) => Some(c),
        None => match hex_color(unhashed(s)) {
            Some(t) => Some(((brightened(t.0), brightened(t.1), brightened(t.2)), t)),
            None => None,
        },
    }
}

/// How many bytes a character takes in UTF-8.
pub open spec fn utf8_len(c: char) -> nat {
    if c <= '\u{7f}' {
        1
    } else if c <= '\u{7ff}' {
        2
    } else if c <= '\u{ffff}' {
        3
    } else {
        4
    }
}

/// How many bytes a text takes in UTF-8.
pub open spec fn byte_len(s: Seq<char>) -> nat
    decreases s.len(),
{
    if s.len() == 0 {
        0
    } else {
        utf8_len(s[0]) + byte_len(s.skip(1))
    }
}

/// Whether the first two bytes of `s` are whole characters.
pub open spec fn whole_first_pair(s: Seq<char>) -> bool {
    &&& s.len() > 0
    &&& utf8_len(s[0]) == 2 || (utf8_len(s[0]) == 1 && s.len() > 1 && utf8_len(s[1]) == 1)
}

/// Whether the byte pairs of a six-byte text can be read one after the other, up to the first
/// that is no number, without cutting a character in two.
pub open spec fn pairs_are_whole(s: Seq<char>) -> bool {
    byte_len(s) == 6 ==> {
        &&& whole_first_pair(s)
        &&& utf8_len(s[0]) == 1 && hex_pair(s[0], s[1]) is Some ==> whole_first_pair(s.skip(2))
    }
}

/// Whether a lower-case text can be read as a colour: it is a name, or its byte pairs are whole.
pub open spec fn readable_color(s: Seq<char>) -> bool {
    preset_color(s) is None ==> pairs_are_whole(unhashed(s))
}

fn preset(s: &[char]) -> (r: Option<(Rgb, Rgb)>)
    ensures
        r == preset_color(s@),
{
    if spells(s, "green") {
        Some(((220u8, 255u8, 220u8), (0u8, 255u8, 40u8)))
    } else if spells(s, "amber") || spells(s, "orange") {
        Some(((255u8, 240u8, 200u8), (255u8, 176u8, 0u8)))
    } else if spells(s, "cyan") || spells(s, "blue") {
        Some(((210u8, 255u8, 255u8), (0u8, 255u8, 210u8)))
    } else if spells(s, "white") {
        Some(((255u8, 255u8, 255u8), (170u8, 170u8, 170u8)))
    } else if spells(s, "red") || spells(s, "crimson") {
        Some(((255u8, 210u8, 210u8), (255u8, 40u8, 40u8)))
    } else if spells(s, "purple") || spells(s, "magenta") {
        Some(((245u8, 210u8, 255u8), (200u8, 0u8, 255u8)))
    } else {
        None
    }
}

fn digit(c: char) -> (r: Option<u8>)
    ensures
        r == hex_digit(c),
        r matches Some(v) ==> v < 16,
{
    if '0' <= c && c <= '9' {
        Some(c as u8 - '0' as u8)
    } else if 'a' <= c && c <= 'f' {
        Some(c as u8 - 'a' as u8 + 10)
    } else if 'A' <= c && c <= 'F' {
        Some(c as u8 - 'A' as u8 + 10)
    } else {
        None
    }
}

fn pair(a: char, b: char) -> (r: Option<u8>)
    ensures
        r == hex_pair(a, b),
{
    match (digit(a), digit(b)) {
        (Some(x), Some(y)) => Some(16 * x + y),
        _ => None,
    }
}

fn unhash(s: &[char]) -> (r: &[char])
    ensures
        r@ == unhashed(s@),
{
    let mut i: usize = 0;
    assert(s@.skip(0) == s@);
    while i < s.len() && s[i] == '#'
        invariant
            i <= s@.len(),
            unhashed(s@) == unhashed(s@.skip(i as int)),
        decreases s@.len() - i,
    {
        assert(s@.skip(i as int).skip(1) == s@.skip(i + 1));
        i = i + 1;
    }
    assert(s@.skip(i as int) == s@.subrange(i as int, s@.len() as int));
    slice_subrange(s, i, s.len())
}

fn hex(s: &[char]) -> (r: Option<Rgb>)
    ensures
        r == hex_color(s@),
{
    if s.len() != 6 {
        return None;
    }
    match (pair(s[0], s[1]), pair(s[2], s[3]), pair(s[4], s[5])) {
        (Some(r), Some(g), Some(b)) => Some((r, g, b)),
        _ => None,
    }
}

fn brighten(c: u8) -> (r: u8)
    ensures
        r == brightened(c),
{
    ((c as u16 + 255) / 2) as u8
}

fn utf8_size(c: char) -> (r: usize)
    ensures
        r == utf8_len(c),
{
    if c <= '\u{7f}' {
        1
    } else if c <= '\u{7ff}' {
        2
    } else if c <= '\u{ffff}' {
        3
    } else {
        4
    }
}

/// Whether `s` takes six bytes.
fn takes_six_bytes(s: &[char]) -> (r: bool)
    ensures
        r == (byte_len(s@) == 6),
{
    let mut total: usize = 0;
    let mut i: usize = 0;
    assert(s@.skip(0) == s@);
    while i < s.len() && total <= 6
        invariant
            i <= s@.len(),
            total <= 10,
            byte_len(s@) == total + byte_len(s@.skip(i as int)),
        decreases s@.len() - i,
    {
        assert(s@.skip(i as int).skip(1) == s@.skip(i + 1));
        total = total + utf8_size(s[i]);
        i = i + 1;
    }
    total == 6
}

fn first_pair_is_whole(s: &[char]) -> (r: bool)
    ensures
        r == whole_first_pair(s@),
{
    s.len() > 0 && (utf8_size(s[0]) == 2 || (utf8_size(s[0]) == 1 && s.len() > 1 && utf8_size(s[1])
        == 1))
}

/// Whether a lower-case text can be read as a colour.
pub fn is_readable_color(lowered: &str) -> (r: bool)
    ensures
        r == readable_color(lowered@),
{
    let all = chars_of(lowered);
    if preset(all.as_slice()).is_some() {
        return true;
    }
    let s = unhash(all.as_slice());
    if !takes_six_bytes(s) {
        return true;
    }
    if !first_pair_is_whole(s) {
        return false;
    }
    if utf8_size(s[0]) == 1 && pair(s[0], s[1]).is_some() {
        let rest = slice_subrange(s, 2, s.len());
        assert(rest@ == s@.skip(2));
        first_pair_is_whole(rest)
    } else {
        true
    }
}

/// The colours of the leader and of the trail that a lower-case text stands for.
pub fn color_from_lowercase(lowered: &str) -> (r: Option<(Rgb, Rgb)>)
    requires
        readable_color(lowered@),
    ensures
        r == color_of(lowered@),
{
    let s = chars_of(lowered);
    match preset(s.as_slice()) {
        Some(c) => Some(c),
        None => match hex(unhash(s.as_slice())) {
            Some(t) => Some(((brighten(t.0), brighten(t.1), brighten(t.2)), t)),
            None => None,
        },
    }
}

/// A text that would be read as a colour by cutting a character in two.
#[derive(Debug, PartialEq, Eq, Clone, Copy, Structural)]
pub struct CutCharacter;

fn lowered(s: &str) -> (r: String)
    ensures
        r@ == lowercase(trimmed(s@)),
{
    let all = chars_of(s);
    let bare = text_of(trim(all.as_slice()));
    bare.as_str().to_lowercase()
}

/// Whether a setting's text can be read as a colour; ASCII text always can.
pub open spec fn color_text(s: Seq<char>) -> bool {
    ascii(trimmed(s)) || readable_color(lowercase(trimmed(s)))
}

/// The colours of the leader and of the trail that `s` stands for: a colour name or `#RRGGBB`,
/// in any case and with white space round it.
pub fn resolve_color(s: &str) -> (r: Option<(Rgb, Rgb)>)
    requires
        color_text(s@),
    ensures
        r == color_of(lowercase(trimmed(s@))),
{
    let low = lowered(s);
    proof {
        if ascii(trimmed(s@)) {
            lowercase_keeps_ascii(trimmed(s@));
            ascii_text_is_readable(low@);
        }
    }
    color_from_lowercase(low.as_str())
}

/// Whether `s` can be read as a colour without cutting a character in two.
pub fn is_color_text(s: &str) -> (r: bool)
    ensures
        r == color_text(s@),
{
    let low = lowered(s);
    proof {
        if ascii(trimmed(s@)) {
            lowercase_keeps_ascii(trimmed(s@));
            ascii_text_is_readable(low@);
        }
    }
    is_readable_color(low.as_str())
}

/// What `resolve_color` gives, or an error where reading `s` would cut a character in two.
pub fn try_resolve_color(s: &str) -> (r: Result<Option<(Rgb, Rgb)>, CutCharacter>)
    ensures
        r is Ok <==> color_text(s@),
        r matches Ok(c) ==> c == color_of(lowercase(trimmed(s@))),
{
    if is_color_text(s) {
        Ok(resolve_color(s))
    } else {
        Err(CutCharacter)
    }
}

proof fn ascii_takes_a_byte_each(s: Seq<char>)
    requires
        ascii(s),
    ensures
        byte_len(s) == s.len(),
    decreases s.len(),
{
    if s.len() > 0 {
        assert forall|i: int| 0 <= i < s.skip(1).len() implies s.skip(1)[i] <= '\u{7f}' by {
            assert(s.skip(1)[i] == s[i + 1]);
        }
        ascii_takes_a_byte_each(s.skip(1));
    }
}

proof fn unhashing_keeps_ascii(s: Seq<char>)
    requires
        ascii(s),
    ensures
        ascii(unhashed(s)),
    decreases s.len(),
{
    if s.len() > 0 && s[0] == '#' {
        assert forall|i: int| 0 <= i < s.skip(1).len() implies s.skip(1)[i] <= '\u{7f}' by {
            assert(s.skip(1)[i] == s[i + 1]);
        }
        unhashing_keeps_ascii(s.skip(1));
    }
}

/// Every ASCII text can be read as a colour.
pub proof fn ascii_text_is_readable(s: Seq<char>)
    requires
        ascii(s),
    ensures
        readable_color(s),
{
    let h = unhashed(s);
    unhashing_keeps_ascii(s);
    ascii_takes_a_byte_each(h);
    if h.len() == 6 {
        assert(h[0] <= '\u{7f}' && h[1] <= '\u{7f}' && h[2] <= '\u{7f}' && h[3] <= '\u{7f}');
        assert(h.skip(2)[0] == h[2] && h.skip(2)[1] == h[3]);
    }
}

proof fn trimming_and_lowering_commute_at_the_start(s: Seq<char>)
    requires
        ascii(s),
    ensures
        trimmed_start(lowercase(s)) == lowercase(trimmed_start(s)),
        ascii(trimmed_start(s)),
    decreases s.len(),
{
    let low = lowercase(s);
    if s.len() > 0 && white_space(s[0]) {
        let rest = s.skip(1);
        assert forall|i: int| 0 <= i < rest.len() implies rest[i] <= '\u{7f}' by {
            assert(rest[i] == s[i + 1]);
        }
        assert(low.skip(1) =~= lowercase(rest));
        assert(low[0] == ascii_lower(s[0]));
        trimming_and_lowering_commute_at_the_start(rest);
    } else if s.len() > 0 {
        assert(low[0] == ascii_lower(s[0]));
    }
}

proof fn trimming_and_lowering_commute_at_the_end(s: Seq<char>)
    requires
        ascii(s),
    ensures
        trimmed_end(lowercase(s)) == lowercase(trimmed_end(s)),
        ascii(trimmed_end(s)),
    decreases s.len(),
{
    let low = lowercase(s);
    if s.len() > 0 {
        assert(low.last() == ascii_lower(s.last()));
        if white_space(s.last()) {
            let rest = s.drop_last();
            assert(low.drop_last() =~= lowercase(rest));
            trimming_and_lowering_commute_at_the_end(rest);
        }
    }
}

/// Neither case nor white space round it matters in the ASCII text of a colour.
pub proof fn case_and_space_do_not_matter(s: Seq<char>)
    requires
        ascii(s),
    ensures
        color_of(lowercase(trimmed(lowercase(s)))) == color_of(lowercase(trimmed(s))),
        color_of(lowercase(trimmed(trimmed(s)))) == color_of(lowercase(trimmed(s))),
{
    trimming_and_lowering_commute_at_the_start(s);
    trimming_and_lowering_commute_at_the_end(trimmed_start(s));
    lowercase_is_settled(trimmed(s));
    trimmed_has_bare_ends(s);
    trimming_keeps_inner_text(trimmed(s));
}

/// The leader is nowhere darker than its trail, whatever the colour.
pub proof fn leader_outshines_trail(s: Seq<char>)
    ensures
        color_of(s) matches Some((head, trail)) ==> {
            &&& head.0 >= trail.0
            &&& head.1 >= trail.1
            &&& head.2 >= trail.2
        },
{
}

/// The lower-case hexadecimal digit for `v`.
pub open spec fn digit_for(v: u8) -> char
    recommends
        v < 16,
{
    if v < 10 {
        (v + '0' as u8) as char
    } else {
        (v - 10 + 'a' as u8) as char
    }
}

/// The text `#rrggbb` for a colour.
pub open spec fn hash_text(c: Rgb) -> Seq<char> {
    seq![
        '#',
        digit_for(c.0 / 16),
        digit_for(c.0 % 16),
        digit_for(c.1 / 16),
        digit_for(c.1 % 16),
        digit_for(c.2 / 16),
        digit_for(c.2 % 16),
    ]
}

/// Every colour can be written as `#rrggbb`: that text is read back as the trail, with the
/// leader brightened halfway towards white.
pub proof fn hash_text_reads_back(c: Rgb)
    ensures
        color_of(hash_text(c)) == Some(
            ((brightened(c.0), brightened(c.1), brightened(c.2)), c),
        ),
{
    let s = hash_text(c);
    reveal_strlit("green");
    reveal_strlit("amber");
    reveal_strlit("orange");
    reveal_strlit("cyan");
    reveal_strlit("blue");
    reveal_strlit("white");
    reveal_strlit("red");
    reveal_strlit("crimson");
    reveal_strlit("purple");
    reveal_strlit("magenta");
    assert(s[0] == '#');
    assert(preset_color(s) is None);
    let h = s.skip(1);
    assert(h[0] == s[1]);
    reveal_with_fuel(unhashed, 2);
    assert(unhashed(s) == h);
    byte_digits_read_back(c.0);
    byte_digits_read_back(c.1);
    byte_digits_read_back(c.2);
    assert(hex_pair(h[0], h[1]) == Some(c.0));
    assert(hex_pair(h[2], h[3]) == Some(c.1));
    assert(hex_pair(h[4], h[5]) == Some(c.2));
}

proof fn byte_digits_read_back(v: u8)
    ensures
        hex_pair(digit_for(v / 16), digit_for(v % 16)) == Some(v),
        digit_for(v / 16) != '#',
{
    assert(16 * (v / 16) + v % 16 == v);
}

} // verus!
