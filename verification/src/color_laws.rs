//! What every colour text stands for.
use vstd::prelude::*;

use crate::charset::charset_of;
use crate::color::{
    byte_len, color_of, color_text, hex_color, pairs_are_whole, preset_color, readable_color,
    unhashed, utf8_len,
};
use crate::text::{ascii, lowercase, trimmed};

verus! {

/// The value of a hexadecimal digit of either case; past fifteen if it is none.
pub open spec fn digit_value(c: char) -> int {
    if 48 <= c as int <= 57 {
        c as int - 48
    } else if 97 <= c as int <= 102 {
        c as int - 87
    } else if 65 <= c as int <= 70 {
        c as int - 55
    } else {
        16
    }
}

/// Whether a text is six hexadecimal digits.
pub open spec fn six_digits(u: Seq<char>) -> bool {
    u.len() == 6 && forall|i: int| 0 <= i < 6 ==> digit_value(#[trigger] u[i]) < 16
}

/// Any number of `#` signs.
pub open spec fn hashes(n: nat) -> Seq<char> {
    Seq::new(n, |i: int| '#')
}

/// The names of colours.
pub open spec fn is_name(s: Seq<char>) -> bool {
    ||| s == "green"@
    ||| s == "amber"@
    ||| s == "orange"@
    ||| s == "cyan"@
    ||| s == "blue"@
    ||| s == "white"@
    ||| s == "red"@
    ||| s == "crimson"@
    ||| s == "purple"@
    ||| s == "magenta"@
}

proof fn hashes_are_dropped(n: nat, u: Seq<char>)
    requires
        u.len() > 0 ==> u[0] != '#',
    ensures
        unhashed(hashes(n) + u) == u,
    decreases n,
{
    let s = hashes(n) + u;
    if n > 0 {
        assert(s[0] == '#');
        assert(s.skip(1) =~= hashes((n - 1) as nat) + u);
        hashes_are_dropped((n - 1) as nat, u);
    } else {
        assert(s =~= u);
    }
}

proof fn names_are_words(s: Seq<char>)
    requires
        is_name(s),
    ensures
        s.len() > 0,
        s[0] != '#',
        !six_digits(s),
{
    reveal_strlit("green");
    reveal_strlit("amber");
    reveal_strlit("orange");
    reveal_strlit("cyan");
    reveal_strlit("blue");
    reveal_strlit("white");
    reveal_strlit("red");
    reveal_strlit("crimson");
    reveal_strlit("purple");
    reveal_strlit("magenta");
    if s.len() == 6 {
        assert(s == "orange"@ || s == "purple"@);
        assert(digit_value(s[1]) == 16);
    }
}

/// Six hexadecimal digits of either case, after any number of `#` signs, are the trail in three
/// bytes, and the leader is halfway from there to white, rounded down.
pub proof fn six_digits_are_the_trail(n: nat, u: Seq<char>)
    requires
        six_digits(u),
    ensures
        color_of(hashes(n) + u) matches Some((head, trail)) && {
            &&& trail.0 == 16 * digit_value(u[0]) + digit_value(u[1])
            &&& trail.1 == 16 * digit_value(u[2]) + digit_value(u[3])
            &&& trail.2 == 16 * digit_value(u[4]) + digit_value(u[5])
            &&& 2 * head.0 <= trail.0 + 255 < 2 * head.0 + 2
            &&& 2 * head.1 <= trail.1 + 255 < 2 * head.1 + 2
            &&& 2 * head.2 <= trail.2 + 255 < 2 * head.2 + 2
        },
{
    let s = hashes(n) + u;
    assert(digit_value(u[0]) < 16 && digit_value(u[1]) < 16 && digit_value(u[2]) < 16);
    assert(digit_value(u[3]) < 16 && digit_value(u[4]) < 16 && digit_value(u[5]) < 16);
    hashes_are_dropped(n, u);
    if is_name(s) {
        names_are_words(s);
        if n > 0 {
            assert(s[0] == '#');
        } else {
            assert(s =~= u);
        }
    }
    assert(preset_color(s) is None);
    assert(hex_color(u) is Some);
}

/// What is neither a name nor six hexadecimal digits after `#` signs is no colour.
pub proof fn other_texts_are_no_colours(n: nat, u: Seq<char>)
    requires
        u.len() > 0 ==> u[0] != '#',
        !six_digits(u),
        n > 0 || !is_name(u),
    ensures
        color_of(hashes(n) + u) is None,
{
    let s = hashes(n) + u;
    hashes_are_dropped(n, u);
    if n > 0 {
        assert(s[0] == '#');
        if is_name(s) {
            names_are_words(s);
        }
    } else {
        assert(s =~= u);
    }
    assert(preset_color(s) is None);
    if u.len() == 6 {
        let i = choose|i: int| 0 <= i < 6 && !(digit_value(#[trigger] u[i]) < 16);
        assert(i == 0 || i == 1 || i == 2 || i == 3 || i == 4 || i == 5);
        assert(hex_color(u) is None);
    }
}

/// The colours that the names stand for, leader and trail.
pub proof fn names_stand_for_colours()
    ensures
        color_of("green"@) == Some(((220u8, 255u8, 220u8), (0u8, 255u8, 40u8))),
        color_of("amber"@) == Some(((255u8, 240u8, 200u8), (255u8, 176u8, 0u8))),
        color_of("orange"@) == color_of("amber"@),
        color_of("cyan"@) == Some(((210u8, 255u8, 255u8), (0u8, 255u8, 210u8))),
        color_of("blue"@) == color_of("cyan"@),
        color_of("white"@) == Some(((255u8, 255u8, 255u8), (170u8, 170u8, 170u8))),
        color_of("red"@) == Some(((255u8, 210u8, 210u8), (255u8, 40u8, 40u8))),
        color_of("crimson"@) == color_of("red"@),
        color_of("purple"@) == Some(((245u8, 210u8, 255u8), (200u8, 0u8, 255u8))),
        color_of("magenta"@) == color_of("purple"@),
{
    reveal_strlit("green");
    reveal_strlit("amber");
    reveal_strlit("orange");
    reveal_strlit("cyan");
    reveal_strlit("blue");
    reveal_strlit("white");
    reveal_strlit("red");
    reveal_strlit("crimson");
    reveal_strlit("purple");
    reveal_strlit("magenta");
    assert("green"@[0] == 'g' && "amber"@[0] == 'a' && "white"@[0] == 'w' && "red"@[0] == 'r');
    assert("orange"@[0] == 'o' && "purple"@[0] == 'p' && "cyan"@[0] == 'c' && "blue"@[0] == 'b');
    assert("crimson"@[0] == 'c' && "magenta"@[0] == 'm');
    assert("cyan"@.len() == 4 && "crimson"@.len() == 7);
}

/// How many bytes a text takes: one for a character below 128, two below 2048, three below 65536
/// and four for the others.
pub proof fn characters_take_one_to_four_bytes(s: Seq<char>, c: char)
    ensures
        byte_len(Seq::empty()) == 0,
        byte_len(s.push(c)) == byte_len(s) + if (c as int) < 128 {
            1int
        } else if (c as int) < 2048 {
            2
        } else if (c as int) < 65536 {
            3
        } else {
            4
        },
    decreases s.len(),
{
    let t = s.push(c);
    if s.len() > 0 {
        characters_take_one_to_four_bytes(s.skip(1), c);
        assert(t.skip(1) =~= s.skip(1).push(c));
        assert(t[0] == s[0]);
    } else {
        assert(t.skip(1) =~= Seq::<char>::empty());
        assert(t[0] == c);
        reveal_with_fuel(byte_len, 2);
    }
}

/// Whether a text can be cut after `n` bytes without cutting a character in two.
pub open spec fn can_be_cut(s: Seq<char>, n: int) -> bool {
    exists|i: int| 0 <= i <= s.len() && byte_len(#[trigger] s.take(i)) == n
}

proof fn bytes_of_a_start(s: Seq<char>)
    ensures
        byte_len(s.take(0)) == 0,
        s.len() > 0 ==> byte_len(s.take(1)) == utf8_len(s[0]),
        s.len() > 1 ==> byte_len(s.take(2)) == utf8_len(s[0]) + utf8_len(s[1]),
        forall|i: int| 2 <= i <= s.len() ==> byte_len(#[trigger] s.take(i)) >= i,
        forall|i: int|
            2 < i <= s.len() ==> byte_len(#[trigger] s.take(i)) == utf8_len(s[0]) + utf8_len(s[1])
                + byte_len(s.skip(2).take(i - 2)),
{
    assert(s.take(0) =~= Seq::<char>::empty());
    if s.len() > 0 {
        assert(s.take(1).skip(1) =~= Seq::<char>::empty());
        assert(s.take(1)[0] == s[0]);
        reveal_with_fuel(byte_len, 3);
    }
    if s.len() > 1 {
        assert(s.take(2).skip(1).skip(1) =~= Seq::<char>::empty());
        assert(s.take(2).skip(1)[0] == s[1]);
    }
    assert forall|i: int| 2 <= i <= s.len() implies byte_len(#[trigger] s.take(i)) >= i by {
        bytes_are_no_fewer(s.take(i));
    }
    assert forall|i: int| 2 < i <= s.len() implies byte_len(#[trigger] s.take(i)) == utf8_len(s[0])
        + utf8_len(s[1]) + byte_len(s.skip(2).take(i - 2)) by {
        assert(s.take(i).skip(1).skip(1) =~= s.skip(2).take(i - 2));
        assert(s.take(i)[0] == s[0]);
        assert(s.take(i).skip(1)[0] == s[1]);
        reveal_with_fuel(byte_len, 3);
    }
}

proof fn bytes_are_no_fewer(s: Seq<char>)
    ensures
        byte_len(s) >= s.len(),
    decreases s.len(),
{
    if s.len() > 0 {
        bytes_are_no_fewer(s.skip(1));
    }
}

proof fn first_cut(s: Seq<char>)
    requires
        s.len() > 0,
    ensures
        can_be_cut(s, 2) <==> utf8_len(s[0]) == 2 || (utf8_len(s[0]) == 1 && s.len() > 1
            && utf8_len(s[1]) == 1),
{
    bytes_of_a_start(s);
    if utf8_len(s[0]) == 2 {
        assert(byte_len(s.take(1)) == 2);
    } else if utf8_len(s[0]) == 1 && s.len() > 1 && utf8_len(s[1]) == 1 {
        assert(byte_len(s.take(2)) == 2);
    } else if can_be_cut(s, 2) {
        let i = choose|i: int| 0 <= i <= s.len() && byte_len(#[trigger] s.take(i)) == 2;
        assert(i == 0 || i == 1 || i == 2 || i > 2);
    }
}

proof fn second_cut(s: Seq<char>)
    requires
        s.len() > 2,
        utf8_len(s[0]) == 1,
        utf8_len(s[1]) == 1,
    ensures
        can_be_cut(s, 4) <==> can_be_cut(s.skip(2), 2),
{
    bytes_of_a_start(s);
    let t = s.skip(2);
    if can_be_cut(t, 2) {
        let j = choose|j: int| 0 <= j <= t.len() && byte_len(#[trigger] t.take(j)) == 2;
        assert(t.take(0) =~= Seq::<char>::empty());
        assert(j > 0);
        assert(byte_len(s.take(j + 2)) == 2 + byte_len(t.take(j)));
    }
    if can_be_cut(s, 4) {
        let i = choose|i: int| 0 <= i <= s.len() && byte_len(#[trigger] s.take(i)) == 4;
        assert(i > 2);
        assert(byte_len(t.take(i - 2)) == 2);
    }
}

/// Which texts cannot be read: those of six bytes after their `#` signs, names aside, that cannot be
/// cut after two bytes, or start with two hexadecimal digits and cannot be cut after four.
pub proof fn unreadable_texts_would_be_cut(n: nat, u: Seq<char>)
    requires
        u.len() > 0 ==> u[0] != '#',
        n > 0 || !is_name(u),
    ensures
        readable_color(hashes(n) + u) <==> (byte_len(u) == 6 ==> can_be_cut(u, 2) && (u.len() > 1
            && digit_value(u[0]) < 16 && digit_value(u[1]) < 16 ==> can_be_cut(u, 4))),
{
    let s = hashes(n) + u;
    hashes_are_dropped(n, u);
    if n > 0 {
        assert(s[0] == '#');
        if is_name(s) {
            names_are_words(s);
        }
    } else {
        assert(s =~= u);
    }
    assert(preset_color(s) is None);
    if byte_len(u) == 6 {
        assert(u.len() > 0);
        first_cut(u);
        if u.len() > 1 && digit_value(u[0]) < 16 && digit_value(u[1]) < 16 {
            assert(utf8_len(u[0]) == 1 && utf8_len(u[1]) == 1);
            bytes_of_a_start(u);
            if u.len() == 2 {
                assert(u.take(2) =~= u);
            }
            assert(u.len() > 2);
            second_cut(u);
            first_cut(u.skip(2));
        }
    }
    assert(readable_color(s) == pairs_are_whole(u));
}

/// A name can be read, and so can every text in ASCII; any other setting is read in lower case and
/// without white space round it.
pub proof fn names_and_ascii_are_readable(s: Seq<char>)
    ensures
        is_name(s) ==> readable_color(s),
        ascii(trimmed(s)) ==> color_text(s),
        !ascii(trimmed(s)) ==> (color_text(s) <==> readable_color(lowercase(trimmed(s)))),
{
}

/// A preset of characters is had by its name, whatever the text is that has it as its lower case.
/// Every other text asks for its own characters, and an empty one for the default.
pub proof fn characters_come_from_names_or_texts(lowered: Seq<char>, s: Seq<char>, i: int)
    ensures
        lowered == "binary"@ ==> charset_of(lowered, s) == seq!['0', '1'],
        lowered == "digits"@ ==> {
            &&& charset_of(lowered, s).len() == 10
            &&& 0 <= i < 10 ==> charset_of(lowered, s)[i] as int == 48 + i
        },
        lowered == "katakana"@ ==> {
            &&& charset_of(lowered, s).len() == 56
            &&& 0 <= i < 56 ==> charset_of(lowered, s)[i] as int == 0xff66 + i
        },
        lowered == "alnum"@ ==> {
            &&& charset_of(lowered, s).len() == 62
            &&& 0 <= i < 26 ==> charset_of(lowered, s)[i] as int == 65 + i
            &&& 26 <= i < 52 ==> charset_of(lowered, s)[i] as int == 97 + i - 26
            &&& 52 <= i < 62 ==> charset_of(lowered, s)[i] as int == 48 + i - 52
        },
        lowered == "ascii"@ ==> {
            &&& charset_of(lowered, s).len() == 77
            &&& charset_of(lowered, s).take(62) == charset_of("alnum"@, s)
            &&& charset_of(lowered, s).skip(62) == "@#$%&*+-/<>=?!:"@
        },
        lowered.len() == 0 && s.len() == 0 ==> charset_of(lowered, s) == charset_of("ascii"@, s),
        !(lowered == "binary"@ || lowered == "digits"@ || lowered == "katakana"@ || lowered
            == "alnum"@ || lowered == "ascii"@) && s.len() > 0 ==> charset_of(lowered, s) == s,
{
    reveal_strlit("ascii");
    reveal_strlit("alnum");
    reveal_strlit("binary");
    reveal_strlit("digits");
    reveal_strlit("katakana");
    reveal_strlit("01");
    reveal_strlit("0123456789");
    reveal_strlit("ABCDEFGHIJKLMNOPQRSTUVWXYZabcdefghijklmnopqrstuvwxyz0123456789");
    reveal_strlit(
        "ABCDEFGHIJKLMNOPQRSTUVWXYZabcdefghijklmnopqrstuvwxyz0123456789@#$%&*+-/<>=?!:",
    );
    reveal_strlit("@#$%&*+-/<>=?!:");
    assert("ascii"@[1] == 's' && "alnum"@[1] == 'l' && "ascii"@.len() == 5 && "alnum"@.len() == 5);
    assert("binary"@.len() == 6 && "digits"@.len() == 6 && "katakana"@.len() == 8);
    assert("binary"@[0] == 'b' && "digits"@[0] == 'd');
    assert("01"@ =~= seq!['0', '1']);
    assert(charset_of("ascii"@, s).take(62) =~= charset_of("alnum"@, s));
    assert(charset_of("ascii"@, s).skip(62) =~= "@#$%&*+-/<>=?!:"@);
}

} // verus!
