//! What holds of every text that is trimmed, split or put in lower case, and of every line.
use vstd::prelude::*;

use crate::config::{setting_on, settings_of, settings_on, value_of};
use crate::text::{
    after, ascii, before, caseless, find, first_is_what_find_finds, lowercase, trimmed,
    trimmed_end, trimmed_start, white_space,
};

verus! {

/// The characters that are white space.
pub proof fn white_space_is_unicode_white_space(c: char)
    ensures
        white_space(c) <==> (9 <= c as int <= 13 || c as int == 32 || c as int == 0x85 || c as int
            == 0xa0 || c as int == 0x1680 || 0x2000 <= c as int <= 0x200a || 0x2028 <= c as int
            <= 0x2029 || c as int == 0x202f || c as int == 0x205f || c as int == 0x3000),
{
}

/// Whether a text is all white space.
pub open spec fn blank(s: Seq<char>) -> bool {
    forall|i: int| 0 <= i < s.len() ==> white_space(#[trigger] s[i])
}

/// Whether a text has no white space at its ends.
pub open spec fn bare(s: Seq<char>) -> bool {
    s.len() > 0 ==> !white_space(s[0]) && !white_space(s.last())
}

/// Whether a text does not hold a character.
pub open spec fn lacks(s: Seq<char>, c: char) -> bool {
    forall|i: int| 0 <= i < s.len() ==> #[trigger] s[i] != c
}

proof fn blanks_are_trimmed_at_the_start(a: Seq<char>, t: Seq<char>)
    requires
        blank(a),
        t.len() > 0 ==> !white_space(t[0]),
    ensures
        trimmed_start(a + t) == t,
    decreases a.len(),
{
    let s = a + t;
    if a.len() > 0 {
        assert(s[0] == a[0]);
        assert(s.skip(1) =~= a.skip(1) + t);
        assert forall|i: int| 0 <= i < a.skip(1).len() implies white_space(
            #[trigger] a.skip(1)[i],
        ) by {
            assert(a.skip(1)[i] == a[i + 1]);
        }
        blanks_are_trimmed_at_the_start(a.skip(1), t);
    } else {
        assert(s =~= t);
    }
}

proof fn blanks_are_trimmed_at_the_end(t: Seq<char>, b: Seq<char>)
    requires
        blank(b),
        t.len() > 0 ==> !white_space(t.last()),
    ensures
        trimmed_end(t + b) == t,
    decreases b.len(),
{
    let s = t + b;
    if b.len() > 0 {
        assert(s.last() == b[b.len() - 1]);
        assert(s.drop_last() =~= t + b.drop_last());
        blanks_are_trimmed_at_the_end(t, b.drop_last());
    } else {
        assert(s =~= t);
    }
}

/// White space at the ends of a text is cut off, and nothing else.
pub proof fn white_space_round_a_text_is_cut_off(a: Seq<char>, t: Seq<char>, b: Seq<char>)
    requires
        blank(a),
        blank(b),
        bare(t),
    ensures
        trimmed(a + t + b) == t,
{
    if t.len() > 0 {
        assert((t + b)[0] == t[0]);
        assert(a + t + b =~= a + (t + b));
        blanks_are_trimmed_at_the_start(a, t + b);
        blanks_are_trimmed_at_the_end(t, b);
    } else {
        let ab = a + b;
        assert forall|i: int| 0 <= i < ab.len() implies white_space(#[trigger] ab[i]) by {
            if i < a.len() {
                assert(ab[i] == a[i]);
            } else {
                assert(ab[i] == b[i - a.len()]);
            }
        }
        assert(a + t + b =~= ab + t);
        blanks_are_trimmed_at_the_start(ab, t);
    }
}

/// A text is split where a character first stands, and is all before it where it does not.
pub proof fn texts_are_split_at_the_first(t: Seq<char>, c: char, u: Seq<char>)
    requires
        lacks(t, c),
    ensures
        before(t + seq![c] + u, c) == t,
        after(t + seq![c] + u, c) == u,
        find(t + seq![c] + u, c) == t.len(),
        before(t, c) == t,
        find(t, c) == t.len(),
{
    let s = t + seq![c] + u;
    assert forall|j: int| 0 <= j < t.len() implies s[j] != c by {
        assert(s[j] == t[j]);
    }
    assert(s[t.len() as int] == c);
    first_is_what_find_finds(s, c, t.len());
    first_is_what_find_finds(t, c, t.len());
    assert(s.take(t.len() as int) =~= t);
    assert(s.skip(t.len() as int + 1) =~= u);
    assert(t.take(t.len() as int) =~= t);
}

/// In ASCII text the letters `A` to `Z` are put in lower case one by one, and every other character
/// stays. Text in half-width katakana stays.
pub proof fn letters_are_lowered_one_by_one(s: Seq<char>, i: int)
    requires
        0 <= i < s.len(),
    ensures
        (forall|j: int| 0 <= j < s.len() ==> #[trigger] s[j] as int <= 127) ==> {
            &&& lowercase(s).len() == s.len()
            &&& lowercase(s)[i] as int == if 65 <= s[i] as int <= 90 {
                s[i] as int + 32
            } else {
                s[i] as int
            }
        },
        (forall|j: int| 0 <= j < s.len() ==> 0xff66 <= #[trigger] s[j] as int <= 0xff9d)
            ==> lowercase(s) == s,
{
    if forall|j: int| 0 <= j < s.len() ==> #[trigger] s[j] as int <= 127 {
        assert(ascii(s));
    }
    if forall|j: int| 0 <= j < s.len() ==> 0xff66 <= #[trigger] s[j] as int <= 0xff9d {
        assert(s[0] > '\u{7f}');
        assert(caseless(s));
    }
}

/// A line of a file: a key and a value with a `=` between them, and white space round each.
pub open spec fn line_of(
    p: Seq<char>,
    k: Seq<char>,
    q: Seq<char>,
    r: Seq<char>,
    w: Seq<char>,
    t: Seq<char>,
) -> Seq<char> {
    p + k + q + seq!['='] + r + w + t
}

/// Whether a text can stand before the `=`: it does not start like a comment or a section header.
pub open spec fn key_like(k: Seq<char>) -> bool {
    &&& bare(k)
    &&& lacks(k, '=')
    &&& k.len() > 0 ==> k[0] != '#' && k[0] != '['
}

proof fn blanks_join(a: Seq<char>, b: Seq<char>)
    requires
        blank(a),
        blank(b),
    ensures
        blank(a + b),
        lacks(a, '='),
        lacks(a + b, '='),
{
    assert forall|i: int| 0 <= i < (a + b).len() implies white_space(#[trigger] (a + b)[i]) by {
        if i < a.len() {
            assert((a + b)[i] == a[i]);
        } else {
            assert((a + b)[i] == b[i - a.len()]);
        }
    }
    assert forall|i: int| 0 <= i < (a + b).len() implies #[trigger] (a + b)[i] != '=' by {
        assert(white_space((a + b)[i]));
    }
    assert forall|i: int| 0 <= i < a.len() implies #[trigger] a[i] != '=' by {
        assert(white_space(a[i]));
    }
}

proof fn keys_and_values_come_apart(
    p: Seq<char>,
    k: Seq<char>,
    q: Seq<char>,
    r: Seq<char>,
    w: Seq<char>,
    t: Seq<char>,
)
    requires
        blank(p),
        blank(q),
        blank(r),
        blank(t),
        key_like(k),
        bare(w),
    ensures
        setting_on(line_of(p, k, q, r, w, t)) == Some((k, value_of(w))),
{
    let line = line_of(p, k, q, r, w, t);
    let none = Seq::<char>::empty();
    // What comes before the text of the line, what of it comes before the `=` and what after it, and
    // what comes after the text.
    let (start, left) = if k.len() > 0 {
        (p, k + q)
    } else {
        (p + q, none)
    };
    let (right, end) = if w.len() > 0 {
        (r + w, t)
    } else {
        (none, r + t)
    };
    blanks_join(p, q);
    blanks_join(r, t);
    blanks_join(q, q);
    let text = left + seq!['='] + right;
    assert(line =~= start + text + end);
    assert(text.len() > 0);
    assert(text[0] == if k.len() > 0 {
        k[0]
    } else {
        '='
    });
    assert(text.last() == if w.len() > 0 {
        w.last()
    } else {
        '='
    });
    white_space_round_a_text_is_cut_off(start, text, end);
    assert forall|i: int| 0 <= i < left.len() implies #[trigger] left[i] != '=' by {
        if i < k.len() {
            assert(left[i] == k[i]);
        } else {
            assert(left[i] == q[i - k.len()]);
        }
    }
    texts_are_split_at_the_first(left, '=', right);
    if k.len() > 0 {
        assert(left =~= none + k + q);
        white_space_round_a_text_is_cut_off(none, k, q);
    } else {
        assert(k =~= none);
        assert(trimmed(none) =~= none);
    }
    if w.len() > 0 {
        assert(right =~= r + w + none);
        white_space_round_a_text_is_cut_off(r, w, none);
    } else {
        assert(w =~= none);
        assert(trimmed(none) =~= none);
    }
}

proof fn one_line_is_a_file(line: Seq<char>)
    requires
        lacks(line, '\n'),
    ensures
        settings_of(line) == settings_on(line),
{
    first_is_what_find_finds(line, '\n', line.len());
}

/// A line `key = value` is that setting, whatever white space stands round the key and the value,
/// even where the value is empty.
pub proof fn bare_lines_are_settings(
    p: Seq<char>,
    k: Seq<char>,
    q: Seq<char>,
    r: Seq<char>,
    v: Seq<char>,
    t: Seq<char>,
)
    requires
        blank(p),
        blank(q),
        blank(r),
        blank(t),
        key_like(k),
        bare(v),
        lacks(v, '#'),
        v.len() > 0 ==> v[0] != '"',
        lacks(line_of(p, k, q, r, v, t), '\n'),
    ensures
        settings_of(line_of(p, k, q, r, v, t)) == seq![(k, v)],
{
    keys_and_values_come_apart(p, k, q, r, v, t);
    one_line_is_a_file(line_of(p, k, q, r, v, t));
    texts_are_split_at_the_first(v, '#', v);
    let none = Seq::<char>::empty();
    assert(v =~= none + v + none);
    white_space_round_a_text_is_cut_off(none, v, none);
}

/// A `#` after a bare value and all that follows it are left out.
pub proof fn comments_after_values_are_left_out(
    p: Seq<char>,
    k: Seq<char>,
    q: Seq<char>,
    r: Seq<char>,
    v: Seq<char>,
    s: Seq<char>,
    comment: Seq<char>,
    t: Seq<char>,
)
    requires
        blank(p),
        blank(q),
        blank(r),
        blank(s),
        blank(t),
        key_like(k),
        bare(v),
        lacks(v, '#'),
        v.len() > 0 ==> v[0] != '"',
        v.len() == 0 ==> s.len() == 0,
        comment.len() > 0 ==> !white_space(comment.last()),
        lacks(line_of(p, k, q, r, v + s + seq!['#'] + comment, t), '\n'),
    ensures
        settings_of(line_of(p, k, q, r, v + s + seq!['#'] + comment, t)) == seq![(k, v)],
{
    let w = v + s + seq!['#'] + comment;
    let none = Seq::<char>::empty();
    assert(w[0] == if v.len() > 0 {
        v[0]
    } else {
        '#'
    });
    assert(w.last() == if comment.len() > 0 {
        comment.last()
    } else {
        '#'
    });
    keys_and_values_come_apart(p, k, q, r, w, t);
    one_line_is_a_file(line_of(p, k, q, r, w, t));
    assert forall|i: int| 0 <= i < (v + s).len() implies #[trigger] (v + s)[i] != '#' by {
        if i < v.len() {
            assert((v + s)[i] == v[i]);
        } else {
            assert((v + s)[i] == s[i - v.len()]);
            assert(white_space(s[i - v.len()]));
        }
    }
    texts_are_split_at_the_first(v + s, '#', comment);
    assert(v + s =~= none + v + s);
    white_space_round_a_text_is_cut_off(none, v, s);
}

/// A value in quotes is what stands between them, white space, `#` and `=` included; what follows
/// the closing quote is left out. Where there is no closing quote, it is all that follows the first,
/// but for white space at the end of the line.
pub proof fn quoted_values_are_what_the_quotes_hold(
    p: Seq<char>,
    k: Seq<char>,
    q: Seq<char>,
    r: Seq<char>,
    v: Seq<char>,
    rest: Seq<char>,
    t: Seq<char>,
)
    requires
        blank(p),
        blank(q),
        blank(r),
        blank(t),
        key_like(k),
        lacks(v, '"'),
    ensures
        (rest.len() > 0 ==> !white_space(rest.last())) && lacks(
            line_of(p, k, q, r, seq!['"'] + v + seq!['"'] + rest, t),
            '\n',
        ) ==> settings_of(line_of(p, k, q, r, seq!['"'] + v + seq!['"'] + rest, t)) == seq![(k, v)],
        (v.len() > 0 ==> !white_space(v.last())) && lacks(
            line_of(p, k, q, r, seq!['"'] + v, t),
            '\n',
        ) ==> settings_of(line_of(p, k, q, r, seq!['"'] + v, t)) == seq![(k, v)],
{
    texts_are_split_at_the_first(v, '"', rest);
    let closed = seq!['"'] + v + seq!['"'] + rest;
    let unclosed = seq!['"'] + v;
    assert(closed.skip(1) =~= v + seq!['"'] + rest);
    assert(unclosed.skip(1) =~= v);
    assert(closed[0] == '"' && unclosed[0] == '"');
    if (rest.len() > 0 ==> !white_space(rest.last())) && lacks(
        line_of(p, k, q, r, closed, t),
        '\n',
    ) {
        assert(closed.last() == if rest.len() > 0 {
            rest.last()
        } else {
            '"'
        });
        keys_and_values_come_apart(p, k, q, r, closed, t);
        one_line_is_a_file(line_of(p, k, q, r, closed, t));
    }
    if (v.len() > 0 ==> !white_space(v.last())) && lacks(line_of(p, k, q, r, unclosed, t), '\n') {
        assert(unclosed.last() == if v.len() > 0 {
            v.last()
        } else {
            '"'
        });
        keys_and_values_come_apart(p, k, q, r, unclosed, t);
        one_line_is_a_file(line_of(p, k, q, r, unclosed, t));
    }
}

/// A blank line holds no setting, nor one that starts with `#` or `[` after white space, nor one
/// without `=`.
pub proof fn other_lines_hold_nothing(p: Seq<char>, rest: Seq<char>)
    requires
        blank(p),
        lacks(p, '\n'),
        lacks(rest, '\n'),
    ensures
        settings_of(p).len() == 0,
        settings_of(p + seq!['#'] + rest).len() == 0,
        settings_of(p + seq!['['] + rest).len() == 0,
        lacks(rest, '=') ==> settings_of(rest).len() == 0,
{
    let none = Seq::<char>::empty();
    assert(p =~= p + none + none);
    white_space_round_a_text_is_cut_off(p, none, none);
    one_line_is_a_file(p);
    starts_are_kept(p, '#', rest);
    starts_are_kept(p, '[', rest);
    one_line_is_a_file(p + seq!['#'] + rest);
    one_line_is_a_file(p + seq!['['] + rest);
    one_line_is_a_file(rest);
    if lacks(rest, '=') {
        trimming_adds_nothing(rest, '=');
        first_is_what_find_finds(trimmed(rest), '=', trimmed(rest).len());
    }
}

proof fn starts_are_kept(p: Seq<char>, c: char, rest: Seq<char>)
    requires
        blank(p),
        !white_space(c),
        c != '\n',
        lacks(p, '\n'),
        lacks(rest, '\n'),
    ensures
        trimmed(p + seq![c] + rest).len() > 0,
        trimmed(p + seq![c] + rest)[0] == c,
        lacks(p + seq![c] + rest, '\n'),
{
    let s = p + seq![c] + rest;
    let u = seq![c] + rest;
    assert(s =~= p + u);
    blanks_are_trimmed_at_the_start(p, u);
    ends_keep_the_start(u);
    assert forall|i: int| 0 <= i < s.len() implies #[trigger] s[i] != '\n' by {
        if i < p.len() {
            assert(s[i] == p[i]);
        } else if i > p.len() {
            assert(s[i] == rest[i - p.len() - 1]);
        }
    }
}

proof fn ends_keep_the_start(u: Seq<char>)
    requires
        u.len() > 0,
        !white_space(u[0]),
    ensures
        trimmed_end(u).len() > 0,
        trimmed_end(u)[0] == u[0],
    decreases u.len(),
{
    if white_space(u.last()) {
        assert(u.len() > 1);
        ends_keep_the_start(u.drop_last());
    }
}

proof fn trimming_adds_nothing(s: Seq<char>, c: char)
    requires
        lacks(s, c),
    ensures
        lacks(trimmed_start(s), c),
        lacks(trimmed_end(s), c),
        lacks(trimmed(s), c),
{
    starts_add_nothing(s, c);
    ends_add_nothing(s, c);
    ends_add_nothing(trimmed_start(s), c);
}

proof fn starts_add_nothing(s: Seq<char>, c: char)
    requires
        lacks(s, c),
    ensures
        lacks(trimmed_start(s), c),
    decreases s.len(),
{
    if s.len() > 0 && white_space(s[0]) {
        assert forall|i: int| 0 <= i < s.skip(1).len() implies #[trigger] s.skip(1)[i] != c by {
            assert(s.skip(1)[i] == s[i + 1]);
        }
        starts_add_nothing(s.skip(1), c);
    }
}

proof fn ends_add_nothing(s: Seq<char>, c: char)
    requires
        lacks(s, c),
    ensures
        lacks(trimmed_end(s), c),
    decreases s.len(),
{
    if s.len() > 0 && white_space(s.last()) {
        assert forall|i: int| 0 <= i < s.drop_last().len() implies #[trigger] s.drop_last()[i]
            != c by {
            assert(s.drop_last()[i] == s[i]);
        }
        ends_add_nothing(s.drop_last(), c);
    }
}

} // verus!
