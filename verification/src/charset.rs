//! The characters that rain.
use vstd::prelude::*;

use crate::text::{ascii, caseless, lowercase};
use crate::text::same_text;

verus! {

/// The characters that rain when nothing else is asked for.
pub const DEFAULT_CHARSET: &'static str =
    "ABCDEFGHIJKLMNOPQRSTUVWXYZabcdefghijklmnopqrstuvwxyz0123456789@#$%&*+-/<>=?!:";

/// The half-width katakana, from WO to N.
pub open spec fn katakana() -> Seq<char> {
    Seq::new(56, |i: int| (0xff66 + i) as char)
}

/// The characters for a setting `s` whose lower-case form is `lowered`: a preset of that name,
/// else `s` itself, else the default.
pub open spec fn charset_of(lowered: Seq<char>, s: Seq<char>) -> Seq<char> {
    if lowered == "ascii"@ {
        DEFAULT_CHARSET@
    } else if lowered == "alnum"@ {
        "ABCDEFGHIJKLMNOPQRSTUVWXYZabcdefghijklmnopqrstuvwxyz0123456789"@
    } else if lowered == "binary"@ {
        "01"@
    } else if lowered == "digits"@ {
        "0123456789"@
    } else if lowered == "katakana"@ {
        katakana()
    } else if s.len() == 0 {
        DEFAULT_CHARSET@
    } else {
        s
    }
}

/// The characters for a setting `s` whose lower-case form is `lowered`.
pub fn charset_from_lowercase(lowered: &str, s: &str) -> (r: String)
    ensures
        r@ == charset_of(lowered@, s@),
{
    if same_text(lowered, "ascii") {
        DEFAULT_CHARSET.to_owned()
    } else if same_text(lowered, "alnum") {
        "ABCDEFGHIJKLMNOPQRSTUVWXYZabcdefghijklmnopqrstuvwxyz0123456789".to_owned()
    } else if same_text(lowered, "binary") {
        "01".to_owned()
    } else if same_text(lowered, "digits") {
        "0123456789".to_owned()
    } else if same_text(lowered, "katakana") {
        proof {
            reveal_strlit("ｦｧｨｩｪｫｬｭｮｯｰｱｲｳｴｵｶｷｸｹｺｻｼｽｾｿﾀﾁﾂﾃﾄﾅﾆﾇﾈﾉﾊﾋﾌﾍﾎﾏﾐﾑﾒﾓﾔﾕﾖﾗﾘﾙﾚﾛﾜﾝ");
        }
        assert("ｦｧｨｩｪｫｬｭｮｯｰｱｲｳｴｵｶｷｸｹｺｻｼｽｾｿﾀﾁﾂﾃﾄﾅﾆﾇﾈﾉﾊﾋﾌﾍﾎﾏﾐﾑﾒﾓﾔﾕﾖﾗﾘﾙﾚﾛﾜﾝ"@ == katakana());
        "ｦｧｨｩｪｫｬｭｮｯｰｱｲｳｴｵｶｷｸｹｺｻｼｽｾｿﾀﾁﾂﾃﾄﾅﾆﾇﾈﾉﾊﾋﾌﾍﾎﾏﾐﾑﾒﾓﾔﾕﾖﾗﾘﾙﾚﾛﾜﾝ".to_owned()
    } else if s.is_empty() {
        DEFAULT_CHARSET.to_owned()
    } else {
        s.to_owned()
    }
}

/// The characters that the setting `s` asks for: a preset name in any case, or the characters
/// themselves. They are never none: an empty setting asks for the default.
pub fn resolve_charset(s: &str) -> (r: String)
    ensures
        r@ == charset_of(lowercase(s@), s@),
        r@.len() > 0,
{
    let lowered = s.to_lowercase();
    proof {
        charset_is_never_empty(lowered@, s@);
    }
    charset_from_lowercase(lowered.as_str(), s)
}

/// There is always something to rain.
pub proof fn charset_is_never_empty(lowered: Seq<char>, s: Seq<char>)
    ensures
        charset_of(lowered, s).len() > 0,
{
    reveal_strlit(
        "ABCDEFGHIJKLMNOPQRSTUVWXYZabcdefghijklmnopqrstuvwxyz0123456789@#$%&*+-/<>=?!:",
    );
    reveal_strlit("ABCDEFGHIJKLMNOPQRSTUVWXYZabcdefghijklmnopqrstuvwxyz0123456789");
    reveal_strlit("01");
    reveal_strlit("0123456789");
}

/// Characters that a setting has asked for ask for themselves: no preset's characters are the name
/// of another, in any case.
pub proof fn resolving_twice_changes_nothing(s: Seq<char>)
    ensures
        ({
            let r = charset_of(lowercase(s), s);
            charset_of(lowercase(r), r) == r
        }),
{
    let r = charset_of(lowercase(s), s);
    reveal_strlit(
        "ABCDEFGHIJKLMNOPQRSTUVWXYZabcdefghijklmnopqrstuvwxyz0123456789@#$%&*+-/<>=?!:",
    );
    reveal_strlit("ABCDEFGHIJKLMNOPQRSTUVWXYZabcdefghijklmnopqrstuvwxyz0123456789");
    reveal_strlit("01");
    reveal_strlit("0123456789");
    reveal_strlit("ascii");
    reveal_strlit("alnum");
    reveal_strlit("binary");
    reveal_strlit("digits");
    reveal_strlit("katakana");
    assert("ascii"@.len() == 5 && "alnum"@.len() == 5 && "binary"@.len() == 6 && "digits"@.len() == 6
        && "katakana"@.len() == 8);
    if r == katakana() {
        assert(r[0] == '\u{ff66}');
        assert(!ascii(r));
        assert(caseless(r));
    } else if r == s && s.len() > 0 {
    } else {
        assert(ascii(r));
        assert(lowercase(r).len() == r.len());
        assert(r.len() == 77 || r.len() == 62 || r.len() == 2 || r.len() == 10);
    }
}

} // verus!
