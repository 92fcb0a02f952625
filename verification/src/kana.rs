//! Hiragana to katakana normalization.
//!
//! The code table spells readings in hiragana while station.json uses
//! katakana. This is a fixed per-character mapping: every hiragana in
//! U+3041..=U+3096 has a katakana counterpart exactly 0x60 code points higher,
//! and the two iteration marks U+309D and U+309E pair up with U+30FD and
//! U+30FE the same way. Every other character is left alone.

use vstd::prelude::*;

use crate::text::push_char;

verus! {

/// The code point a character becomes.
pub open spec fn katakana_code(c: u32) -> u32 {
    if 0x3041 <= c && c <= 0x3096 {
        (c + 0x60) as u32
    } else if c == 0x309D {
        0x30FD
    } else if c == 0x309E {
        0x30FE
    } else {
        c
    }
}

/// Whether `out` is `s` with every hiragana turned into katakana.
pub open spec fn is_katakana_of(out: Seq<char>, s: Seq<char>) -> bool {
    out.len() == s.len() && forall|i: int|
        0 <= i < s.len() ==> #[trigger] (out[i] as u32) == katakana_code(s[i] as u32)
}

/// The character with code point `v`, when there is one.
///
/// Calls `char::from_u32`, which std documents as returning `None` exactly
/// for values that are not Unicode scalar values (surrogates, and anything
/// above U+10FFFF), and otherwise the character with that code point.
#[verifier::external_body]
fn char_from_u32(v: u32) -> (r: Option<char>)
    ensures
        r is Some <==> (v <= 0xD7FF || (0xE000 <= v && v <= 0x10FFFF)),
        r matches Some(c) ==> c as u32 == v,
{
    char::from_u32(v)
}

/// Convert every hiragana in `s` to its katakana counterpart.
pub fn to_katakana(s: &str) -> (r: String)
    ensures
        is_katakana_of(r@, s@),
{
    let n = s.unicode_len();
    let mut out = String::new();
    let mut i: usize = 0;
    while i < n
        invariant
            n == s@.len(),
            i <= n,
            out@.len() == i,
            forall|k: int| 0 <= k < i ==> #[trigger] (out@[k] as u32) == katakana_code(s@[k] as u32),
        decreases n - i,
    {
        let c = s.get_char(i);
        let code = c as u32;
        let mapped = if 0x3041 <= code && code <= 0x3096 {
            match char_from_u32(code + 0x60) {
                Some(k) => k,
                None => c,
            }
        } else if code == 0x309D {
            '\u{30FD}'
        } else if code == 0x309E {
            '\u{30FE}'
        } else {
            c
        };
        push_char(&mut out, mapped);
        i = i + 1;
    }
    out
}

/// Converting to katakana a second time changes nothing.
pub proof fn law_katakana_idempotent(s: Seq<char>, once: Seq<char>, twice: Seq<char>)
    requires
        is_katakana_of(once, s),
        is_katakana_of(twice, once),
    ensures
        twice == once,
{
    assert forall|i: int| 0 <= i < once.len() implies #[trigger] twice[i] == once[i] by {
        assert((once[i] as u32) == katakana_code(s[i] as u32));
        assert((twice[i] as u32) == (once[i] as u32));
        vstd::utf8::char_u32_cast(twice[i], twice[i] as u32);
        vstd::utf8::char_u32_cast(once[i], once[i] as u32);
    }
    assert(twice =~= once);
}

} // verus!
