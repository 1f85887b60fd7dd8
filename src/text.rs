//! Character and string primitives shared by the table builder and the
//! decoder.

use vstd::prelude::*;

verus! {

/// The Unicode replacement character.
pub open spec fn replacement() -> char {
    '\u{FFFD}'
}

/// The character with code `v` when `v` is a Unicode scalar value, else the
/// replacement character.
pub open spec fn scalar_or_replacement(v: int) -> char {
    if 0 <= v <= 0xD7FF || 0xE000 <= v <= 0x10FFFF {
        (v as u32) as char
    } else {
        replacement()
    }
}

/// Relies on `char::from_u32`: it returns the character with that code
/// exactly when the code is a Unicode scalar value.
#[verifier::external_body]
fn char_from_u32(v: u32) -> (r: Option<char>)
    ensures
        r.is_some() <==> (v <= 0xD7FF || 0xE000 <= v <= 0x10FFFF),
        r matches Some(c) ==> c as u32 == v,
{
    char::from_u32(v)
}

/// The character with code `v`, or the replacement character when `v` is no
/// Unicode scalar value.
pub fn scalar_char(v: u32) -> (r: char)
    ensures
        r == scalar_or_replacement(v as int),
{
    match char_from_u32(v) {
        Some(c) => {
            proof {
                vstd::utf8::char_u32_cast(c, v);
            }
            c
        },
        None => '\u{FFFD}',
    }
}

/// Relies on `String::push`: the character is appended at the end.
#[verifier::external_body]
pub(crate) fn push_char(s: &mut String, c: char)
    ensures
        final(s)@ == old(s)@.push(c),
{
    s.push(c)
}

} // verus!
