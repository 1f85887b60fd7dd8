//! Destination tokens of a CMap: hexadecimal UTF-16 code units, decoded to
//! Unicode with replacement of unpaired surrogates.

use vstd::prelude::*;

use crate::lexer::{all_hex, copy_range, hex_value, is_hex_digit, parse_code, parse_hex_code,
    strip_angle_brackets, strip_angles};
use crate::text::{push_char, replacement, scalar_char, scalar_or_replacement};

verus! {

pub open spec fn is_high_surrogate(u: u16) -> bool {
    0xD800 <= u <= 0xDBFF
}

pub open spec fn is_low_surrogate(u: u16) -> bool {
    0xDC00 <= u <= 0xDFFF
}

/// The scalar value that a high and a low surrogate encode together.
pub open spec fn pair_value(hi: u16, lo: u16) -> int {
    0x10000 + (hi - 0xD800) * 0x400 + (lo - 0xDC00)
}

/// UTF-16 decoding that turns each unpaired surrogate into one replacement
/// character.
pub open spec fn decode_utf16(u: Seq<u16>) -> Seq<char>
    decreases u.len(),
{
    if u.len() == 0 {
        Seq::empty()
    } else if u.len() >= 2 && is_high_surrogate(u[0]) && is_low_surrogate(u[1]) {
        seq![scalar_or_replacement(pair_value(u[0], u[1]))] + decode_utf16(u.subrange(2, u.len() as int))
    } else if is_high_surrogate(u[0]) || is_low_surrogate(u[0]) {
        seq![replacement()] + decode_utf16(u.subrange(1, u.len() as int))
    } else {
        seq![scalar_or_replacement(u[0] as int)] + decode_utf16(u.subrange(1, u.len() as int))
    }
}

/// The code units that the hexadecimal digits `h` write, four digits each.
pub open spec fn code_units(h: Seq<u8>) -> Seq<u16> {
    Seq::new((h.len() / 4) as nat, |k: int| hex_value(h.subrange(4 * k, 4 * k + 4)) as u16)
}

/// The text of a destination token: the digits between its angle brackets
/// read as UTF-16 code units of four digits each. A token whose digits do not
/// split into such units yields nothing.
pub open spec fn dest_text(tok: Seq<u8>) -> Option<Seq<char>> {
    let h = strip_angles(tok);
    if h.len() % 4 == 0 && all_hex(h) {
        Some(decode_utf16(code_units(h)))
    } else {
        None
    }
}

pub open spec fn pow16(n: nat) -> nat
    decreases n,
{
    if n == 0 {
        1
    } else {
        16 * pow16((n - 1) as nat)
    }
}

proof fn lemma_hex_value_bound(s: Seq<u8>)
    requires
        all_hex(s),
    ensures
        hex_value(s) < pow16(s.len()),
    decreases s.len(),
{
    if s.len() > 0 {
        let p = s.drop_last();
        assert(all_hex(p)) by {
            assert forall|i: int| 0 <= i < p.len() implies is_hex_digit(#[trigger] p[i]) by {
                assert(p[i] == s[i]);
            }
        }
        lemma_hex_value_bound(p);
        let a = hex_value(p);
        let d = crate::lexer::hex_digit_value(s.last());
        let q = pow16(p.len());
        assert(d < 16);
        assert(a * 16 + d < 16 * q) by (nonlinear_arith)
            requires
                a < q,
                d < 16,
        ;
    }
}

/// Decodes UTF-16 code units, each unpaired surrogate becoming one
/// replacement character.
pub fn decode_units(u: &Vec<u16>) -> (r: String)
    ensures
        r@ == decode_utf16(u@),
{
    let mut out = String::new();
    let n: usize = u.len();
    let mut i: usize = 0;
    assert(u@.subrange(0, n as int) =~= u@);
    assert(out@ + decode_utf16(u@) =~= decode_utf16(u@));
    while i < n
        invariant
            n == u@.len(),
            i <= n,
            out@ + decode_utf16(u@.subrange(i as int, n as int)) == decode_utf16(u@),
        decreases n - i,
    {
        let rest = Ghost(u@.subrange(i as int, n as int));
        let c = u[i];
        if i + 1 < n && 0xD800 <= c && c <= 0xDBFF && 0xDC00 <= u[i + 1] && u[i + 1] <= 0xDFFF {
            let lo = u[i + 1];
            let v: u32 = 0x10000 + ((c - 0xD800) as u32) * 0x400 + ((lo - 0xDC00) as u32);
            let ch = scalar_char(v);
            assert(rest@.subrange(2, rest@.len() as int) =~= u@.subrange(i + 2, n as int));
            push_char(&mut out, ch);
            assert(out@ + decode_utf16(u@.subrange(i + 2, n as int)) =~= decode_utf16(u@));
            i = i + 2;
        } else {
            let ch = if (0xD800 <= c && c <= 0xDFFF) {
                '\u{FFFD}'
            } else {
                scalar_char(c as u32)
            };
            assert(rest@.subrange(1, rest@.len() as int) =~= u@.subrange(i + 1, n as int));
            push_char(&mut out, ch);
            assert(out@ + decode_utf16(u@.subrange(i + 1, n as int)) =~= decode_utf16(u@));
            i = i + 1;
        }
    }
    assert(u@.subrange(n as int, n as int) =~= Seq::<u16>::empty());
    assert(out@ =~= decode_utf16(u@));
    out
}

/// The text of a destination token, or `None` when its digits do not split
/// into UTF-16 code units of four hexadecimal digits.
pub fn parse_cmap_hex_to_string(tok: &[u8]) -> (r: Option<String>)
    ensures
        r matches Some(t) ==> dest_text(tok@) == Some(t@),
        r is None ==> dest_text(tok@) is None,
{
    let h = strip_angle_brackets(tok);
    if h.len() % 4 != 0 {
        return None;
    }
    let hl: usize = h.len();
    let n: usize = hl / 4;
    let mut units: Vec<u16> = Vec::new();
    let mut k: usize = 0;
    while k < n
        invariant
            h@ == strip_angles(tok@),
            hl == h@.len(),
            n == hl / 4,
            hl % 4 == 0,
            k <= n,
            forall|j: int| 0 <= j < 4 * k ==> is_hex_digit(#[trigger] h@[j]),
            units@ =~= code_units(h@).subrange(0, k as int),
        decreases n - k,
    {
        let chunk = copy_range(h.as_slice(), 4 * k, 4 * k + 4);
        match parse_hex_code(chunk.as_slice()) {
            None => {
                proof {
                    if all_hex(h@) {
                        assert forall|i: int| 0 <= i < chunk@.len() implies is_hex_digit(#[trigger] chunk@[i]) by {
                            assert(chunk@[i] == h@[4 * k + i]);
                        }
                        lemma_hex_value_bound(chunk@);
                        reveal_with_fuel(pow16, 5);
                        assert(chunk@.len() == 4);
                        assert(pow16(4) == 65536);
                        assert(parse_code(chunk@) is Some);
                    }
                }
                return None;
            },
            Some(v) => {
                proof {
                    assert forall|j: int| 0 <= j < 4 * k + 4 implies is_hex_digit(#[trigger] h@[j]) by {
                        if j >= 4 * k {
                            assert(h@[j] == chunk@[j - 4 * k]);
                        }
                    }
                    lemma_hex_value_bound(chunk@);
                    reveal_with_fuel(pow16, 5);
                }
                units.push(v as u16);
                k = k + 1;
            },
        }
    }
    assert(code_units(h@).subrange(0, n as int) =~= code_units(h@));
    Some(decode_units(&units))
}


/// A high surrogate followed by a low surrogate decodes to the one
/// supplementary-plane character they encode, and decoding goes on with the
/// units after them.
pub proof fn lemma_surrogate_pair(hi: u16, lo: u16, rest: Seq<u16>)
    requires
        is_high_surrogate(hi),
        is_low_surrogate(lo),
    ensures
        0x10000 <= pair_value(hi, lo) <= 0x10FFFF,
        decode_utf16(seq![hi, lo] + rest) == seq![(pair_value(hi, lo) as u32) as char]
            + decode_utf16(rest),
{
    let u = seq![hi, lo] + rest;
    assert(u.subrange(2, u.len() as int) =~= rest);
    assert(u[0] == hi && u[1] == lo);
}

/// A high surrogate that no low surrogate follows decodes to one replacement
/// character, and decoding goes on with the next unit.
pub proof fn lemma_lone_high_surrogate(hi: u16, rest: Seq<u16>)
    requires
        is_high_surrogate(hi),
        rest.len() == 0 || !is_low_surrogate(rest[0]),
    ensures
        decode_utf16(seq![hi] + rest) == seq![replacement()] + decode_utf16(rest),
{
    let u = seq![hi] + rest;
    assert(u.subrange(1, u.len() as int) =~= rest);
    assert(u[0] == hi);
    if rest.len() > 0 {
        assert(u[1] == rest[0]);
    }
}

/// A low surrogate that no high surrogate precedes decodes to one
/// replacement character.
pub proof fn lemma_lone_low_surrogate(lo: u16, rest: Seq<u16>)
    requires
        is_low_surrogate(lo),
    ensures
        decode_utf16(seq![lo] + rest) == seq![replacement()] + decode_utf16(rest),
{
    let u = seq![lo] + rest;
    assert(u.subrange(1, u.len() as int) =~= rest);
    assert(u[0] == lo);
}

} // verus!
