//! The static single-byte encoding used when a Type1 font has no ToUnicode
//! CMap: printable ASCII, a Windows-1252 style upper half, and the
//! replacement character everywhere else.

use vstd::prelude::*;

verus! {

/// The characters of bytes 0x80 to 0xA0; the bytes that Windows-1252 leaves
/// unassigned, and 0xA0, give a plain space.
pub open spec fn windows_high(b: u8) -> char {
    match b {
        0x80u8 => '\u{20AC}',
        0x82u8 => '\u{201A}',
        0x83u8 => '\u{0192}',
        0x84u8 => '\u{201E}',
        0x85u8 => '\u{2026}',
        0x86u8 => '\u{2020}',
        0x87u8 => '\u{2021}',
        0x88u8 => '\u{02C6}',
        0x89u8 => '\u{2030}',
        0x8Au8 => '\u{0160}',
        0x8Bu8 => '\u{2039}',
        0x8Cu8 => '\u{0152}',
        0x8Eu8 => '\u{017D}',
        0x91u8 => '\'',
        0x92u8 => '\'',
        0x93u8 => '"',
        0x94u8 => '"',
        0x95u8 => '\u{2022}',
        0x96u8 => '\u{2013}',
        0x97u8 => '\u{2014}',
        0x98u8 => '\u{02DC}',
        0x99u8 => '\u{2122}',
        0x9Au8 => '\u{0161}',
        0x9Bu8 => '\u{203A}',
        0x9Cu8 => '\u{0153}',
        0x9Eu8 => '\u{017E}',
        0x9Fu8 => '\u{0178}',
        _ => ' ',
    }
}

/// The static encoding: bytes 0x20 to 0x7E and 0xA1 to 0xFF stand for the
/// character with the same code, bytes 0x80 to 0xA0 follow `windows_high`,
/// and the rest give the replacement character.
pub open spec fn standard_char(b: u8) -> char {
    if (0x20 <= b <= 0x7E) || 0xA1 <= b {
        b as char
    } else if 0x80 <= b <= 0xA0 {
        windows_high(b)
    } else {
        '\u{FFFD}'
    }
}

fn windows_high_char(b: u8) -> (r: char)
    requires
        0x80 <= b <= 0xA0,
    ensures
        r == windows_high(b),
{
    match b {
        0x80u8 => '\u{20AC}',
        0x82u8 => '\u{201A}',
        0x83u8 => '\u{0192}',
        0x84u8 => '\u{201E}',
        0x85u8 => '\u{2026}',
        0x86u8 => '\u{2020}',
        0x87u8 => '\u{2021}',
        0x88u8 => '\u{02C6}',
        0x89u8 => '\u{2030}',
        0x8Au8 => '\u{0160}',
        0x8Bu8 => '\u{2039}',
        0x8Cu8 => '\u{0152}',
        0x8Eu8 => '\u{017D}',
        0x91u8 => '\'',
        0x92u8 => '\'',
        0x93u8 => '"',
        0x94u8 => '"',
        0x95u8 => '\u{2022}',
        0x96u8 => '\u{2013}',
        0x97u8 => '\u{2014}',
        0x98u8 => '\u{02DC}',
        0x99u8 => '\u{2122}',
        0x9Au8 => '\u{0161}',
        0x9Bu8 => '\u{203A}',
        0x9Cu8 => '\u{0153}',
        0x9Eu8 => '\u{017E}',
        0x9Fu8 => '\u{0178}',
        _ => ' ',
    }
}

/// The character of byte `b` in the static encoding.
pub fn standard_to_unicode(b: u8) -> (r: char)
    ensures
        r == standard_char(b),
{
    if (0x20 <= b && b <= 0x7E) || 0xA1 <= b {
        b as char
    } else if 0x80 <= b && b <= 0xA0 {
        windows_high_char(b)
    } else {
        '\u{FFFD}'
    }
}

} // verus!
