//! The byte decoder: text-operand bytes to Unicode under a font, through the
//! font's CMap table when it has one and the static encodings otherwise.

use std::collections::HashMap;

use vstd::prelude::*;
use vstd::string::{StrSliceExecFns, StringExecFns};

use crate::cmap::table_view;
use crate::encoding::{standard_char, standard_to_unicode};
use crate::text::{push_char, replacement};

verus! {

broadcast use vstd::std_specs::hash::group_hash_axioms;

/// A font as the decoder sees it.
pub struct PdfFont {
    pub base_name: Option<String>,
    /// "Type0" (composite), "Type1", "TrueType", or another name.
    pub subtype: Option<String>,
    pub encoding: Option<String>,
    /// The table of the font's ToUnicode CMap, when it has one.
    pub to_unicode_map: Option<HashMap<u32, String>>,
    /// Glyph names that the font's encoding assigns to codes. Collected, and
    /// not consulted when decoding.
    pub differences: Option<HashMap<u32, String>>,
}

pub open spec fn type0() -> Seq<char> {
    seq!['T', 'y', 'p', 'e', '0']
}

pub open spec fn type1() -> Seq<char> {
    seq!['T', 'y', 'p', 'e', '1']
}

pub open spec fn subtype_is(font: PdfFont, name: Seq<char>) -> bool {
    font.subtype matches Some(t) && t@ == name
}

/// The codes of a composite font: big-endian pairs of bytes, and a last odd
/// byte alone.
pub open spec fn cid_codes(b: Seq<u8>) -> Seq<u32> {
    Seq::new(
        ((b.len() + 1) / 2) as nat,
        |k: int|
            if 2 * k + 1 < b.len() {
                (b[2 * k] * 256 + b[2 * k + 1]) as u32
            } else {
                b[2 * k] as u32
            },
    )
}

/// The codes of a simple font: one per byte.
pub open spec fn byte_codes(b: Seq<u8>) -> Seq<u32> {
    Seq::new(b.len(), |k: int| b[k] as u32)
}

/// The text of a code the table does not hold: the ASCII character for a
/// code below 128, else the replacement character.
pub open spec fn unmapped_text(code: u32) -> Seq<char> {
    if code < 128 {
        seq![(code as u8) as char]
    } else {
        seq![replacement()]
    }
}

pub open spec fn code_text(m: Map<u32, Seq<char>>, code: u32) -> Seq<char> {
    if m.contains_key(code) {
        m[code]
    } else {
        unmapped_text(code)
    }
}

/// The texts of `codes` under table `m`, one after another.
pub open spec fn decode_codes(m: Map<u32, Seq<char>>, codes: Seq<u32>) -> Seq<char>
    decreases codes.len(),
{
    if codes.len() == 0 {
        Seq::empty()
    } else {
        decode_codes(m, codes.drop_last()) + code_text(m, codes.last())
    }
}

pub open spec fn cmap_decode(b: Seq<u8>, m: Map<u32, Seq<char>>, is_cid: bool) -> Seq<char> {
    decode_codes(m, if is_cid { cid_codes(b) } else { byte_codes(b) })
}

/// The character of a byte when the font has no CMap, or `None` when the
/// byte is dropped: a Type1 font follows the static encoding and drops what it
/// leaves unmapped; any other font keeps ASCII and replaces the rest.
pub open spec fn base_char(b: u8, is_type1: bool) -> Option<char> {
    if is_type1 {
        let c = standard_char(b);
        if c == '\0' || c == replacement() {
            None
        } else {
            Some(c)
        }
    } else if b < 128 {
        Some(b as char)
    } else {
        Some(replacement())
    }
}

pub open spec fn base_encode(b: Seq<u8>, is_type1: bool) -> Seq<char>
    decreases b.len(),
{
    if b.len() == 0 {
        Seq::empty()
    } else {
        let rest = base_encode(b.drop_last(), is_type1);
        match base_char(b.last(), is_type1) {
            Some(c) => rest.push(c),
            None => rest,
        }
    }
}

/// What `decode_bytes` returns.
pub open spec fn font_decode(b: Seq<u8>, font: PdfFont) -> Seq<char> {
    match font.to_unicode_map {
        Some(m) => cmap_decode(b, table_view(m@), subtype_is(font, type0())),
        None => base_encode(b, subtype_is(font, type1())),
    }
}

/// Decodes bytes through a CMap table: two bytes per code for a composite
/// (`is_cid`) font, one otherwise. A code that the table lacks gives its
/// ASCII character below 128 and the replacement character from 128 on.
pub fn cmap_decode_bytes(bytes: &[u8], cmap: &HashMap<u32, String>, is_cid: bool) -> (r: String)
    ensures
        r@ == cmap_decode(bytes@, table_view(cmap@), is_cid),
{
    let ghost m = table_view(cmap@);
    let ghost codes = if is_cid {
        cid_codes(bytes@)
    } else {
        byte_codes(bytes@)
    };
    let n: usize = bytes.len();
    let mut result = String::new();
    let mut i: usize = 0;
    let mut k: usize = 0;
    assert(codes.subrange(0, 0) =~= Seq::<u32>::empty());
    while i < n
        invariant
            n == bytes@.len(),
            m == table_view(cmap@),
            codes == (if is_cid {
                cid_codes(bytes@)
            } else {
                byte_codes(bytes@)
            }),
            if is_cid {
                i == 2 * k || (i == n && k == codes.len())
            } else {
                i == k
            },
            i <= n,
            k <= codes.len(),
            i < n ==> k < codes.len(),
            i == n ==> k == codes.len(),
            result@ == decode_codes(m, codes.subrange(0, k as int)),
        decreases n - i,
    {
        let code: u32 = if is_cid {
            if i + 1 < n {
                (bytes[i] as u32) * 256 + (bytes[i + 1] as u32)
            } else {
                bytes[i] as u32
            }
        } else {
            bytes[i] as u32
        };
        assert(code == codes[k as int]);
        let ghost before = result@;
        match cmap.get(&code) {
            Some(txt) => {
                result.append(txt.as_str());
            },
            None => {
                if code < 128 {
                    push_char(&mut result, (code as u8) as char);
                } else {
                    push_char(&mut result, '\u{FFFD}');
                }
            },
        }
        assert(codes.subrange(0, k + 1).drop_last() =~= codes.subrange(0, k as int));
        assert(result@ =~= before + code_text(m, code));
        if is_cid {
            i = if i + 1 < n { i + 2 } else { n };
        } else {
            i = i + 1;
        }
        k = k + 1;
    }
    assert(codes.subrange(0, k as int) =~= codes);
    result
}

/// Decodes bytes for a font that has no CMap table.
fn base_encode_bytes(bytes: &[u8], font: &PdfFont) -> (r: String)
    ensures
        r@ == base_encode(bytes@, subtype_is(*font, type1())),
{
    let is_type1 = subtype_equals(font, "Type1");
    proof {
        reveal_strlit("Type1");
        assert("Type1"@ =~= type1());
    }
    let n: usize = bytes.len();
    let mut result = String::new();
    let mut i: usize = 0;
    assert(bytes@.subrange(0, 0) =~= Seq::<u8>::empty());
    while i < n
        invariant
            n == bytes@.len(),
            i <= n,
            is_type1 == subtype_is(*font, type1()),
            result@ == base_encode(bytes@.subrange(0, i as int), is_type1),
        decreases n - i,
    {
        let b = bytes[i];
        let ch = if is_type1 {
            standard_to_unicode(b)
        } else if b < 128 {
            b as char
        } else {
            '\u{FFFD}'
        };
        if !is_type1 || (ch != '\0' && ch != '\u{FFFD}') {
            push_char(&mut result, ch);
        }
        assert(bytes@.subrange(0, i + 1).drop_last() =~= bytes@.subrange(0, i as int));
        i = i + 1;
    }
    assert(bytes@.subrange(0, n as int) =~= bytes@);
    result
}

/// Whether the font's subtype is `name`.
fn subtype_equals(font: &PdfFont, name: &str) -> (r: bool)
    ensures
        r == (font.subtype matches Some(t) && t@ == name@),
{
    match &font.subtype {
        Some(t) => {
            let w = name.to_owned();
            *t == w
        },
        None => false,
    }
}

/// Decodes the bytes of a text operand under `font`: through its CMap table
/// when it has one (two bytes per code for a Type0 font), else through the
/// static encodings.
pub fn decode_bytes(bytes: &[u8], font: &PdfFont) -> (r: String)
    ensures
        r@ == font_decode(bytes@, *font),
{
    match &font.to_unicode_map {
        Some(cmap) => {
            let is_cid = subtype_equals(font, "Type0");
            proof {
                reveal_strlit("Type0");
                assert("Type0"@ =~= type0());
            }
            cmap_decode_bytes(bytes, cmap, is_cid)
        },
        None => base_encode_bytes(bytes, font),
    }
}


/// Without a table or the Type1 subtype, every byte gives exactly one
/// character: bytes from 128 on give the replacement character, which is
/// kept.
pub proof fn lemma_plain_fallback_keeps_length(b: Seq<u8>)
    ensures
        base_encode(b, false).len() == b.len(),
        forall|i: int|
            0 <= i < b.len() ==> #[trigger] base_encode(b, false)[i] == (if b[i] < 128 {
                b[i] as char
            } else {
                replacement()
            }),
    decreases b.len(),
{
    if b.len() > 0 {
        lemma_plain_fallback_keeps_length(b.drop_last());
        assert forall|i: int| 0 <= i < b.len() implies #[trigger] base_encode(b, false)[i] == (if b[i]
            < 128 {
            b[i] as char
        } else {
            replacement()
        }) by {
            if i < b.len() - 1 {
                assert(b.drop_last()[i] == b[i]);
            }
        }
    }
}

/// Under a Type1 font without a table, a byte that the static encoding
/// leaves unmapped is dropped: appending it changes nothing.
pub proof fn lemma_type1_drops_unmapped(b: Seq<u8>, x: u8)
    requires
        standard_char(x) == replacement(),
    ensures
        base_encode(b.push(x), true) == base_encode(b, true),
{
    assert(b.push(x).drop_last() =~= b);
}

} // verus!
