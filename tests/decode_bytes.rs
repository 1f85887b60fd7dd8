use std::collections::HashMap;

use cmap_decode::decode::{cmap_decode_bytes, decode_bytes, PdfFont};
use cmap_decode::encoding::standard_to_unicode;

fn font(subtype: Option<&str>, map: Option<HashMap<u32, String>>) -> PdfFont {
    PdfFont {
        base_name: None,
        subtype: subtype.map(|s| s.to_string()),
        encoding: None,
        to_unicode_map: map,
        differences: None,
    }
}

fn table(entries: &[(u32, &str)]) -> HashMap<u32, String> {
    entries.iter().map(|(k, v)| (*k, v.to_string())).collect()
}

#[test]
fn no_table_no_subtype_keeps_replacement() {
    let r = decode_bytes(&[0x41, 0xFF], &font(None, None));
    assert_eq!(r, "A\u{FFFD}");
    assert_eq!(r.chars().count(), 2);
}

#[test]
fn no_table_truetype_passes_ascii() {
    assert_eq!(decode_bytes(&[0x00, 0x7F, 0x80], &font(Some("TrueType"), None)), "\u{0}\u{7F}\u{FFFD}");
}

#[test]
fn type1_drops_unmapped_byte() {
    assert_eq!(standard_to_unicode(0x7F), '\u{FFFD}');
    let r = decode_bytes(&[0x41, 0x7F, 0x42], &font(Some("Type1"), None));
    assert_eq!(r, "AB");
    assert_eq!(r.chars().count(), 2);
}

#[test]
fn type1_static_table_values() {
    let r = decode_bytes(&[0x80, 0x93, 0xA0, 0xE9, 0x05], &font(Some("Type1"), None));
    assert_eq!(r, "\u{20AC}\" \u{E9}");
    assert_eq!(standard_to_unicode(0x99), '\u{2122}');
    assert_eq!(standard_to_unicode(0x81), ' ');
    assert_eq!(standard_to_unicode(0x1F), '\u{FFFD}');
    assert_eq!(standard_to_unicode(0xFF), '\u{FF}');
}

#[test]
fn type0_pairs_of_bytes() {
    let f = font(Some("Type0"), Some(table(&[(0x0041, "A")])));
    assert_eq!(decode_bytes(&[0x00, 0x41], &f), "A");
}

#[test]
fn type0_odd_trailing_byte() {
    let f = font(Some("Type0"), Some(table(&[(0x0041, "A")])));
    assert_eq!(decode_bytes(&[0x00, 0x41, 0x99], &f), "A\u{FFFD}");
    assert_eq!(decode_bytes(&[0x00, 0x41, 0x42], &f), "AB");
    let g = font(Some("Type0"), Some(table(&[(0x0041, "A"), (0x99, "x")])));
    assert_eq!(decode_bytes(&[0x00, 0x41, 0x99], &g), "Ax");
}

#[test]
fn type0_unmapped_codes() {
    let f = font(Some("Type0"), Some(table(&[])));
    assert_eq!(decode_bytes(&[0x00, 0x42, 0x01, 0x00], &f), "B\u{FFFD}");
}

#[test]
fn simple_font_with_table() {
    let f = font(Some("TrueType"), Some(table(&[(0x01, "fi"), (0x41, "Z")])));
    assert_eq!(decode_bytes(&[0x01, 0x41, 0x42, 0xC8], &f), "fiZB\u{FFFD}");
}

#[test]
fn table_bypasses_static_encoding() {
    let f = font(Some("Type1"), Some(table(&[])));
    assert_eq!(decode_bytes(&[0x41, 0x80], &f), "A\u{FFFD}");
}

#[test]
fn cmap_decode_direct() {
    let t = table(&[(0x0102, "\u{4E2D}")]);
    assert_eq!(cmap_decode_bytes(&[0x01, 0x02], &t, true), "\u{4E2D}");
    assert_eq!(cmap_decode_bytes(&[0x01, 0x02], &t, false), "\u{1}\u{2}");
    assert_eq!(cmap_decode_bytes(&[], &t, true), "");
}
