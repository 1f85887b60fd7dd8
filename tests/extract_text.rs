use cmap_decode::extract::{
    enhanced_decode_array_content, enhanced_decode_bytes, enhanced_decode_text_content,
    enhanced_decode_text_stream, enhanced_extract_with_cmap, extract_text_streams,
    join_operand_texts, trim_white,
};

#[test]
fn guess_utf8_first() {
    assert_eq!(enhanced_decode_bytes("h\u{E9}llo".as_bytes()), "h\u{E9}llo");
    assert_eq!(enhanced_decode_bytes(&[]), "");
}

#[test]
fn guess_utf16_when_not_utf8() {
    assert_eq!(enhanced_decode_bytes(&[0x4E, 0x2D, 0xFF]), "\u{4E2D}");
    assert_eq!(enhanced_decode_bytes(&[0xFF, 0xFE]), "\u{FFFE}");
}

#[test]
fn guess_latin1_last() {
    assert_eq!(enhanced_decode_bytes(&[0xE9]), "\u{E9}");
    assert_eq!(enhanced_decode_bytes(&[0xD8, 0x00]), "\u{D8}\u{0}");
}

#[test]
fn text_content_hex_and_literal() {
    assert_eq!(enhanced_decode_text_content("<48656C6C6F>"), "Hello");
    assert_eq!(enhanced_decode_text_content("<486>"), "");
    assert_eq!(enhanced_decode_text_content("<zz>"), "");
    assert_eq!(enhanced_decode_text_content("Hello"), "Hello");
    assert_eq!(enhanced_decode_text_content("<"), "<");
}

#[test]
fn array_content_elements() {
    assert_eq!(enhanced_decode_array_content("(Hello) -250 (World)"), "Hello World");
    assert_eq!(enhanced_decode_array_content("<4869> 12 <4> (x)"), "Hi x");
    assert_eq!(enhanced_decode_array_content("  "), "");
}

#[test]
fn trims_unicode_white_space() {
    assert_eq!(trim_white("\u{3000} a b\u{A0}\n"), "a b");
    assert_eq!(trim_white(" \t "), "");
}

#[test]
fn stream_operands() {
    assert_eq!(enhanced_decode_text_stream("BT (Hello) Tj [(A) (B)] TJ ET"), "Hello A B");
    assert_eq!(enhanced_decode_text_stream("BT (<4869>) Tj ET"), "Hi");
    assert_eq!(enhanced_decode_text_stream("BT <4869> Tj ET"), "");
    assert_eq!(enhanced_decode_text_stream("q Q"), "");
}

#[test]
fn join_operands_in_order() {
    let tj = vec![Some("<41>".to_string()), None];
    let arrays = vec![Some("(b) (c)".to_string())];
    assert_eq!(join_operand_texts(&tj, &arrays), "A b c");
    assert_eq!(join_operand_texts(&vec![], &vec![]), "");
}

#[test]
fn finds_stream_sections() {
    let doc = "1 0 obj\n<< >>\nstream\nBT (Hi) Tj ET\nendstream\nendobj\n2 0 obj\nstream\r\nxyz\nendstream";
    assert_eq!(extract_text_streams(doc), vec!["BT (Hi) Tj ET\n".to_string(), "xyz\n".to_string()]);
}

#[test]
fn pages_of_a_document() {
    let doc = b"%PDF\nstream\nBT (Hi) Tj ET\nendstream\n\xFF\nstream\n[(a) (b)] TJ\nendstream";
    let pages = enhanced_extract_with_cmap(doc).unwrap();
    assert_eq!(pages, vec!["Hi".to_string(), "a b".to_string()]);
}
