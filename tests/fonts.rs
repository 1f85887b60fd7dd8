use cmap_decode::decode::decode_bytes;
use cmap_decode::font::{collect_fonts, ObjRef, PdfObj};

fn name(s: &str) -> PdfObj {
    PdfObj::Name(s.to_string())
}

fn entry(k: &str, v: PdfObj) -> (String, PdfObj) {
    (k.to_string(), v)
}

fn objects() -> Vec<(ObjRef, PdfObj)> {
    vec![
        (
            (5, 0),
            PdfObj::Dictionary(vec![
                entry("Type", name("Font")),
                entry("Subtype", name("Type0")),
                entry("BaseFont", name("SimSun")),
                entry("Encoding", name("Identity-H")),
                entry("ToUnicode", PdfObj::Reference((6, 0))),
            ]),
        ),
        (
            (6, 0),
            PdfObj::Stream(
                vec![entry("Length", PdfObj::Number(40))],
                b"beginbfchar\n<0001> <4E2D>\nendbfchar\n".to_vec(),
            ),
        ),
        (
            (7, 0),
            PdfObj::Dictionary(vec![
                entry("Subtype", name("Type1")),
                entry("BaseFont", name("Helvetica")),
                entry(
                    "Encoding",
                    PdfObj::Dictionary(vec![
                        entry("BaseEncoding", name("WinAnsiEncoding")),
                        entry(
                            "Differences",
                            PdfObj::Array(vec![
                                PdfObj::Number(65),
                                name("Alpha"),
                                name("Beta"),
                                PdfObj::Number(200),
                                name("Omega"),
                            ]),
                        ),
                    ]),
                ),
            ]),
        ),
        ((8, 0), PdfObj::Number(3)),
    ]
}

fn resources() -> Vec<(String, PdfObj)> {
    vec![entry(
        "Font",
        PdfObj::Dictionary(vec![
            entry("F1", PdfObj::Reference((5, 0))),
            entry("F2", PdfObj::Reference((7, 0))),
            entry("F3", PdfObj::Reference((8, 0))),
            entry("F4", PdfObj::Reference((9, 0))),
            entry("F5", name("Helvetica")),
        ]),
    )]
}

#[test]
fn collects_resolvable_fonts_in_order() {
    let fonts = collect_fonts(&resources(), &objects());
    assert_eq!(fonts.len(), 2);
    assert_eq!(fonts[0].0, "F1");
    assert_eq!(fonts[1].0, "F2");
}

#[test]
fn composite_font_with_cmap() {
    let fonts = collect_fonts(&resources(), &objects());
    let f = &fonts[0].1;
    assert_eq!(f.base_name.as_deref(), Some("SimSun"));
    assert_eq!(f.subtype.as_deref(), Some("Type0"));
    assert_eq!(f.encoding.as_deref(), Some("Identity-H"));
    assert!(f.differences.is_none());
    let t = f.to_unicode_map.as_ref().unwrap();
    assert_eq!(t.len(), 1);
    assert_eq!(t[&1], "\u{4E2D}");
    assert_eq!(decode_bytes(&[0x00, 0x01, 0x00, 0x41], f), "\u{4E2D}A");
}

#[test]
fn simple_font_with_differences() {
    let fonts = collect_fonts(&resources(), &objects());
    let f = &fonts[1].1;
    assert_eq!(f.base_name.as_deref(), Some("Helvetica"));
    assert_eq!(f.encoding.as_deref(), Some("WinAnsiEncoding"));
    assert!(f.to_unicode_map.is_none());
    let d = f.differences.as_ref().unwrap();
    assert_eq!(d.len(), 3);
    assert_eq!(d[&65], "Alpha");
    assert_eq!(d[&66], "Beta");
    assert_eq!(d[&200], "Omega");
    assert_eq!(decode_bytes(&[0x41, 0x7F], f), "A");
}

#[test]
fn no_font_entry_gives_no_fonts() {
    assert!(collect_fonts(&vec![entry("XObject", PdfObj::Null)], &objects()).is_empty());
    assert!(collect_fonts(&vec![entry("Font", name("F1"))], &objects()).is_empty());
}

#[test]
fn empty_differences_give_none() {
    let objs = vec![(
        (1, 0),
        PdfObj::Dictionary(vec![entry(
            "Encoding",
            PdfObj::Dictionary(vec![entry("Differences", PdfObj::Array(vec![PdfObj::Number(3)]))]),
        )]),
    )];
    let res = vec![entry("Font", PdfObj::Dictionary(vec![entry("F", PdfObj::Reference((1, 0)))]))];
    let fonts = collect_fonts(&res, &objs);
    assert_eq!(fonts.len(), 1);
    assert!(fonts[0].1.differences.is_none());
    assert!(fonts[0].1.encoding.is_none());
    assert!(fonts[0].1.subtype.is_none());
}
