//! Font resolution: the fonts of a page's resources, read from the document's
//! objects into the descriptors that the decoder takes.

use std::collections::HashMap;

use vstd::prelude::*;

use crate::cmap::{cmap_table, parse_cmap, table_view};
use crate::decode::PdfFont;

verus! {

broadcast use vstd::std_specs::hash::group_hash_axioms;

/// An indirect object's number and generation.
pub type ObjRef = (u32, u16);

/// The objects of a document, as far as font resolution reads them. A
/// stream's data is already decompressed.
pub enum PdfObj {
    Null,
    Boolean(bool),
    Number(i64),
    Name(String),
    Text(Vec<u8>),
    Array(Vec<PdfObj>),
    Dictionary(Vec<(String, PdfObj)>),
    Stream(Vec<(String, PdfObj)>, Vec<u8>),
    Reference(ObjRef),
}

/// The value of the first entry of `d` under `key`.
pub open spec fn dict_get(d: Seq<(String, PdfObj)>, key: Seq<char>) -> Option<PdfObj>
    decreases d.len(),
{
    if d.len() == 0 {
        None
    } else if d[0].0@ == key {
        Some(d[0].1)
    } else {
        dict_get(d.drop_first(), key)
    }
}

/// The object that `r` refers to: the first one of `objects` under it.
pub open spec fn object_get(objects: Seq<(ObjRef, PdfObj)>, r: ObjRef) -> Option<PdfObj>
    decreases objects.len(),
{
    if objects.len() == 0 {
        None
    } else if objects[0].0 == r {
        Some(objects[0].1)
    } else {
        object_get(objects.drop_first(), r)
    }
}

/// The name under `key`, if the entry is a name.
pub open spec fn name_entry(d: Seq<(String, PdfObj)>, key: Seq<char>) -> Option<Seq<char>> {
    match dict_get(d, key) {
        Some(PdfObj::Name(n)) => Some(n@),
        _ => None,
    }
}

/// A number of a `Differences` array as a code: negative numbers give 0 and
/// numbers past `u32::MAX` give `u32::MAX`.
pub open spec fn code_of(x: i64) -> u32 {
    if x < 0 {
        0
    } else if x > u32::MAX {
        u32::MAX
    } else {
        x as u32
    }
}

pub open spec fn next_code(c: u32) -> u32 {
    if c == u32::MAX {
        0
    } else {
        (c + 1) as u32
    }
}

/// A `Differences` array read from `code` on: a number sets the code of the
/// next name, and each name takes the current code and advances it.
pub open spec fn differences_from(a: Seq<PdfObj>, code: u32, m: Map<u32, Seq<char>>) -> Map<
    u32,
    Seq<char>,
>
    decreases a.len(),
{
    if a.len() == 0 {
        m
    } else {
        match a[0] {
            PdfObj::Number(x) => differences_from(a.drop_first(), code_of(x), m),
            PdfObj::Name(n) => differences_from(a.drop_first(), next_code(code), m.insert(code, n@)),
            _ => differences_from(a.drop_first(), code, m),
        }
    }
}

pub open spec fn key_base_font() -> Seq<char> {
    seq!['B', 'a', 's', 'e', 'F', 'o', 'n', 't']
}

pub open spec fn key_subtype() -> Seq<char> {
    seq!['S', 'u', 'b', 't', 'y', 'p', 'e']
}

pub open spec fn key_encoding() -> Seq<char> {
    seq!['E', 'n', 'c', 'o', 'd', 'i', 'n', 'g']
}

pub open spec fn key_base_encoding() -> Seq<char> {
    seq!['B', 'a', 's', 'e', 'E', 'n', 'c', 'o', 'd', 'i', 'n', 'g']
}

pub open spec fn key_differences() -> Seq<char> {
    seq!['D', 'i', 'f', 'f', 'e', 'r', 'e', 'n', 'c', 'e', 's']
}

pub open spec fn key_to_unicode() -> Seq<char> {
    seq!['T', 'o', 'U', 'n', 'i', 'c', 'o', 'd', 'e']
}

pub open spec fn key_font() -> Seq<char> {
    seq!['F', 'o', 'n', 't']
}

/// The encoding name of a font dictionary: the `Encoding` name, or the
/// `BaseEncoding` of an `Encoding` dictionary.
pub open spec fn encoding_of(fd: Seq<(String, PdfObj)>) -> Option<Seq<char>> {
    match dict_get(fd, key_encoding()) {
        Some(PdfObj::Name(n)) => Some(n@),
        Some(PdfObj::Dictionary(ed)) => name_entry(ed@, key_base_encoding()),
        _ => None,
    }
}

/// The code-to-glyph-name table of an `Encoding` dictionary's `Differences`
/// array, when it names at least one glyph.
pub open spec fn differences_of(fd: Seq<(String, PdfObj)>) -> Option<Map<u32, Seq<char>>> {
    match dict_get(fd, key_encoding()) {
        Some(PdfObj::Dictionary(ed)) => match dict_get(ed@, key_differences()) {
            Some(PdfObj::Array(a)) => {
                let m = differences_from(a@, 0, Map::empty());
                if m.dom().len() > 0 {
                    Some(m)
                } else {
                    None
                }
            },
            _ => None,
        },
        _ => None,
    }
}

/// The bytes of the ToUnicode CMap stream of a font dictionary.
pub open spec fn to_unicode_data(fd: Seq<(String, PdfObj)>, objects: Seq<(ObjRef, PdfObj)>) -> Option<
    Seq<u8>,
> {
    match dict_get(fd, key_to_unicode()) {
        Some(PdfObj::Reference(r)) => match object_get(objects, r) {
            Some(PdfObj::Stream(_, data)) => Some(data@),
            _ => None,
        },
        _ => None,
    }
}

pub open spec fn view_of_opt_string(s: Option<String>) -> Option<Seq<char>> {
    match s {
        Some(t) => Some(t@),
        None => None,
    }
}

pub open spec fn view_of_opt_table(t: Option<HashMap<u32, String>>) -> Option<Map<u32, Seq<char>>> {
    match t {
        Some(h) => Some(table_view(h@)),
        None => None,
    }
}

/// `f` is the descriptor of the font dictionary `fd`.
pub open spec fn describes(f: PdfFont, fd: Seq<(String, PdfObj)>, objects: Seq<(ObjRef, PdfObj)>) -> bool {
    &&& view_of_opt_string(f.base_name) == name_entry(fd, key_base_font())
    &&& view_of_opt_string(f.subtype) == name_entry(fd, key_subtype())
    &&& view_of_opt_string(f.encoding) == encoding_of(fd)
    &&& view_of_opt_table(f.differences) == differences_of(fd)
    &&& view_of_opt_table(f.to_unicode_map) == match to_unicode_data(fd, objects) {
        Some(data) => Some(cmap_table(data)),
        None => None,
    }
}

/// The entries of a `Font` resource dictionary that refer to a font
/// dictionary: each one's name and that dictionary, in order.
pub open spec fn font_dicts(d: Seq<(String, PdfObj)>, objects: Seq<(ObjRef, PdfObj)>) -> Seq<
    (Seq<char>, Seq<(String, PdfObj)>),
>
    decreases d.len(),
{
    if d.len() == 0 {
        Seq::empty()
    } else {
        let rest = font_dicts(d.drop_last(), objects);
        match d.last().1 {
            PdfObj::Reference(r) => match object_get(objects, r) {
                Some(PdfObj::Dictionary(fd)) => rest.push((d.last().0@, fd@)),
                _ => rest,
            },
            _ => rest,
        }
    }
}

/// The fonts that a resource dictionary's `Font` entry names.
pub open spec fn resource_fonts(resources: Seq<(String, PdfObj)>, objects: Seq<(ObjRef, PdfObj)>) -> Seq<
    (Seq<char>, Seq<(String, PdfObj)>),
> {
    match dict_get(resources, key_font()) {
        Some(PdfObj::Dictionary(d)) => font_dicts(d@, objects),
        _ => Seq::empty(),
    }
}


/// The value of the first entry of `d` under `key`.
fn dict_lookup<'a>(d: &'a Vec<(String, PdfObj)>, key: &str) -> (r: Option<&'a PdfObj>)
    ensures
        r matches Some(o) ==> dict_get(d@, key@) == Some(*o),
        r is None ==> dict_get(d@, key@) is None,
{
    let k = key.to_owned();
    let n: usize = d.len();
    let mut i: usize = 0;
    assert(d@.subrange(0, n as int) =~= d@);
    while i < n
        invariant
            n == d@.len(),
            i <= n,
            k@ == key@,
            dict_get(d@.subrange(i as int, n as int), key@) == dict_get(d@, key@),
        decreases n - i,
    {
        assert(d@.subrange(i as int, n as int).drop_first() =~= d@.subrange(i + 1, n as int));
        if d[i].0 == k {
            return Some(&d[i].1);
        }
        i = i + 1;
    }
    None
}

/// The object that `r` refers to.
fn object_lookup<'a>(objects: &'a Vec<(ObjRef, PdfObj)>, r: ObjRef) -> (o: Option<&'a PdfObj>)
    ensures
        o matches Some(x) ==> object_get(objects@, r) == Some(*x),
        o is None ==> object_get(objects@, r) is None,
{
    let n: usize = objects.len();
    let mut i: usize = 0;
    assert(objects@.subrange(0, n as int) =~= objects@);
    while i < n
        invariant
            n == objects@.len(),
            i <= n,
            object_get(objects@.subrange(i as int, n as int), r) == object_get(objects@, r),
        decreases n - i,
    {
        assert(objects@.subrange(i as int, n as int).drop_first() =~= objects@.subrange(
            i + 1,
            n as int,
        ));
        if objects[i].0.0 == r.0 && objects[i].0.1 == r.1 {
            return Some(&objects[i].1);
        }
        i = i + 1;
    }
    None
}

fn name_value(o: Option<&PdfObj>) -> (r: Option<String>)
    ensures
        view_of_opt_string(r) == match o {
            Some(PdfObj::Name(n)) => Some(n@),
            _ => None::<Seq<char>>,
        },
{
    match o {
        Some(PdfObj::Name(n)) => Some(n.clone()),
        _ => None,
    }
}

fn code_of_number(x: i64) -> (r: u32)
    ensures
        r == code_of(x),
{
    if x < 0 {
        0
    } else if x > 0xFFFF_FFFF {
        0xFFFF_FFFF
    } else {
        x as u32
    }
}

/// Reads a `Differences` array into a code-to-glyph-name table.
fn read_differences(a: &Vec<PdfObj>) -> (r: HashMap<u32, String>)
    ensures
        table_view(r@) == differences_from(a@, 0, Map::empty()),
{
    let mut map: HashMap<u32, String> = HashMap::new();
    assert(table_view(map@) =~= Map::empty());
    let mut code: u32 = 0;
    let n: usize = a.len();
    let mut i: usize = 0;
    assert(a@.subrange(0, n as int) =~= a@);
    while i < n
        invariant
            n == a@.len(),
            i <= n,
            differences_from(a@.subrange(i as int, n as int), code, table_view(map@))
                == differences_from(a@, 0, Map::empty()),
        decreases n - i,
    {
        assert(a@.subrange(i as int, n as int).drop_first() =~= a@.subrange(i + 1, n as int));
        match &a[i] {
            PdfObj::Number(x) => {
                code = code_of_number(*x);
            },
            PdfObj::Name(name) => {
                let ghost before = map@;
                map.insert(code, name.clone());
                assert(table_view(map@) =~= table_view(before).insert(code, name@));
                code = if code == 0xFFFF_FFFF { 0 } else { code + 1 };
            },
            _ => {},
        }
        i = i + 1;
    }
    map
}

/// The descriptor of the font dictionary `fd`.
fn read_font(fd: &Vec<(String, PdfObj)>, objects: &Vec<(ObjRef, PdfObj)>) -> (f: PdfFont)
    ensures
        describes(f, fd@, objects@),
{
    proof {
        reveal_strlit("BaseFont");
        reveal_strlit("Subtype");
        reveal_strlit("Encoding");
        reveal_strlit("BaseEncoding");
        reveal_strlit("Differences");
        reveal_strlit("ToUnicode");
        assert("BaseFont"@ =~= key_base_font());
        assert("Subtype"@ =~= key_subtype());
        assert("Encoding"@ =~= key_encoding());
        assert("BaseEncoding"@ =~= key_base_encoding());
        assert("Differences"@ =~= key_differences());
        assert("ToUnicode"@ =~= key_to_unicode());
    }
    let base_name = name_value(dict_lookup(fd, "BaseFont"));
    let subtype = name_value(dict_lookup(fd, "Subtype"));
    let mut encoding: Option<String> = None;
    let mut differences: Option<HashMap<u32, String>> = None;
    match dict_lookup(fd, "Encoding") {
        Some(PdfObj::Name(n)) => {
            encoding = Some(n.clone());
        },
        Some(PdfObj::Dictionary(ed)) => {
            encoding = name_value(dict_lookup(ed, "BaseEncoding"));
            match dict_lookup(ed, "Differences") {
                Some(PdfObj::Array(a)) => {
                    let m = read_differences(a);
                    assert(table_view(m@).dom() =~= m@.dom());
                    if !m.is_empty() {
                        differences = Some(m);
                    }
                },
                _ => {},
            }
        },
        _ => {},
    }
    let mut to_unicode_map: Option<HashMap<u32, String>> = None;
    match dict_lookup(fd, "ToUnicode") {
        Some(PdfObj::Reference(r)) => match object_lookup(objects, *r) {
            Some(PdfObj::Stream(_, data)) => {
                to_unicode_map = Some(parse_cmap(data.as_slice()));
            },
            _ => {},
        },
        _ => {},
    }
    PdfFont { base_name, subtype, encoding, to_unicode_map, differences }
}

/// The fonts that a page's resource dictionary names under `Font`, each with
/// its resource name, in the order of that dictionary. An entry that does not
/// refer to a font dictionary among `objects` is skipped.
pub fn collect_fonts(resources: &Vec<(String, PdfObj)>, objects: &Vec<(ObjRef, PdfObj)>) -> (r: Vec<
    (String, PdfFont),
>)
    ensures
        r@.len() == resource_fonts(resources@, objects@).len(),
        forall|i: int|
            0 <= i < r@.len() ==> {
                let (name, fd) = #[trigger] resource_fonts(resources@, objects@)[i];
                r@[i].0@ == name && describes(r@[i].1, fd, objects@)
            },
{
    proof {
        reveal_strlit("Font");
        assert("Font"@ =~= key_font());
    }
    let mut fonts: Vec<(String, PdfFont)> = Vec::new();
    match dict_lookup(resources, "Font") {
        Some(PdfObj::Dictionary(d)) => {
            let n: usize = d.len();
            let mut i: usize = 0;
            assert(d@.subrange(0, 0) =~= Seq::<(String, PdfObj)>::empty());
            while i < n
                invariant
                    n == d@.len(),
                    i <= n,
                    fonts@.len() == font_dicts(d@.subrange(0, i as int), objects@).len(),
                    forall|j: int|
                        0 <= j < fonts@.len() ==> {
                            let (name, fd) = #[trigger] font_dicts(d@.subrange(0, i as int), objects@)[j];
                            fonts@[j].0@ == name && describes(fonts@[j].1, fd, objects@)
                        },
                decreases n - i,
            {
                let ghost prefix = d@.subrange(0, i as int);
                assert(d@.subrange(0, i + 1).drop_last() =~= prefix);
                match &d[i].1 {
                    PdfObj::Reference(r) => match object_lookup(objects, *r) {
                        Some(PdfObj::Dictionary(fd)) => {
                            let font = read_font(fd, objects);
                            fonts.push((d[i].0.clone(), font));
                        },
                        _ => {},
                    },
                    _ => {},
                }
                i = i + 1;
            }
            assert(d@.subrange(0, n as int) =~= d@);
        },
        _ => {},
    }
    fonts
}

} // verus!
