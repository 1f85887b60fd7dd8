//! Text of content streams without the document's fonts: text-show operands
//! decoded by trying UTF-8, then big-endian UTF-16, then Latin-1.

use vstd::prelude::*;
use vstd::string::{StrSliceExecFns, StringExecFns};
use vstd::utf8::{decode_utf8, valid_utf8};

use crate::text::{push_char, scalar_char, scalar_or_replacement};

verus! {

/// Relies on `String::from_utf8`: it accepts exactly the valid UTF-8 byte
/// sequences and then holds the characters they encode.
#[verifier::external_body]
fn string_from_utf8(b: Vec<u8>) -> (r: Option<String>)
    ensures
        r is Some <==> valid_utf8(b@),
        r matches Some(s) ==> s@ == decode_utf8(b@),
{
    String::from_utf8(b).ok()
}

pub open spec fn is_surrogate(code: int) -> bool {
    0xD800 <= code <= 0xDFFF
}

/// The characters of the first `n` big-endian byte pairs of `b`, read as
/// Basic Multilingual Plane code points; surrogate halves are skipped.
pub open spec fn bmp_text(b: Seq<u8>, n: int) -> Seq<char>
    decreases n,
{
    if n <= 0 {
        Seq::empty()
    } else {
        let prev = bmp_text(b, n - 1);
        let code = b[2 * (n - 1)] * 256 + b[2 * (n - 1) + 1];
        if is_surrogate(code) {
            prev
        } else {
            prev.push(scalar_or_replacement(code))
        }
    }
}

/// Each byte as the character with the same code.
pub open spec fn latin1_text(b: Seq<u8>) -> Seq<char> {
    Seq::new(b.len(), |i: int| b[i] as char)
}

/// The text of operand bytes: their UTF-8 decoding when they are valid
/// UTF-8; else their big-endian UTF-16 reading when that yields a character;
/// else Latin-1.
pub open spec fn guessed_text(b: Seq<u8>) -> Seq<char> {
    if valid_utf8(b) {
        decode_utf8(b)
    } else {
        let u = if b.len() >= 2 {
            bmp_text(b, (b.len() / 2) as int)
        } else {
            Seq::empty()
        };
        if u.len() > 0 {
            u
        } else {
            latin1_text(b)
        }
    }
}

/// Decodes operand bytes whose font is unknown, trying UTF-8, then
/// big-endian UTF-16, then Latin-1.
pub fn enhanced_decode_bytes(bytes: &[u8]) -> (r: String)
    ensures
        r@ == guessed_text(bytes@),
{
    let mut v: Vec<u8> = Vec::new();
    let n: usize = bytes.len();
    let mut j: usize = 0;
    while j < n
        invariant
            n == bytes@.len(),
            j <= n,
            v@ == bytes@.subrange(0, j as int),
        decreases n - j,
    {
        v.push(bytes[j]);
        j = j + 1;
    }
    assert(v@ =~= bytes@);
    if let Some(s) = string_from_utf8(v) {
        return s;
    }
    let mut result = String::new();
    if n >= 2 {
        let pairs: usize = n / 2;
        let mut k: usize = 0;
        while k < pairs
            invariant
                n == bytes@.len(),
                pairs == n / 2,
                k <= pairs,
                result@ == bmp_text(bytes@, k as int),
            decreases pairs - k,
        {
            let code: u32 = (bytes[2 * k] as u32) * 256 + (bytes[2 * k + 1] as u32);
            if code < 0xD800 || code > 0xDFFF {
                let c = scalar_char(code);
                push_char(&mut result, c);
            }
            k = k + 1;
        }
    }
    if result.as_str().unicode_len() > 0 {
        return result;
    }
    let mut out = String::new();
    let mut i: usize = 0;
    while i < n
        invariant
            n == bytes@.len(),
            i <= n,
            out@ == latin1_text(bytes@.subrange(0, i as int)),
        decreases n - i,
    {
        push_char(&mut out, bytes[i] as char);
        assert(out@ =~= latin1_text(bytes@.subrange(0, i + 1)));
        i = i + 1;
    }
    assert(bytes@.subrange(0, n as int) =~= bytes@);
    out
}


/// The characters with the Unicode White_Space property.
pub open spec fn is_white(c: char) -> bool {
    ('\u{9}' <= c <= '\u{D}') || c == ' ' || c == '\u{85}' || c == '\u{A0}' || c == '\u{1680}'
        || ('\u{2000}' <= c <= '\u{200A}') || c == '\u{2028}' || c == '\u{2029}' || c == '\u{202F}'
        || c == '\u{205F}' || c == '\u{3000}'
}

pub fn is_white_char(c: char) -> (r: bool)
    ensures
        r == is_white(c),
{
    ('\u{9}' <= c && c <= '\u{D}') || c == ' ' || c == '\u{85}' || c == '\u{A0}' || c == '\u{1680}'
        || ('\u{2000}' <= c && c <= '\u{200A}') || c == '\u{2028}' || c == '\u{2029}' || c
        == '\u{202F}' || c == '\u{205F}' || c == '\u{3000}'
}

/// The first index at or after `i` that holds no white space.
pub open spec fn skip_white(s: Seq<char>, i: int) -> int
    decreases s.len() - i,
{
    if 0 <= i < s.len() && is_white(s[i]) {
        skip_white(s, i + 1)
    } else {
        i
    }
}

/// The first index at or after `i` that holds white space, or the length.
pub open spec fn word_end(s: Seq<char>, i: int) -> int
    decreases s.len() - i,
{
    if i >= s.len() || is_white(s[i]) {
        i
    } else {
        word_end(s, i + 1)
    }
}

/// The length of `s.subrange(0, j)` without its trailing white space.
pub open spec fn trim_white_end(s: Seq<char>, j: int) -> int
    decreases j,
{
    if 0 < j <= s.len() && is_white(s[j - 1]) {
        trim_white_end(s, j - 1)
    } else {
        j
    }
}

/// `s` without leading and trailing white space.
pub open spec fn trim(s: Seq<char>) -> Seq<char> {
    let a = skip_white(s, 0);
    let b = trim_white_end(s, s.len() as int);
    if a >= b {
        Seq::empty()
    } else {
        s.subrange(a, b)
    }
}

proof fn lemma_skip_white_bounds(s: Seq<char>, i: int)
    requires
        0 <= i,
    ensures
        i <= skip_white(s, i),
        skip_white(s, i) < s.len() ==> !is_white(s[skip_white(s, i)]),
    decreases s.len() - i,
{
    if 0 <= i < s.len() && is_white(s[i]) {
        lemma_skip_white_bounds(s, i + 1);
    }
}

proof fn lemma_word_end_bounds(s: Seq<char>, i: int)
    requires
        i <= s.len(),
    ensures
        i <= word_end(s, i) <= s.len(),
    decreases s.len() - i,
{
    if !(i >= s.len() || is_white(s[i])) {
        lemma_word_end_bounds(s, i + 1);
    }
}

fn skip_white_at(s: &str, n: usize, i: usize) -> (r: usize)
    requires
        n == s@.len(),
        i <= n,
    ensures
        r == skip_white(s@, i as int),
        i <= r <= n,
        r < n ==> !is_white(s@[r as int]),
{
    let mut k: usize = i;
    while k < n && is_white_char(s.get_char(k))
        invariant
            n == s@.len(),
            i <= k <= n,
            skip_white(s@, k as int) == skip_white(s@, i as int),
        decreases n - k,
    {
        k = k + 1;
    }
    k
}

fn word_end_at(s: &str, n: usize, i: usize) -> (r: usize)
    requires
        n == s@.len(),
        i <= n,
    ensures
        r == word_end(s@, i as int),
        i <= r <= n,
{
    let mut k: usize = i;
    while k < n && !is_white_char(s.get_char(k))
        invariant
            n == s@.len(),
            i <= k <= n,
            word_end(s@, k as int) == word_end(s@, i as int),
        decreases n - k,
    {
        k = k + 1;
    }
    k
}

/// `s` without leading and trailing white space.
pub fn trim_white(s: &str) -> (r: String)
    ensures
        r@ == trim(s@),
{
    let n = s.unicode_len();
    let a = skip_white_at(s, n, 0);
    let mut b: usize = n;
    while b > 0 && is_white_char(s.get_char(b - 1))
        invariant
            n == s@.len(),
            b <= n,
            trim_white_end(s@, b as int) == trim_white_end(s@, n as int),
        decreases b,
    {
        b = b - 1;
    }
    if a >= b {
        String::new()
    } else {
        s.substring_char(a, b).to_owned()
    }
}

pub open spec fn is_hex_char(c: char) -> bool {
    ('0' <= c <= '9') || ('a' <= c <= 'f') || ('A' <= c <= 'F')
}

pub open spec fn hex_char_value(c: char) -> int {
    if '0' <= c <= '9' {
        c as int - 48
    } else if 'a' <= c <= 'f' {
        c as int - 87
    } else {
        c as int - 55
    }
}

/// The bytes that pairs of hexadecimal digits write, or `None` when `s` is
/// of odd length or holds anything but hexadecimal digits.
pub open spec fn hex_bytes(s: Seq<char>) -> Option<Seq<u8>> {
    if s.len() % 2 == 0 && forall|i: int| 0 <= i < s.len() ==> is_hex_char(#[trigger] s[i]) {
        Some(
            Seq::new(
                (s.len() / 2) as nat,
                |k: int| (hex_char_value(s[2 * k]) * 16 + hex_char_value(s[2 * k + 1])) as u8,
            ),
        )
    } else {
        None
    }
}

/// Relies on `hex::decode`: it fails on input of odd length or with a byte
/// that is no hexadecimal digit (either case), and otherwise returns one byte
/// per pair of digits, the first digit the high half.
#[verifier::external_body]
fn hex_decode(s: &str) -> (r: Option<Vec<u8>>)
    ensures
        r matches Some(b) ==> hex_bytes(s@) == Some(b@),
        r is None ==> hex_bytes(s@) is None,
{
    hex::decode(s).ok()
}

/// The text of a string operand: a hexadecimal `<...>` string is decoded to
/// bytes and those are decoded with `guessed_text` (a malformed one gives
/// nothing); any other text is kept as it is.
pub open spec fn content_text(s: Seq<char>) -> Seq<char> {
    if s.len() >= 2 && s[0] == '<' && s.last() == '>' {
        match hex_bytes(s.subrange(1, s.len() - 1)) {
            Some(b) => guessed_text(b),
            None => Seq::empty(),
        }
    } else {
        s
    }
}

/// Decodes the operand of a `Tj` operator.
pub fn enhanced_decode_text_content(text_content: &str) -> (r: String)
    ensures
        r@ == content_text(text_content@),
{
    let n = text_content.unicode_len();
    if n >= 2 && text_content.get_char(0) == '<' && text_content.get_char(n - 1) == '>' {
        let inner = text_content.substring_char(1, n - 1);
        match hex_decode(inner) {
            Some(bytes) => enhanced_decode_bytes(bytes.as_slice()),
            None => String::new(),
        }
    } else {
        text_content.to_owned()
    }
}

/// The text of one element of a `TJ` array: a `(...)` string gives what is
/// between its parentheses, a `<...>` string its decoded bytes; anything else,
/// or a malformed hexadecimal string, gives nothing.
pub open spec fn element_text(e: Seq<char>) -> Option<Seq<char>> {
    if e.len() >= 2 && e[0] == '(' && e.last() == ')' {
        Some(e.subrange(1, e.len() - 1))
    } else if e.len() >= 2 && e[0] == '<' && e.last() == '>' {
        match hex_bytes(e.subrange(1, e.len() - 1)) {
            Some(b) => Some(guessed_text(b)),
            None => None,
        }
    } else {
        None
    }
}

/// The texts of the white-space separated elements of `s` from index `i`
/// on, each followed by a space.
pub open spec fn array_join(s: Seq<char>, i: int) -> Seq<char>
    decreases s.len() - i via array_join_decreases
{
    let st = skip_white(s, i);
    if st < 0 || st >= s.len() {
        Seq::empty()
    } else {
        let e = word_end(s, st);
        let piece = match element_text(s.subrange(st, e)) {
            Some(t) => t.push(' '),
            None => Seq::empty(),
        };
        piece + array_join(s, e)
    }
}

#[via_fn]
proof fn array_join_decreases(s: Seq<char>, i: int) {
    let st = skip_white(s, i);
    if 0 <= st < s.len() {
        if 0 <= i {
            lemma_skip_white_bounds(s, i);
        } else {
            assert(st == i);
        }
        lemma_word_end_bounds(s, st + 1);
        assert(word_end(s, st) == word_end(s, st + 1));
    }
}

/// What `enhanced_decode_array_content` returns.
pub open spec fn array_text(s: Seq<char>) -> Seq<char> {
    trim(array_join(s, 0))
}

fn element_text_exec(e: &str) -> (r: Option<String>)
    ensures
        r matches Some(t) ==> element_text(e@) == Some(t@),
        r is None ==> element_text(e@) is None,
{
    let n = e.unicode_len();
    if n >= 2 && e.get_char(0) == '(' && e.get_char(n - 1) == ')' {
        Some(e.substring_char(1, n - 1).to_owned())
    } else if n >= 2 && e.get_char(0) == '<' && e.get_char(n - 1) == '>' {
        match hex_decode(e.substring_char(1, n - 1)) {
            Some(bytes) => Some(enhanced_decode_bytes(bytes.as_slice())),
            None => None,
        }
    } else {
        None
    }
}

/// Decodes the contents of a `TJ` array: the text of each string element,
/// separated by spaces.
pub fn enhanced_decode_array_content(array_content: &str) -> (r: String)
    ensures
        r@ == array_text(array_content@),
{
    let s = array_content;
    let n = s.unicode_len();
    let mut acc = String::new();
    let mut p: usize = 0;
    assert(acc@ + array_join(s@, 0) =~= array_join(s@, 0));
    loop
        invariant
            n == s@.len(),
            p <= n,
            acc@ + array_join(s@, p as int) == array_join(s@, 0),
        ensures
            acc@ == array_join(s@, 0),
        decreases n - p,
    {
        let st = skip_white_at(s, n, p);
        if st >= n {
            assert(acc@ =~= array_join(s@, 0));
            break;
        }
        let e = word_end_at(s, n, st);
        proof {
            lemma_word_end_bounds(s@, st + 1);
            assert(word_end(s@, st as int) == word_end(s@, st + 1));
        }
        let elem = s.substring_char(st, e);
        match element_text_exec(elem) {
            Some(t) => {
                acc.append(t.as_str());
                push_char(&mut acc, ' ');
            },
            None => {},
        }
        assert(acc@ + array_join(s@, e as int) =~= array_join(s@, 0));
        p = e;
    }
    trim_white(acc.as_str())
}


/// The first capture group of each successive non-overlapping match of a
/// regular expression in a text.
pub uninterp spec fn group_one_matches(pattern: Seq<char>, text: Seq<char>) -> Seq<Option<Seq<char>>>;

pub open spec fn view_of_group(g: Option<String>) -> Option<Seq<char>> {
    match g {
        Some(t) => Some(t@),
        None => None,
    }
}

/// Relies on `regex::Regex::new` and `Regex::captures_iter`: the first
/// capture group of each successive match, which depends on the pattern and
/// the text alone (a pattern that does not compile matches nothing).
#[verifier::external_body]
fn first_groups(pattern: &str, text: &str) -> (r: Vec<Option<String>>)
    ensures
        r@.len() == group_one_matches(pattern@, text@).len(),
        forall|i: int|
            0 <= i < r@.len() ==> view_of_group(#[trigger] r@[i]) == group_one_matches(
                pattern@,
                text@,
            )[i],
{
    match regex::Regex::new(pattern) {
        Ok(re) => re.captures_iter(text).map(|c| c.get(1).map(|m| m.as_str().to_string())).collect(),
        Err(_) => Vec::new(),
    }
}

pub open spec fn stream_pattern() -> Seq<char> {
    "stream\\s*\\r?\\n([\\s\\S]*?)endstream"@
}

pub open spec fn tj_pattern() -> Seq<char> {
    "\\(([^)]+)\\)\\s*Tj"@
}

pub open spec fn tj_array_pattern() -> Seq<char> {
    "\\[([^\\]]+)\\]\\s*TJ"@
}

/// The groups that took part in their match.
pub open spec fn present(g: Seq<Option<Seq<char>>>) -> Seq<Seq<char>>
    decreases g.len(),
{
    if g.len() == 0 {
        Seq::empty()
    } else {
        match g.last() {
            Some(t) => present(g.drop_last()).push(t),
            None => present(g.drop_last()),
        }
    }
}

/// The data of each `stream ... endstream` section of a document's text.
pub fn extract_text_streams(pdf_str: &str) -> (r: Vec<String>)
    ensures
        r@.len() == present(group_one_matches(stream_pattern(), pdf_str@)).len(),
        forall|i: int|
            0 <= i < r@.len() ==> (#[trigger] r@[i])@ == present(
                group_one_matches(stream_pattern(), pdf_str@),
            )[i],
{
    let groups = first_groups("stream\\s*\\r?\\n([\\s\\S]*?)endstream", pdf_str);
    let ghost g = group_one_matches(stream_pattern(), pdf_str@);
    let mut streams: Vec<String> = Vec::new();
    let n: usize = groups.len();
    let mut i: usize = 0;
    assert(g.subrange(0, 0) =~= Seq::<Option<Seq<char>>>::empty());
    while i < n
        invariant
            n == groups@.len(),
            n == g.len(),
            i <= n,
            g == group_one_matches(stream_pattern(), pdf_str@),
            forall|j: int| 0 <= j < n ==> view_of_group(#[trigger] groups@[j]) == g[j],
            streams@.len() == present(g.subrange(0, i as int)).len(),
            forall|j: int|
                0 <= j < streams@.len() ==> (#[trigger] streams@[j])@ == present(
                    g.subrange(0, i as int),
                )[j],
        decreases n - i,
    {
        assert(g.subrange(0, i + 1).drop_last() =~= g.subrange(0, i as int));
        assert(view_of_group(groups@[i as int]) == g[i as int]);
        match &groups[i] {
            Some(t) => {
                streams.push(t.clone());
            },
            None => {},
        }
        i = i + 1;
    }
    assert(g.subrange(0, n as int) =~= g);
    streams
}

/// The texts of the `Tj` operands, each followed by a space.
pub open spec fn join_contents(g: Seq<Option<Seq<char>>>) -> Seq<char>
    decreases g.len(),
{
    if g.len() == 0 {
        Seq::empty()
    } else {
        join_contents(g.drop_last()) + match g.last() {
            Some(c) => content_text(c).push(' '),
            None => Seq::empty(),
        }
    }
}

/// The texts of the `TJ` arrays, each followed by a space.
pub open spec fn join_arrays(g: Seq<Option<Seq<char>>>) -> Seq<char>
    decreases g.len(),
{
    if g.len() == 0 {
        Seq::empty()
    } else {
        join_arrays(g.drop_last()) + match g.last() {
            Some(c) => array_text(c).push(' '),
            None => Seq::empty(),
        }
    }
}

/// What `enhanced_decode_text_stream` returns: the texts of all `Tj`
/// operands, then those of all `TJ` arrays, space-separated.
pub open spec fn stream_text(s: Seq<char>) -> Seq<char> {
    trim(
        join_contents(group_one_matches(tj_pattern(), s)) + join_arrays(
            group_one_matches(tj_array_pattern(), s),
        ),
    )
}

pub open spec fn views_of_groups(g: Seq<Option<String>>) -> Seq<Option<Seq<char>>> {
    Seq::new(g.len(), |i: int| view_of_group(g[i]))
}

/// Joins the texts of the `Tj` operands `tj` and then of the `TJ` arrays
/// `tj_arrays` (as the first groups of their matches), each followed by a
/// space, and trims the result.
pub fn join_operand_texts(tj: &Vec<Option<String>>, tj_arrays: &Vec<Option<String>>) -> (r: String)
    ensures
        r@ == trim(join_contents(views_of_groups(tj@)) + join_arrays(views_of_groups(tj_arrays@))),
{
    let mut result = String::new();
    let ghost s1 = views_of_groups(tj@);
    let n1: usize = tj.len();
    let mut i: usize = 0;
    assert(s1.subrange(0, 0) =~= Seq::<Option<Seq<char>>>::empty());
    while i < n1
        invariant
            n1 == tj@.len(),
            s1 == views_of_groups(tj@),
            i <= n1,
            result@ == join_contents(s1.subrange(0, i as int)),
        decreases n1 - i,
    {
        assert(s1.subrange(0, i + 1).drop_last() =~= s1.subrange(0, i as int));
        match &tj[i] {
            Some(c) => {
                let d = enhanced_decode_text_content(c.as_str());
                result.append(d.as_str());
                push_char(&mut result, ' ');
            },
            None => {},
        }
        assert(result@ =~= join_contents(s1.subrange(0, i + 1)));
        i = i + 1;
    }
    assert(s1.subrange(0, n1 as int) =~= s1);
    let ghost first = result@;
    let ghost s2 = views_of_groups(tj_arrays@);
    let n2: usize = tj_arrays.len();
    let mut k: usize = 0;
    assert(s2.subrange(0, 0) =~= Seq::<Option<Seq<char>>>::empty());
    assert(result@ =~= first + join_arrays(s2.subrange(0, 0)));
    while k < n2
        invariant
            n2 == tj_arrays@.len(),
            s2 == views_of_groups(tj_arrays@),
            k <= n2,
            result@ == first + join_arrays(s2.subrange(0, k as int)),
        decreases n2 - k,
    {
        assert(s2.subrange(0, k + 1).drop_last() =~= s2.subrange(0, k as int));
        match &tj_arrays[k] {
            Some(c) => {
                let d = enhanced_decode_array_content(c.as_str());
                result.append(d.as_str());
                push_char(&mut result, ' ');
            },
            None => {},
        }
        assert(result@ =~= first + join_arrays(s2.subrange(0, k + 1)));
        k = k + 1;
    }
    assert(s2.subrange(0, n2 as int) =~= s2);
    trim_white(result.as_str())
}

/// Decodes the text-show operands of a content stream.
pub fn enhanced_decode_text_stream(stream_data: &str) -> (r: String)
    ensures
        r@ == stream_text(stream_data@),
{
    let g1 = first_groups("\\(([^)]+)\\)\\s*Tj", stream_data);
    let g2 = first_groups("\\[([^\\]]+)\\]\\s*TJ", stream_data);
    assert(views_of_groups(g1@) =~= group_one_matches(tj_pattern(), stream_data@));
    assert(views_of_groups(g2@) =~= group_one_matches(tj_array_pattern(), stream_data@));
    join_operand_texts(&g1, &g2)
}

/// The characters of bytes read as UTF-8, each invalid sequence replaced by
/// the replacement character.
pub uninterp spec fn utf8_lossy(b: Seq<u8>) -> Seq<char>;

/// Relies on `String::from_utf8_lossy`: the text depends on the bytes alone,
/// and valid UTF-8 is decoded as it is.
#[verifier::external_body]
fn lossy_string(b: &[u8]) -> (r: String)
    ensures
        r@ == utf8_lossy(b@),
        valid_utf8(b@) ==> r@ == decode_utf8(b@),
{
    String::from_utf8_lossy(b).into_owned()
}

/// The text of each content stream of a document, read without its fonts.
/// Never fails.
pub fn enhanced_extract_with_cmap(pdf_data: &[u8]) -> (r: Result<Vec<String>, String>)
    ensures
        r matches Ok(pages) && {
            let streams = present(group_one_matches(stream_pattern(), utf8_lossy(pdf_data@)));
            &&& pages@.len() == streams.len()
            &&& forall|i: int|
                0 <= i < pages@.len() ==> (#[trigger] pages@[i])@ == stream_text(streams[i])
        },
{
    let pdf_str = lossy_string(pdf_data);
    let text_streams = extract_text_streams(pdf_str.as_str());
    let ghost streams = present(group_one_matches(stream_pattern(), utf8_lossy(pdf_data@)));
    let mut pages: Vec<String> = Vec::new();
    let n: usize = text_streams.len();
    let mut i: usize = 0;
    while i < n
        invariant
            n == text_streams@.len(),
            n == streams.len(),
            i <= n,
            forall|j: int| 0 <= j < n ==> (#[trigger] text_streams@[j])@ == streams[j],
            pages@.len() == i,
            forall|j: int| 0 <= j < i ==> (#[trigger] pages@[j])@ == stream_text(streams[j]),
        decreases n - i,
    {
        let page = enhanced_decode_text_stream(text_streams[i].as_str());
        pages.push(page);
        i = i + 1;
    }
    Ok(pages)
}

} // verus!
