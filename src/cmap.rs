//! The CMap table builder: `bfchar` and `bfrange` blocks of a ToUnicode
//! CMap, read line by line into a table from character code to text.

use std::collections::HashMap;

use vstd::prelude::*;
use vstd::string::StrSliceExecFns;

use crate::lexer::{contains, contains_bytes, copy_range, ends_with_trimmed,
    ends_with_trimmed_exec, lex, next_nonspace, parse_code, parse_hex_code, skip_space,
    strip_angle_brackets, strip_angles, tok_end, token_end, LBRACKET, LT, RBRACKET};
use crate::text::{push_char, scalar_char, scalar_or_replacement};
use crate::utf16::{dest_text, parse_cmap_hex_to_string};

verus! {

broadcast use vstd::std_specs::hash::group_hash_axioms;

/// The largest number of codes that one `bfrange` entry may cover; an entry
/// that covers more is rejected.
pub const MAX_RANGE_SPAN: u32 = 65536;

/// The block that a line of a CMap stands in.
#[derive(PartialEq, Eq, Structural, Clone, Copy, Debug)]
pub enum Block {
    Outside,
    Chars,
    Ranges,
}

pub open spec fn begin_bfchar() -> Seq<u8> {
    seq![98u8, 101, 103, 105, 110, 98, 102, 99, 104, 97, 114]
}

pub open spec fn begin_bfrange() -> Seq<u8> {
    seq![98u8, 101, 103, 105, 110, 98, 102, 114, 97, 110, 103, 101]
}

pub open spec fn end_bfchar() -> Seq<u8> {
    seq![101u8, 110, 100, 98, 102, 99, 104, 97, 114]
}

pub open spec fn end_bfrange() -> Seq<u8> {
    seq![101u8, 110, 100, 98, 102, 114, 97, 110, 103, 101]
}

/// What a table of `String`s says, character by character.
pub open spec fn table_view(h: Map<u32, String>) -> Map<u32, Seq<char>> {
    Map::new(|k: u32| h.dom().contains(k), |k: u32| h[k]@)
}

/// The block that a line outside every block opens, if any.
pub open spec fn opened_by(line: Seq<u8>) -> Block {
    if contains(line, begin_bfchar()) {
        Block::Chars
    } else if contains(line, begin_bfrange()) {
        Block::Ranges
    } else {
        Block::Outside
    }
}

/// Inside a block, only a line whose first non-blank byte is `<` holds an
/// entry.
pub open spec fn is_entry_line(line: Seq<u8>) -> bool {
    let st = skip_space(line, 0);
    0 <= st < line.len() && line[st] == LT
}

/// A `bfchar` entry `<src> <dst>`: the code `src` maps to the text of `dst`.
pub open spec fn char_entry(m: Map<u32, Seq<char>>, line: Seq<u8>) -> Map<u32, Seq<char>> {
    let t = lex(line, 0);
    if is_entry_line(line) && t.len() >= 2 {
        match (parse_code(strip_angles(t[0])), dest_text(t[1])) {
            (Some(c), Some(v)) => m.insert(c, v),
            _ => m,
        }
    } else {
        m
    }
}

/// A range `[lo, hi]` is accepted when it covers at most `MAX_RANGE_SPAN`
/// codes (an empty range, `hi < lo`, covers none).
pub open spec fn span_ok(lo: u32, hi: u32) -> bool {
    hi < lo || hi - lo < MAX_RANGE_SPAN
}

/// The bytes of a `[...]` token between its brackets.
pub open spec fn array_inner(t: Seq<u8>) -> Seq<u8> {
    if t.len() >= 2 && t.last() == RBRACKET {
        t.subrange(1, t.len() - 1)
    } else {
        t.subrange(1, t.len() as int)
    }
}

/// The `i`-th element of `elems` gives the text of code `code + i`, for the
/// codes up to `hi`; an element that is no valid destination leaves its code
/// unmapped.
pub open spec fn fill_array(m: Map<u32, Seq<char>>, code: int, hi: int, elems: Seq<Seq<u8>>) -> Map<
    u32,
    Seq<char>,
>
    decreases elems.len(),
{
    if elems.len() == 0 || code > hi {
        m
    } else {
        let m2 = match dest_text(elems[0]) {
            Some(v) => m.insert(code as u32, v),
            None => m,
        };
        fill_array(m2, code + 1, hi, elems.drop_first())
    }
}

/// The text `v` with its last character's code raised by `k`; a code that is
/// no scalar value gives the replacement character.
pub open spec fn bump(v: Seq<char>, k: int) -> Seq<char> {
    if v.len() == 0 {
        v
    } else {
        v.drop_last().push(scalar_or_replacement(v.last() as u32 + k))
    }
}

/// Code `c` of `[lo, hi]` maps to `v` bumped by `c - lo`.
pub open spec fn fill_range(m: Map<u32, Seq<char>>, lo: u32, hi: u32, v: Seq<char>) -> Map<
    u32,
    Seq<char>,
> {
    m.union_prefer_right(Map::new(|c: u32| lo <= c <= hi, |c: u32| bump(v, c - lo)))
}

/// A `bfrange` entry `<lo> <hi> dst`, where `dst` is a `[...]` array of
/// destinations or one destination whose last character counts up.
pub open spec fn range_entry(m: Map<u32, Seq<char>>, line: Seq<u8>) -> Map<u32, Seq<char>> {
    let t = lex(line, 0);
    if is_entry_line(line) && t.len() >= 3 {
        match (parse_code(strip_angles(t[0])), parse_code(strip_angles(t[1]))) {
            (Some(lo), Some(hi)) => if !span_ok(lo, hi) {
                m
            } else if t[2][0] == LBRACKET {
                fill_array(m, lo as int, hi as int, lex(array_inner(t[2]), 0))
            } else {
                match dest_text(t[2]) {
                    Some(v) => fill_range(m, lo, hi, v),
                    None => m,
                }
            },
            _ => m,
        }
    } else {
        m
    }
}

/// One line of a CMap read in block `b`: the block of the next line and the
/// table after this one.
pub open spec fn step(b: Block, m: Map<u32, Seq<char>>, line: Seq<u8>) -> (Block, Map<
    u32,
    Seq<char>,
>) {
    match b {
        Block::Outside => (opened_by(line), m),
        Block::Chars => if ends_with_trimmed(line, end_bfchar()) {
            (opened_by(line), m)
        } else {
            (Block::Chars, char_entry(m, line))
        },
        Block::Ranges => if ends_with_trimmed(line, end_bfrange()) {
            (opened_by(line), m)
        } else {
            (Block::Ranges, range_entry(m, line))
        },
    }
}

/// The lines of `s` from the one that starts at `start`, read from block `b`
/// with table `m`; `pos` is how far the current line has been scanned.
pub open spec fn scan(s: Seq<u8>, pos: int, start: int, b: Block, m: Map<u32, Seq<char>>) -> Map<
    u32,
    Seq<char>,
>
    decreases s.len() - pos,
{
    if pos >= s.len() {
        if start < s.len() {
            step(b, m, s.subrange(start, s.len() as int)).1
        } else {
            m
        }
    } else if s[pos] == 10 {
        let (b2, m2) = step(b, m, s.subrange(start, pos));
        scan(s, pos + 1, pos + 1, b2, m2)
    } else {
        scan(s, pos + 1, start, b, m)
    }
}

/// The table that a CMap's bytes define: its lines (split at line feeds) read
/// in order from outside every block, later entries replacing earlier ones.
pub open spec fn cmap_table(s: Seq<u8>) -> Map<u32, Seq<char>> {
    scan(s, 0, 0, Block::Outside, Map::empty())
}

proof fn lemma_view_insert(h: Map<u32, String>, k: u32, v: String)
    ensures
        table_view(h.insert(k, v)) == table_view(h).insert(k, v@),
{
    assert(table_view(h.insert(k, v)) =~= table_view(h).insert(k, v@));
}

fn insert_text(map: &mut HashMap<u32, String>, k: u32, v: String)
    ensures
        table_view(final(map)@) == table_view(old(map)@).insert(k, v@),
{
    proof {
        lemma_view_insert(map@, k, v);
    }
    map.insert(k, v);
}


fn begin_bfchar_bytes() -> (r: Vec<u8>)
    ensures
        r@ == begin_bfchar(),
{
    let r = vec![98u8, 101, 103, 105, 110, 98, 102, 99, 104, 97, 114];
    assert(r@ =~= begin_bfchar());
    r
}

fn begin_bfrange_bytes() -> (r: Vec<u8>)
    ensures
        r@ == begin_bfrange(),
{
    let r = vec![98u8, 101, 103, 105, 110, 98, 102, 114, 97, 110, 103, 101];
    assert(r@ =~= begin_bfrange());
    r
}

fn end_bfchar_bytes() -> (r: Vec<u8>)
    ensures
        r@ == end_bfchar(),
{
    let r = vec![101u8, 110, 100, 98, 102, 99, 104, 97, 114];
    assert(r@ =~= end_bfchar());
    r
}

fn end_bfrange_bytes() -> (r: Vec<u8>)
    ensures
        r@ == end_bfrange(),
{
    let r = vec![101u8, 110, 100, 98, 102, 114, 97, 110, 103, 101];
    assert(r@ =~= end_bfrange());
    r
}

/// The block that a line outside every block opens.
fn block_opened_by(line: &[u8]) -> (r: Block)
    ensures
        r == opened_by(line@),
{
    if contains_bytes(line, begin_bfchar_bytes().as_slice()) {
        Block::Chars
    } else if contains_bytes(line, begin_bfrange_bytes().as_slice()) {
        Block::Ranges
    } else {
        Block::Outside
    }
}

/// Adds the entry of a `bfchar` line to the table.
fn read_char_entry(map: &mut HashMap<u32, String>, line: &[u8])
    ensures
        table_view(final(map)@) == char_entry(table_view(old(map)@), line@),
{
    let st0 = next_nonspace(line, 0);
    if st0 >= line.len() || line[st0] != LT {
        return;
    }
    let e0 = token_end(line, st0);
    let st1 = next_nonspace(line, e0);
    proof {
        lemma_lex_unfold(line@, 0);
        lemma_lex_unfold(line@, e0 as int);
    }
    if st1 >= line.len() {
        return;
    }
    let e1 = token_end(line, st1);
    let t0 = copy_range(line, st0, e0);
    let t1 = copy_range(line, st1, e1);
    let code = parse_hex_code(strip_angle_brackets(t0.as_slice()).as_slice());
    let dest = parse_cmap_hex_to_string(t1.as_slice());
    match (code, dest) {
        (Some(c), Some(v)) => insert_text(map, c, v),
        _ => {},
    }
}

/// `lex` taken one token at a time.
proof fn lemma_lex_unfold(s: Seq<u8>, i: int)
    requires
        0 <= i <= s.len(),
    ensures
        skip_space(s, i) >= s.len() ==> lex(s, i) == Seq::<Seq<u8>>::empty(),
        skip_space(s, i) < s.len() ==> lex(s, i) == seq![
            s.subrange(skip_space(s, i), tok_end(s, skip_space(s, i))),
        ] + lex(s, tok_end(s, skip_space(s, i))),
{
    crate::lexer::lemma_skip_space_bounds(s, i);
}


/// `v` with its last character's code raised by `k`.
fn bumped(v: &String, k: u32) -> (r: String)
    requires
        k < MAX_RANGE_SPAN,
    ensures
        r@ == bump(v@, k as int),
{
    let n = v.as_str().unicode_len();
    if n == 0 {
        return v.as_str().to_owned();
    }
    let last = v.as_str().get_char(n - 1);
    let mut r = v.as_str().substring_char(0, n - 1).to_owned();
    proof {
        vstd::utf8::char_is_scalar(last);
    }
    let c = scalar_char(last as u32 + k);
    push_char(&mut r, c);
    assert(r@ =~= bump(v@, k as int));
    r
}

/// Maps each code of `[lo, hi]` to `v`, its last character counting up.
fn fill_range_exec(map: &mut HashMap<u32, String>, lo: u32, hi: u32, v: &String)
    requires
        span_ok(lo, hi),
    ensures
        table_view(final(map)@) == fill_range(table_view(old(map)@), lo, hi, v@),
{
    let ghost m0 = table_view(map@);
    if hi < lo {
        assert(fill_range(m0, lo, hi, v@) =~= m0);
        return;
    }
    let count: u32 = hi - lo + 1;
    let mut k: u32 = 0;
    while k < count
        invariant
            lo <= hi,
            count == hi - lo + 1,
            count <= MAX_RANGE_SPAN,
            k <= count,
            table_view(map@) == m0.union_prefer_right(
                Map::new(|c: u32| lo <= c < lo + k, |c: u32| bump(v@, c - lo)),
            ),
        decreases count - k,
    {
        let t = bumped(v, k);
        insert_text(map, lo + k, t);
        assert(table_view(map@) =~= m0.union_prefer_right(
            Map::new(|c: u32| lo <= c < lo + k + 1, |c: u32| bump(v@, c - lo)),
        ));
        k = k + 1;
    }
    assert(table_view(map@) =~= fill_range(m0, lo, hi, v@));
}

/// Maps the codes from `lo` on, up to `hi`, to the destinations of the array
/// whose elements are the tokens of `inner`.
fn fill_array_exec(map: &mut HashMap<u32, String>, lo: u32, hi: u32, inner: &[u8])
    ensures
        table_view(final(map)@) == fill_array(table_view(old(map)@), lo as int, hi as int, lex(inner@, 0)),
{
    let ghost m0 = table_view(map@);
    let mut code: u64 = lo as u64;
    let mut p: usize = 0;
    loop
        invariant
            p <= inner@.len(),
            lo <= code <= 0x1_0000_0000,
            m0 == table_view(old(map)@),
            fill_array(table_view(map@), code as int, hi as int, lex(inner@, p as int))
                == fill_array(m0, lo as int, hi as int, lex(inner@, 0)),
        decreases inner@.len() - p,
    {
        proof {
            lemma_lex_unfold(inner@, p as int);
        }
        if code > hi as u64 {
            return;
        }
        let st = next_nonspace(inner, p);
        if st >= inner.len() {
            return;
        }
        let e = token_end(inner, st);
        let tok = copy_range(inner, st, e);
        let ghost elems = lex(inner@, p as int);
        assert(elems.drop_first() =~= lex(inner@, e as int));
        match parse_cmap_hex_to_string(tok.as_slice()) {
            Some(v) => insert_text(map, code as u32, v),
            None => {},
        }
        code = code + 1;
        p = e;
    }
}

/// Adds the entries of a `bfrange` line to the table.
fn read_range_entry(map: &mut HashMap<u32, String>, line: &[u8])
    ensures
        table_view(final(map)@) == range_entry(table_view(old(map)@), line@),
{
    let st0 = next_nonspace(line, 0);
    if st0 >= line.len() || line[st0] != LT {
        return;
    }
    let e0 = token_end(line, st0);
    let st1 = next_nonspace(line, e0);
    proof {
        lemma_lex_unfold(line@, 0);
        lemma_lex_unfold(line@, e0 as int);
    }
    if st1 >= line.len() {
        return;
    }
    let e1 = token_end(line, st1);
    let st2 = next_nonspace(line, e1);
    proof {
        lemma_lex_unfold(line@, e1 as int);
    }
    if st2 >= line.len() {
        return;
    }
    let e2 = token_end(line, st2);
    let t0 = copy_range(line, st0, e0);
    let t1 = copy_range(line, st1, e1);
    let lo = parse_hex_code(strip_angle_brackets(t0.as_slice()).as_slice());
    let hi = parse_hex_code(strip_angle_brackets(t1.as_slice()).as_slice());
    match (lo, hi) {
        (Some(lo), Some(hi)) => {
            if hi >= lo && hi - lo >= MAX_RANGE_SPAN {
                return;
            }
            let t2 = copy_range(line, st2, e2);
            if line[st2] == LBRACKET {
                let n = t2.len();
                let inner = if n >= 2 && t2[n - 1] == RBRACKET {
                    copy_range(t2.as_slice(), 1, n - 1)
                } else {
                    copy_range(t2.as_slice(), 1, n)
                };
                fill_array_exec(map, lo, hi, inner.as_slice());
            } else {
                match parse_cmap_hex_to_string(t2.as_slice()) {
                    Some(v) => fill_range_exec(map, lo, hi, &v),
                    None => {},
                }
            }
        },
        _ => {},
    }
}


/// Reads one line in block `b` and returns the block of the next line.
fn read_line(map: &mut HashMap<u32, String>, b: Block, line: &[u8]) -> (r: Block)
    ensures
        (r, table_view(final(map)@)) == step(b, table_view(old(map)@), line@),
{
    match b {
        Block::Outside => block_opened_by(line),
        Block::Chars => {
            if ends_with_trimmed_exec(line, end_bfchar_bytes().as_slice()) {
                block_opened_by(line)
            } else {
                read_char_entry(map, line);
                Block::Chars
            }
        },
        Block::Ranges => {
            if ends_with_trimmed_exec(line, end_bfrange_bytes().as_slice()) {
                block_opened_by(line)
            } else {
                read_range_entry(map, line);
                Block::Ranges
            }
        },
    }
}

/// Builds the table of a ToUnicode CMap from its bytes. Lines are split at
/// line feeds; `bfchar` and `bfrange` blocks add entries, later ones
/// replacing earlier ones for the same code, and everything else is ignored.
/// Never fails: bytes without a usable entry give an empty table.
pub fn parse_cmap(cmap_data: &[u8]) -> (r: HashMap<u32, String>)
    ensures
        table_view(r@) == cmap_table(cmap_data@),
{
    let mut map: HashMap<u32, String> = HashMap::new();
    assert(table_view(map@) =~= Map::empty());
    let mut b = Block::Outside;
    let n: usize = cmap_data.len();
    let mut start: usize = 0;
    let mut pos: usize = 0;
    while pos < n
        invariant
            n == cmap_data@.len(),
            start <= pos <= n,
            scan(cmap_data@, pos as int, start as int, b, table_view(map@)) == cmap_table(
                cmap_data@,
            ),
        decreases n - pos,
    {
        if cmap_data[pos] == 10 {
            let line = copy_range(cmap_data, start, pos);
            b = read_line(&mut map, b, line.as_slice());
            start = pos + 1;
        }
        pos = pos + 1;
    }
    if start < n {
        let line = copy_range(cmap_data, start, n);
        b = read_line(&mut map, b, line.as_slice());
    }
    map
}


/// Building is deterministic: two tables built from the same bytes hold the
/// same text for every code.
pub proof fn lemma_build_deterministic(data: Seq<u8>, t1: Map<u32, String>, t2: Map<u32, String>)
    requires
        table_view(t1) == cmap_table(data),
        table_view(t2) == cmap_table(data),
    ensures
        table_view(t1) == table_view(t2),
        forall|c: u32| #[trigger] t1.contains_key(c) <==> t2.contains_key(c),
        forall|c: u32| #[trigger] t1.contains_key(c) ==> t1[c]@ == t2[c]@,
{
    assert forall|c: u32| #[trigger] t1.contains_key(c) <==> t2.contains_key(c) by {
        assert(table_view(t1).contains_key(c) == t1.contains_key(c));
        assert(table_view(t2).contains_key(c) == t2.contains_key(c));
    }
    assert forall|c: u32| #[trigger] t1.contains_key(c) implies t1[c]@ == t2[c]@ by {
        assert(table_view(t1)[c] == t1[c]@);
        assert(table_view(t2)[c] == t2[c]@);
    }
}

/// A `bfrange` entry whose range covers more than `MAX_RANGE_SPAN` codes is
/// rejected: the table stays as it was.
pub proof fn lemma_oversized_range_rejected(m: Map<u32, Seq<char>>, line: Seq<u8>)
    requires
        lex(line, 0).len() >= 3,
        parse_code(strip_angles(lex(line, 0)[0])) matches Some(lo) && parse_code(
            strip_angles(lex(line, 0)[1]),
        ) matches Some(hi) && lo <= hi && hi - lo >= MAX_RANGE_SPAN,
    ensures
        range_entry(m, line) == m,
{
}

/// Inside a `bfrange` block, an oversized range leaves the table unchanged
/// and the block open.
pub proof fn lemma_oversized_range_line(m: Map<u32, Seq<char>>, line: Seq<u8>)
    requires
        !ends_with_trimmed(line, end_bfrange()),
        lex(line, 0).len() >= 3,
        parse_code(strip_angles(lex(line, 0)[0])) matches Some(lo) && parse_code(
            strip_angles(lex(line, 0)[1]),
        ) matches Some(hi) && lo <= hi && hi - lo >= MAX_RANGE_SPAN,
    ensures
        step(Block::Ranges, m, line) == (Block::Ranges, m),
{
    lemma_oversized_range_rejected(m, line);
}

} // verus!
