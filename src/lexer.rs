//! Byte-level lexing of CMap lines: whitespace, `<...>` and `[...]` spans,
//! hexadecimal numbers and keywords.

use vstd::prelude::*;

verus! {

pub const LT: u8 = 60;

pub const GT: u8 = 62;

pub const LBRACKET: u8 = 91;

pub const RBRACKET: u8 = 93;

/// Whitespace as the CMap syntax knows it: tab, line feed, vertical tab,
/// form feed, carriage return and space.
pub open spec fn is_space(b: u8) -> bool {
    b == 9 || b == 10 || b == 11 || b == 12 || b == 13 || b == 32
}

pub open spec fn is_angle(b: u8) -> bool {
    b == LT || b == GT
}

/// The first index at or after `i` that holds no whitespace, or `i` itself
/// when it lies outside `s`.
pub open spec fn skip_space(s: Seq<u8>, i: int) -> int
    decreases s.len() - i,
{
    if 0 <= i < s.len() && is_space(s[i]) {
        skip_space(s, i + 1)
    } else {
        i
    }
}

/// One past the first `c` at or after `j`, or the length when there is none.
pub open spec fn close_end(s: Seq<u8>, j: int, c: u8) -> int
    decreases s.len() - j,
{
    if j >= s.len() {
        s.len() as int
    } else if s[j] == c {
        j + 1
    } else {
        close_end(s, j + 1, c)
    }
}

/// The first index at or after `j` that holds whitespace, `<` or `[`, or the
/// length when there is none.
pub open spec fn plain_end(s: Seq<u8>, j: int) -> int
    decreases s.len() - j,
{
    if j >= s.len() || is_space(s[j]) || s[j] == LT || s[j] == LBRACKET {
        j
    } else {
        plain_end(s, j + 1)
    }
}

/// The end of the token that starts at `st`: a `<...>` span and a `[...]`
/// span run to their closing bracket (or to the end of the line); any other
/// token runs to whitespace or to an opening bracket.
pub open spec fn tok_end(s: Seq<u8>, st: int) -> int {
    if s[st] == LT {
        close_end(s, st + 1, GT)
    } else if s[st] == LBRACKET {
        close_end(s, st + 1, RBRACKET)
    } else {
        plain_end(s, st + 1)
    }
}

/// The tokens of `s` from index `i` on.
pub open spec fn lex(s: Seq<u8>, i: int) -> Seq<Seq<u8>>
    decreases s.len() - i via lex_decreases
{
    let st = skip_space(s, i);
    if st < 0 || st >= s.len() {
        seq![]
    } else {
        let e = tok_end(s, st);
        seq![s.subrange(st, e)] + lex(s, e)
    }
}

pub proof fn lemma_skip_space_bounds(s: Seq<u8>, i: int)
    requires
        0 <= i,
    ensures
        i <= skip_space(s, i),
        i <= s.len() ==> skip_space(s, i) <= s.len(),
        skip_space(s, i) < s.len() ==> !is_space(s[skip_space(s, i)]),
    decreases s.len() - i,
{
    if 0 <= i < s.len() && is_space(s[i]) {
        lemma_skip_space_bounds(s, i + 1);
    }
}

pub proof fn lemma_tok_end_bounds(s: Seq<u8>, st: int)
    requires
        0 <= st < s.len(),
    ensures
        st < tok_end(s, st) <= s.len(),
{
    lemma_close_end_bounds(s, st + 1, GT);
    lemma_close_end_bounds(s, st + 1, RBRACKET);
    lemma_plain_end_bounds(s, st + 1);
}

proof fn lemma_close_end_bounds(s: Seq<u8>, j: int, c: u8)
    requires
        j <= s.len(),
    ensures
        j <= close_end(s, j, c) <= s.len(),
    decreases s.len() - j,
{
    if j < s.len() && s[j] != c {
        lemma_close_end_bounds(s, j + 1, c);
    }
}

proof fn lemma_plain_end_bounds(s: Seq<u8>, j: int)
    requires
        j <= s.len(),
    ensures
        j <= plain_end(s, j) <= s.len(),
    decreases s.len() - j,
{
    if !(j >= s.len() || is_space(s[j]) || s[j] == LT || s[j] == LBRACKET) {
        lemma_plain_end_bounds(s, j + 1);
    }
}

#[via_fn]
proof fn lex_decreases(s: Seq<u8>, i: int) {
    let st = skip_space(s, i);
    if 0 <= st < s.len() {
        if 0 <= i {
            lemma_skip_space_bounds(s, i);
        }
        lemma_tok_end_bounds(s, st);
        if i < 0 {
            assert(st == i);
        }
    }
}

pub fn is_space_byte(b: u8) -> (r: bool)
    ensures
        r == is_space(b),
{
    b == 9 || b == 10 || b == 11 || b == 12 || b == 13 || b == 32
}

/// The index of the first non-whitespace byte at or after `i`.
pub fn next_nonspace(s: &[u8], i: usize) -> (r: usize)
    requires
        i <= s@.len(),
    ensures
        r == skip_space(s@, i as int),
        i <= r <= s@.len(),
{
    let mut k: usize = i;
    while k < s.len() && is_space_byte(s[k])
        invariant
            i <= k <= s@.len(),
            skip_space(s@, k as int) == skip_space(s@, i as int),
        decreases s@.len() - k,
    {
        k = k + 1;
    }
    k
}

fn closing_end(s: &[u8], j: usize, c: u8) -> (r: usize)
    requires
        j <= s@.len(),
    ensures
        r == close_end(s@, j as int, c),
        j <= r <= s@.len(),
{
    let mut k: usize = j;
    while k < s.len() && s[k] != c
        invariant
            j <= k <= s@.len(),
            close_end(s@, k as int, c) == close_end(s@, j as int, c),
        decreases s@.len() - k,
    {
        k = k + 1;
    }
    if k < s.len() {
        k + 1
    } else {
        k
    }
}

fn plain_token_end(s: &[u8], j: usize) -> (r: usize)
    requires
        j <= s@.len(),
    ensures
        r == plain_end(s@, j as int),
        j <= r <= s@.len(),
{
    let mut k: usize = j;
    while k < s.len() && !is_space_byte(s[k]) && s[k] != LT && s[k] != LBRACKET
        invariant
            j <= k <= s@.len(),
            plain_end(s@, k as int) == plain_end(s@, j as int),
        decreases s@.len() - k,
    {
        k = k + 1;
    }
    k
}

/// The end of the token that starts at `st`.
pub fn token_end(s: &[u8], st: usize) -> (r: usize)
    requires
        st < s@.len(),
    ensures
        r == tok_end(s@, st as int),
        st < r <= s@.len(),
{
    if s[st] == LT {
        closing_end(s, st + 1, GT)
    } else if s[st] == LBRACKET {
        closing_end(s, st + 1, RBRACKET)
    } else {
        plain_token_end(s, st + 1)
    }
}


/// The first index at or after `i` that holds neither `<` nor `>`.
pub open spec fn angle_start(s: Seq<u8>, i: int) -> int
    decreases s.len() - i,
{
    if 0 <= i < s.len() && is_angle(s[i]) {
        angle_start(s, i + 1)
    } else {
        i
    }
}

/// The end of `s.subrange(0, j)` once trailing `<` and `>` are dropped.
pub open spec fn angle_end(s: Seq<u8>, j: int) -> int
    decreases j,
{
    if 0 < j <= s.len() && is_angle(s[j - 1]) {
        angle_end(s, j - 1)
    } else {
        j
    }
}

/// `s` without its leading and trailing `<` and `>` bytes.
pub open spec fn strip_angles(s: Seq<u8>) -> Seq<u8> {
    let a = angle_start(s, 0);
    if a >= s.len() {
        Seq::empty()
    } else {
        s.subrange(a, angle_end(s, s.len() as int))
    }
}

/// `s` without its leading and trailing `<` and `>` bytes.
pub fn strip_angle_brackets(s: &[u8]) -> (r: Vec<u8>)
    ensures
        r@ == strip_angles(s@),
{
    let mut a: usize = 0;
    while a < s.len() && (s[a] == LT || s[a] == GT)
        invariant
            a <= s@.len(),
            angle_start(s@, a as int) == angle_start(s@, 0),
        decreases s@.len() - a,
    {
        a = a + 1;
    }
    if a >= s.len() {
        return Vec::new();
    }
    let mut b: usize = s.len();
    while b > a + 1 && (s[b - 1] == LT || s[b - 1] == GT)
        invariant
            a < b <= s@.len(),
            !is_angle(s@[a as int]),
            angle_end(s@, b as int) == angle_end(s@, s@.len() as int),
        decreases b,
    {
        b = b - 1;
    }
    copy_range(s, a, b)
}

/// The bytes `s[lo..hi]` as a vector.
pub fn copy_range(s: &[u8], lo: usize, hi: usize) -> (r: Vec<u8>)
    requires
        lo <= hi <= s@.len(),
    ensures
        r@ == s@.subrange(lo as int, hi as int),
{
    let mut r: Vec<u8> = Vec::new();
    let mut k: usize = lo;
    while k < hi
        invariant
            lo <= k <= hi <= s@.len(),
            r@ == s@.subrange(lo as int, k as int),
        decreases hi - k,
    {
        r.push(s[k]);
        k = k + 1;
    }
    r
}

pub open spec fn is_hex_digit(b: u8) -> bool {
    (48 <= b <= 57) || (65 <= b <= 70) || (97 <= b <= 102)
}

pub open spec fn hex_digit_value(b: u8) -> nat {
    if 48 <= b <= 57 {
        (b - 48) as nat
    } else if 65 <= b <= 70 {
        (b - 55) as nat
    } else {
        (b - 87) as nat
    }
}

pub open spec fn all_hex(s: Seq<u8>) -> bool {
    forall|i: int| 0 <= i < s.len() ==> is_hex_digit(#[trigger] s[i])
}

/// The number that the hexadecimal digits `s` write, most significant first.
pub open spec fn hex_value(s: Seq<u8>) -> nat
    decreases s.len(),
{
    if s.len() == 0 {
        0
    } else {
        hex_value(s.drop_last()) * 16 + hex_digit_value(s.last())
    }
}

/// A character code written in hexadecimal: one or more digits of any width
/// whose value fits in 32 bits.
pub open spec fn parse_code(s: Seq<u8>) -> Option<u32> {
    if s.len() > 0 && all_hex(s) && hex_value(s) <= u32::MAX {
        Some(hex_value(s) as u32)
    } else {
        None
    }
}

pub fn hex_digit(b: u8) -> (r: Option<u8>)
    ensures
        r.is_some() == is_hex_digit(b),
        r matches Some(d) ==> d as nat == hex_digit_value(b) && d < 16,
{
    if 48 <= b && b <= 57 {
        Some(b - 48)
    } else if 65 <= b && b <= 70 {
        Some(b - 55)
    } else if 97 <= b && b <= 102 {
        Some(b - 87)
    } else {
        None
    }
}

proof fn lemma_hex_value_prefix(s: Seq<u8>, i: int)
    requires
        0 <= i <= s.len(),
    ensures
        hex_value(s.subrange(0, i)) <= hex_value(s),
    decreases s.len() - i,
{
    if i < s.len() {
        lemma_hex_value_prefix(s, i + 1);
        assert(s.subrange(0, i + 1).drop_last() =~= s.subrange(0, i));
    } else {
        assert(s.subrange(0, i) =~= s);
    }
}

/// The code that the hexadecimal digits `s` write, if it fits in 32 bits.
pub fn parse_hex_code(s: &[u8]) -> (r: Option<u32>)
    ensures
        r == parse_code(s@),
{
    if s.len() == 0 {
        return None;
    }
    let mut acc: u32 = 0;
    let mut k: usize = 0;
    while k < s.len()
        invariant
            k <= s@.len(),
            acc as nat == hex_value(s@.subrange(0, k as int)),
            all_hex(s@.subrange(0, k as int)),
        decreases s@.len() - k,
    {
        assert(s@.subrange(0, k as int + 1).drop_last() =~= s@.subrange(0, k as int));
        match hex_digit(s[k]) {
            None => {
                assert(!all_hex(s@));
                return None;
            },
            Some(d) => {
                if acc > 0x0FFF_FFFF {
                    proof {
                        lemma_hex_value_prefix(s@, k as int + 1);
                    }
                    return None;
                }
                acc = acc * 16 + d as u32;
            },
        }
        k = k + 1;
    }
    assert(s@.subrange(0, k as int) =~= s@);
    Some(acc)
}


/// `kw` occurs in `s` at index `i`.
pub open spec fn occurs_at(s: Seq<u8>, i: int, kw: Seq<u8>) -> bool {
    0 <= i && i + kw.len() <= s.len() && s.subrange(i, i + kw.len()) == kw
}

pub open spec fn contains(s: Seq<u8>, kw: Seq<u8>) -> bool {
    exists|i: int| occurs_at(s, i, kw)
}

/// The length of `s.subrange(0, j)` once trailing whitespace is dropped.
pub open spec fn trim_end_len(s: Seq<u8>, j: int) -> int
    decreases j,
{
    if 0 < j <= s.len() && is_space(s[j - 1]) {
        trim_end_len(s, j - 1)
    } else {
        j
    }
}

/// `s`, once trailing whitespace is dropped, ends with `kw`.
pub open spec fn ends_with_trimmed(s: Seq<u8>, kw: Seq<u8>) -> bool {
    let e = trim_end_len(s, s.len() as int);
    kw.len() <= e && occurs_at(s, e - kw.len(), kw)
}

fn occurs_at_exec(s: &[u8], i: usize, kw: &[u8]) -> (r: bool)
    requires
        i + kw@.len() <= s@.len(),
    ensures
        r == occurs_at(s@, i as int, kw@),
{
    let n: usize = s.len();
    let mut k: usize = 0;
    while k < kw.len()
        invariant
            k <= kw@.len(),
            i + kw@.len() <= s@.len(),
            n == s@.len(),
            s@.subrange(i as int, i + k) == kw@.subrange(0, k as int),
        decreases kw@.len() - k,
    {
        if s[i + k] != kw[k] {
            assert(s@.subrange(i as int, i + kw@.len())[k as int] != kw@[k as int]);
            return false;
        }
        assert(s@.subrange(i as int, i + k + 1) =~= kw@.subrange(0, k + 1));
        k = k + 1;
    }
    assert(kw@.subrange(0, k as int) =~= kw@);
    true
}

/// Whether `kw` occurs anywhere in `s`.
pub fn contains_bytes(s: &[u8], kw: &[u8]) -> (r: bool)
    ensures
        r == contains(s@, kw@),
{
    if kw.len() > s.len() {
        return false;
    }
    let last: usize = s.len() - kw.len();
    let mut i: usize = 0;
    while i < last
        invariant
            last + kw@.len() == s@.len(),
            i <= last,
            forall|j: int| 0 <= j < i ==> !occurs_at(s@, j, kw@),
        decreases last - i,
    {
        if occurs_at_exec(s, i, kw) {
            return true;
        }
        i = i + 1;
    }
    occurs_at_exec(s, last, kw)
}

/// Whether `s`, once trailing whitespace is dropped, ends with `kw`.
pub fn ends_with_trimmed_exec(s: &[u8], kw: &[u8]) -> (r: bool)
    ensures
        r == ends_with_trimmed(s@, kw@),
{
    let mut e: usize = s.len();
    while e > 0 && is_space_byte(s[e - 1])
        invariant
            e <= s@.len(),
            trim_end_len(s@, e as int) == trim_end_len(s@, s@.len() as int),
        decreases e,
    {
        e = e - 1;
    }
    if kw.len() > e {
        false
    } else {
        occurs_at_exec(s, e - kw.len(), kw)
    }
}

} // verus!
