use std::collections::HashMap;

use cmap_decode::cmap::parse_cmap;
use cmap_decode::utf16::parse_cmap_hex_to_string;

fn table(entries: &[(u32, &str)]) -> HashMap<u32, String> {
    entries.iter().map(|(k, v)| (*k, v.to_string())).collect()
}

#[test]
fn bfchar_single_entry() {
    let t = parse_cmap(b"beginbfchar\n<0041> <0042>\nendbfchar");
    assert_eq!(t, table(&[(0x41, "B")]));
}

#[test]
fn bfrange_array_form() {
    let t = parse_cmap(b"beginbfrange\n<0000> <0002> [<0041> <0042> <0043>]\nendbfrange");
    assert_eq!(t, table(&[(0, "A"), (1, "B"), (2, "C")]));
}

#[test]
fn bfrange_single_destination_counts_up() {
    let t = parse_cmap(b"beginbfrange\n<0000> <0002> <0041>\nendbfrange");
    assert_eq!(t, table(&[(0, "A"), (1, "B"), (2, "C")]));
}

#[test]
fn bfrange_array_without_spaces() {
    let t = parse_cmap(b"beginbfrange\n<0010> <0011> [<0061><0062>]\nendbfrange\n");
    assert_eq!(t, table(&[(0x10, "a"), (0x11, "b")]));
}

#[test]
fn bfrange_array_shorter_than_range() {
    let t = parse_cmap(b"beginbfrange\n<0000> <0005> [<0041> <0042>]\nendbfrange");
    assert_eq!(t, table(&[(0, "A"), (1, "B")]));
}

#[test]
fn bfrange_array_longer_than_range_stops_at_end() {
    let t = parse_cmap(b"beginbfrange\n<0000> <0001> [<0041> <0042> <0043>]\nendbfrange");
    assert_eq!(t, table(&[(0, "A"), (1, "B")]));
}

#[test]
fn bfrange_array_bad_element_keeps_position() {
    let t = parse_cmap(b"beginbfrange\n<0000> <0002> [<0041> <00ZZ> <0043>]\nendbfrange");
    assert_eq!(t, table(&[(0, "A"), (2, "C")]));
}

#[test]
fn surrogate_pair_destination() {
    let s = parse_cmap_hex_to_string(b"<D83DDE00>").unwrap();
    assert_eq!(s, "\u{1F600}");
    assert_eq!(s.chars().count(), 1);
}

#[test]
fn lone_high_surrogate_then_more() {
    let s = parse_cmap_hex_to_string(b"<D83D0041>").unwrap();
    assert_eq!(s, "\u{FFFD}A");
}

#[test]
fn lone_high_surrogate_at_end() {
    assert_eq!(parse_cmap_hex_to_string(b"<0041D800>").unwrap(), "A\u{FFFD}");
}

#[test]
fn lone_low_surrogate() {
    assert_eq!(parse_cmap_hex_to_string(b"<DC000042>").unwrap(), "\u{FFFD}B");
}

#[test]
fn destination_with_bad_chunk_is_dropped() {
    assert_eq!(parse_cmap_hex_to_string(b"<00410G42>"), None);
    assert_eq!(parse_cmap_hex_to_string(b"<00410>"), None);
    let t = parse_cmap(b"beginbfchar\n<01> <00410G42>\n<02> <0043>\nendbfchar");
    assert_eq!(t, table(&[(2, "C")]));
}

#[test]
fn empty_destination_gives_empty_text() {
    assert_eq!(parse_cmap_hex_to_string(b"<>").unwrap(), "");
}

#[test]
fn multi_unit_destination() {
    assert_eq!(parse_cmap_hex_to_string(b"<00660069>").unwrap(), "fi");
}

#[test]
fn build_is_deterministic() {
    let data: &[u8] = b"beginbfchar\n<01> <0041>\n<02> <0042>\nendbfchar\nbeginbfrange\n<10> <12> <0061>\nendbfrange\n";
    let a = parse_cmap(data);
    let b = parse_cmap(data);
    assert_eq!(a, b);
    assert_eq!(a.len(), 5);
}

#[test]
fn oversized_range_is_rejected() {
    let t = parse_cmap(b"beginbfrange\n<00000000> <FFFFFFFF> <0041>\nendbfrange");
    assert!(t.is_empty());
    let t = parse_cmap(b"beginbfrange\n<0000> <10000> <0041>\n<0005> <0005> <0042>\nendbfrange");
    assert_eq!(t, table(&[(5, "B")]));
}

#[test]
fn largest_accepted_range() {
    let t = parse_cmap(b"beginbfrange\n<0000> <FFFF> <0041>\nendbfrange");
    assert_eq!(t.len(), 65536);
    assert_eq!(t[&0], "A");
    assert_eq!(t[&1], "B");
}

#[test]
fn empty_input_gives_empty_table() {
    assert!(parse_cmap(b"").is_empty());
    assert!(parse_cmap(b"<0041> <0042>\n").is_empty());
}

#[test]
fn later_entry_wins() {
    let t = parse_cmap(b"beginbfchar\n<41> <0041>\n<41> <0062>\nendbfchar");
    assert_eq!(t, table(&[(0x41, "b")]));
}

#[test]
fn blocks_repeat_and_crlf_lines() {
    let t = parse_cmap(
        b"1 beginbfchar\r\n<03> <0020>\r\nendbfchar\r\n1 beginbfchar\r\n<04> <0021>\r\nendbfchar\r\n",
    );
    assert_eq!(t, table(&[(3, " "), (4, "!")]));
}

#[test]
fn non_entry_lines_are_ignored() {
    let t = parse_cmap(b"beginbfchar\n% comment\n  <05> <0045>\nendbfchar\n<06> <0046>\n");
    assert_eq!(t, table(&[(5, "E")]));
}

#[test]
fn wide_source_code() {
    let t = parse_cmap(b"beginbfchar\n<00000102> <0041>\n<100000000> <0042>\nendbfchar");
    assert_eq!(t, table(&[(0x102, "A")]));
}

#[test]
fn range_counts_last_character_only() {
    let t = parse_cmap(b"beginbfrange\n<01> <02> <00660069>\nendbfrange");
    assert_eq!(t, table(&[(1, "fi"), (2, "fj")]));
}

#[test]
fn range_into_surrogate_gap_gives_replacement() {
    let t = parse_cmap(b"beginbfrange\n<01> <02> <D7FF>\nendbfrange");
    assert_eq!(t, table(&[(1, "\u{D7FF}"), (2, "\u{FFFD}")]));
}

#[test]
fn range_past_ffff_has_no_carry() {
    let t = parse_cmap(b"beginbfrange\n<01> <02> <0041FFFF>\nendbfrange");
    assert_eq!(t, table(&[(1, "A\u{FFFF}"), (2, "A\u{10000}")]));
}

#[test]
fn reversed_range_is_empty() {
    assert!(parse_cmap(b"beginbfrange\n<05> <02> <0041>\nendbfrange").is_empty());
}
