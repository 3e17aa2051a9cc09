use velotype::ime::{
    utf16_offset_to_utf8, utf16_range_to_utf8_in, utf8_offset_to_utf16, utf8_range_to_utf16_in,
};

#[test]
fn ime_utf16_ranges_keep_multilingual_boundaries() {
    let text = "中文😀かな";
    let emoji_utf8 = ("中文".len(), "中文😀".len());
    assert_eq!(utf16_range_to_utf8_in(text, 2, 4), emoji_utf8);
    assert_eq!(utf8_range_to_utf16_in(text, emoji_utf8.0, emoji_utf8.1), (2, 4));
}

#[test]
fn offsets_inside_a_character_pass_it_whole() {
    assert_eq!(utf16_offset_to_utf8("😀a", 1), 4);
    assert_eq!(utf8_offset_to_utf16("中a", 1), 1);
    assert_eq!(utf16_offset_to_utf8("ab", 10), 2);
    assert_eq!(utf8_offset_to_utf16("ab", 0), 0);
}

#[test]
fn every_character_boundary_converts_back() {
    let text = "a😀中b";
    let mut utf8 = 0;
    let mut utf16 = 0;
    for ch in text.chars() {
        assert_eq!(utf16_offset_to_utf8(text, utf16), utf8);
        assert_eq!(utf8_offset_to_utf16(text, utf8), utf16);
        utf8 += ch.len_utf8();
        utf16 += ch.len_utf16();
    }
    assert_eq!(utf16_offset_to_utf8(text, utf16), utf8);
    assert_eq!(utf8_offset_to_utf16(text, utf8), utf16);
}
