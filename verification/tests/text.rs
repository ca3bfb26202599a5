use font_kit::text::convert_len_utf16_to_utf8;

#[test]
fn ascii_lengths_are_equal() {
    assert_eq!(convert_len_utf16_to_utf8("hello", 3), 3);
    assert_eq!(convert_len_utf16_to_utf8("hello", 5), 5);
}

#[test]
fn length_is_capped_at_the_text() {
    assert_eq!(convert_len_utf16_to_utf8("hello", 10), 5);
    assert_eq!(convert_len_utf16_to_utf8("", 4), 0);
}

#[test]
fn zero_units_is_zero_bytes() {
    assert_eq!(convert_len_utf16_to_utf8("héllo", 0), 0);
}

#[test]
fn multibyte_characters_count_their_utf8_bytes() {
    // 'é' is one UTF-16 unit and two UTF-8 bytes; '€' is one unit and three bytes.
    assert_eq!(convert_len_utf16_to_utf8("héllo", 2), 3);
    assert_eq!(convert_len_utf16_to_utf8("a€b", 2), 4);
    assert_eq!(convert_len_utf16_to_utf8("a€b", 3), 5);
}

#[test]
fn surrogate_pairs_are_taken_whole() {
    // '😀' is two UTF-16 units and four UTF-8 bytes; asking for one unit takes the whole
    // character.
    assert_eq!(convert_len_utf16_to_utf8("😀x", 1), 4);
    assert_eq!(convert_len_utf16_to_utf8("😀x", 2), 4);
    assert_eq!(convert_len_utf16_to_utf8("😀x", 3), 5);
}
