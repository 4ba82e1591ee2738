use jackbox_custom_content::text::{byte_is_numeric, byte_is_ws, byte_to_char, latin1_string, surround_char, two_chars};

#[test]
fn byte_whitespace_matches_char_whitespace() {
    for b in 0u16..256 {
        let b = b as u8;
        assert_eq!(byte_is_ws(b), (b as char).is_whitespace(), "byte {b}");
    }
}

#[test]
fn byte_numeric_matches_char_numeric() {
    for b in 0u16..256 {
        let b = b as u8;
        assert_eq!(byte_is_numeric(b), (b as char).is_numeric(), "byte {b}");
    }
}

#[test]
fn bytes_read_as_latin1() {
    assert_eq!(byte_to_char(b'a'), 'a');
    assert_eq!(byte_to_char(0xE9), 'é');
    assert_eq!(latin1_string(b"{\"a\": 1}"), "{\"a\": 1}");
    assert_eq!(latin1_string(&[0x41, 0xB2]), "A²");
    assert_eq!(latin1_string(&[]), "");
}

#[test]
fn characters_surrounded() {
    assert_eq!(surround_char("Expected ", 'x', "!"), "Expected x!");
    assert_eq!(two_chars("a", 'b', "c", 'd', "e"), "abcde");
}
