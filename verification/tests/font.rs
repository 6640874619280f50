use asteria::font::get_char_5x7;

#[test]
fn glyphs_for_letters_digits_and_fallback() {
    assert_eq!(get_char_5x7('A'), [0x7c, 0x12, 0x11, 0x12, 0x7c]);
    assert_eq!(get_char_5x7('a'), get_char_5x7('A'));
    assert_eq!(get_char_5x7('0'), [0x3e, 0x51, 0x49, 0x45, 0x3e]);
    assert_eq!(get_char_5x7('-'), [0x08, 0x08, 0x08, 0x08, 0x08]);
    assert_eq!(get_char_5x7('#'), [0x7f, 0x41, 0x41, 0x41, 0x7f]);
    assert_eq!(get_char_5x7('é'), [0x7f, 0x41, 0x41, 0x41, 0x7f]);
}
