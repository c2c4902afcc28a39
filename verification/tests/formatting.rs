use sha1sum::{format_hash, Word};

#[test]
fn format_pads_each_word_to_eight_digits() {
    let text = format_hash([Word(0), Word(1), Word(0xABC), Word(0x0012_3456), Word(0xFFFF_FFFF)]);
    assert_eq!(text, "000000000000000100000abc00123456ffffffff");
}

#[test]
fn format_is_forty_lowercase_hex_characters() {
    let text = format_hash([
        Word(0xDEAD_BEEF),
        Word(0xCAFE_BABE),
        Word(0x0BAD_F00D),
        Word(0xFEED_FACE),
        Word(0x0123_4567),
    ]);
    assert_eq!(text, "deadbeefcafebabe0badf00dfeedface01234567");
    assert_eq!(text.len(), 40);
    assert!(text.chars().all(|c| c.is_ascii_digit() || ('a'..='f').contains(&c)));
}

#[test]
fn format_keeps_the_order_of_the_words() {
    let text = format_hash([Word(1), Word(2), Word(3), Word(4), Word(5)]);
    assert_eq!(text, "0000000100000002000000030000000400000005");
}

#[test]
fn format_agrees_with_the_standard_formatter() {
    let words = [0x67452301u32, 0xEFCDAB89, 0x98BADCFE, 0x10325476, 0xC3D2E1F0];
    let expected = format!(
        "{:08x}{:08x}{:08x}{:08x}{:08x}",
        words[0], words[1], words[2], words[3], words[4]
    );
    let text = format_hash([
        Word(words[0]),
        Word(words[1]),
        Word(words[2]),
        Word(words[3]),
        Word(words[4]),
    ]);
    assert_eq!(text, expected);
    assert_eq!(text, "67452301efcdab8998badcfe10325476c3d2e1f0");
}

#[test]
fn format_shows_every_digit() {
    let text = format_hash([
        Word(0x0123_4567),
        Word(0x89AB_CDEF),
        Word(0xFEDC_BA98),
        Word(0x7654_3210),
        Word(0),
    ]);
    assert_eq!(text, "0123456789abcdeffedcba987654321000000000");
}
