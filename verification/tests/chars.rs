use rsh::chars::{is_symbol, is_whitespace};

#[test]
fn is_whitespace_agrees_with_the_standard_library_on_every_character() {
    let mut code: u32 = 0;
    while code <= 0x10FFFF {
        if let Some(c) = char::from_u32(code) {
            assert_eq!(is_whitespace(c), c.is_whitespace(), "U+{:04X}", code);
        }
        code += 1;
    }
}

#[test]
fn is_whitespace_knows_the_common_blanks() {
    assert!(is_whitespace(' '));
    assert!(is_whitespace('\t'));
    assert!(is_whitespace('\n'));
    assert!(is_whitespace('\r'));
    assert!(is_whitespace('\u{3000}'));
    assert!(!is_whitespace('a'));
    assert!(!is_whitespace('|'));
    assert!(!is_whitespace('\u{200B}'));
}

#[test]
fn is_symbol_holds_of_the_seven_operator_characters_only() {
    for c in "<|>&;()".chars() {
        assert!(is_symbol(c), "{}", c);
    }
    for c in "abcXYZ019 \t/.-_=+*$\"'\\".chars() {
        assert!(!is_symbol(c), "{}", c);
    }
}
