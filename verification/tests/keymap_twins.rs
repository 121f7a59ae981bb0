use sed_unlock::keymap::unshifted_twin;

#[test]
fn symbols_map_to_their_unshifted_key() {
    let pairs = [
        ('~', '`'), ('!', '1'), ('@', '2'), ('#', '3'), ('$', '4'), ('%', '5'), ('^', '6'),
        ('&', '7'), ('*', '8'), ('(', '9'), (')', '0'), ('_', '-'), ('+', '='), ('{', '['),
        ('}', ']'), ('|', '\\'), (':', ';'), ('"', '\''), ('<', ','), ('>', '.'), ('?', '/'),
    ];
    for (shifted, plain) in pairs {
        assert_eq!(unshifted_twin(shifted), Some(plain), "{}", shifted);
    }
}

#[test]
fn capitals_map_to_lower_case() {
    for c in 'A'..='Z' {
        assert_eq!(unshifted_twin(c), Some(c.to_ascii_lowercase()));
    }
}

#[test]
fn unshifted_and_other_characters_have_no_twin() {
    for c in ['a', 'z', '1', '`', '[', ' ', '\u{8}', 'é', 'Ä', '\u{1F600}'] {
        assert_eq!(unshifted_twin(c), None, "{:?}", c);
    }
}

#[test]
fn a_twin_has_no_twin_of_its_own() {
    for code in 0u32..0x3000 {
        if let Some(c) = char::from_u32(code) {
            if let Some(u) = unshifted_twin(c) {
                assert_ne!(u, c);
                assert_eq!(unshifted_twin(u), None);
            }
        }
    }
}
