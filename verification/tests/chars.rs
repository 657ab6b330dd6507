use java_uml::chars::{ident_part, same_text, whitespace};

#[test]
fn identifier_characters() {
    assert!(ident_part('a'));
    assert!(ident_part('Z'));
    assert!(ident_part('é'));
    assert!(ident_part('0'));
    assert!(ident_part('9'));
    assert!(ident_part('_'));
    assert!(ident_part('['));
    assert!(ident_part(']'));
    assert!(!ident_part(' '));
    assert!(!ident_part(';'));
    assert!(!ident_part('('));
    assert!(!ident_part('-'));
    assert!(!ident_part('/'));
    assert!(!ident_part(':'));
    assert!(!ident_part('\0'));
}

#[test]
fn white_space_characters() {
    assert!(whitespace(' '));
    assert!(whitespace('\n'));
    assert!(whitespace('\t'));
    assert!(whitespace('\u{a0}'));
    assert!(!whitespace('a'));
    assert!(!whitespace('{'));
    assert!(!whitespace('\0'));
}

#[test]
fn texts_are_compared_by_characters() {
    assert!(same_text("", ""));
    assert!(same_text("final", "final"));
    assert!(same_text("größe", "größe"));
    assert!(!same_text("final", "finak"));
    assert!(!same_text("final", "fina"));
    assert!(!same_text("fina", "final"));
    assert!(!same_text("class", "final"));
    assert!(!same_text("", "a"));
}

#[test]
fn ascii_letters_are_the_letters_of_ascii() {
    for code in 0u8..=0x7f {
        let c = code as char;
        let letter = ('a'..='z').contains(&c) || ('A'..='Z').contains(&c);
        assert_eq!(c.is_alphabetic(), letter);
        let part = letter || c == '_' || ('0'..='9').contains(&c) || c == '[' || c == ']';
        assert_eq!(ident_part(c), part);
    }
}

#[test]
fn ascii_white_space_is_the_blank_and_the_controls_from_tab_to_return() {
    for code in 0u8..=0x7f {
        let c = code as char;
        assert_eq!(whitespace(c), c == ' ' || ('\t'..='\r').contains(&c));
        assert_eq!(c.is_whitespace(), whitespace(c));
    }
}

#[test]
fn characters_beyond_ascii_follow_unicode() {
    assert!(ident_part('ß'));
    assert!(ident_part('京'));
    assert!(!ident_part('💝'));
    assert!(!ident_part('\u{a0}'));
    assert!(whitespace('\u{a0}'));
    assert!(whitespace('\u{2003}'));
    assert!(whitespace('\u{3000}'));
    assert!(!whitespace('越'));
    assert!(!whitespace('\u{200b}'));
}
