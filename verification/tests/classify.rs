use solidity_lexer::classify::{is_id_continue, is_id_start, is_ident, is_whitespace};

#[test]
fn whitespace_is_tab_newline_space() {
    assert!(is_whitespace('\t'));
    assert!(is_whitespace('\n'));
    assert!(is_whitespace(' '));
    assert!(!is_whitespace('\r'));
    assert!(!is_whitespace('\u{b}'));
    assert!(!is_whitespace('\u{c}'));
    assert!(!is_whitespace('\u{a0}'));
    assert!(!is_whitespace('\u{2028}'));
    assert!(!is_whitespace('a'));
    assert!(!is_whitespace('\0'));
}

#[test]
fn id_start_is_letter_underscore_dollar() {
    for c in 'a'..='z' {
        assert!(is_id_start(c));
    }
    for c in 'A'..='Z' {
        assert!(is_id_start(c));
    }
    assert!(is_id_start('_'));
    assert!(is_id_start('$'));
    for c in '0'..='9' {
        assert!(!is_id_start(c));
    }
    assert!(!is_id_start('`'));
    assert!(!is_id_start('{'));
    assert!(!is_id_start('@'));
    assert!(!is_id_start('['));
    assert!(!is_id_start(' '));
    assert!(!is_id_start('\0'));
    assert!(!is_id_start('é'));
}

#[test]
fn id_continue_adds_digits() {
    for c in '\0'..='\u{ff}' {
        let expected = is_id_start(c) || c.is_ascii_digit();
        assert_eq!(is_id_continue(c), expected);
    }
    assert!(is_id_continue('0'));
    assert!(is_id_continue('9'));
    assert!(!is_id_continue('/'));
    assert!(!is_id_continue(':'));
    assert!(!is_id_continue('é'));
}

#[test]
fn ident_accepts_identifiers() {
    assert!(is_ident("a"));
    assert!(is_ident("_"));
    assert!(is_ident("$"));
    assert!(is_ident("foo"));
    assert!(is_ident("Foo_Bar$1"));
    assert!(is_ident("_0"));
    assert!(is_ident("$$"));
    assert!(is_ident("x9"));
}

#[test]
fn ident_rejects_empty() {
    assert!(!is_ident(""));
}

#[test]
fn ident_rejects_bad_start() {
    assert!(!is_ident("0"));
    assert!(!is_ident("1abc"));
    assert!(!is_ident(" a"));
    assert!(!is_ident("-a"));
}

#[test]
fn ident_rejects_bad_continue() {
    assert!(!is_ident("a b"));
    assert!(!is_ident("a-b"));
    assert!(!is_ident("a."));
    assert!(!is_ident("ab\n"));
}

#[test]
fn ident_rejects_non_ascii() {
    assert!(!is_ident("é"));
    assert!(!is_ident("aé"));
    assert!(!is_ident("éa"));
    assert!(!is_ident("a\u{1F600}b"));
    assert!(!is_ident("名前"));
    // U+00E1 is encoded as the bytes C3 A1: neither may pass for a letter.
    assert!(!is_ident("a\u{e1}"));
}

#[test]
fn ident_agrees_with_character_classes() {
    let samples = ["", "a", "a1", "1a", "_$", "a b", "ab_", "a\u{80}", "\u{7f}", "$9z"];
    for s in samples {
        let mut chars = s.chars();
        let expected = match chars.next() {
            None => false,
            Some(first) => is_id_start(first) && chars.all(is_id_continue),
        };
        assert_eq!(is_ident(s), expected);
    }
}
