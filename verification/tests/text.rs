use mbwatch::text::{spells, to_chars, trimmed, whitespace, Pattern};

#[test]
fn whitespace_is_what_std_calls_white_space() {
    for code in 0..=0x10ffff_u32 {
        if let Some(c) = char::from_u32(code) {
            assert_eq!(whitespace(c), c.is_whitespace(), "U+{:04X}", code);
        }
    }
}

#[test]
fn whitespace_knows_the_common_characters() {
    assert!(whitespace(' '));
    assert!(whitespace('\t'));
    assert!(whitespace('\n'));
    assert!(whitespace('\r'));
    assert!(whitespace('\u{a0}'));
    assert!(whitespace('\u{3000}'));
    assert!(!whitespace('a'));
    assert!(!whitespace('#'));
    assert!(!whitespace('\u{200b}'));
}

#[test]
fn pattern_tests_one_character() {
    assert!(Pattern::Whitespace.test(' '));
    assert!(!Pattern::Whitespace.test('x'));
    assert!(Pattern::Visible.test('x'));
    assert!(!Pattern::Visible.test('\t'));
    assert!(Pattern::Char(',').test(','));
    assert!(!Pattern::Char(',').test(':'));
}

#[test]
fn to_chars_keeps_every_character() {
    assert_eq!(to_chars(""), Vec::<char>::new());
    assert_eq!(to_chars("a b"), vec!['a', ' ', 'b']);
    assert_eq!(to_chars("päß"), vec!['p', 'ä', 'ß']);
}

#[test]
fn spells_compares_characters_with_a_word() {
    assert!(spells(&to_chars("Host"), "Host"));
    assert!(!spells(&to_chars("Host"), "Hose"));
    assert!(!spells(&to_chars("Host"), "Hos"));
    assert!(!spells(&to_chars("Hos"), "Host"));
    assert!(!spells(&to_chars("host"), "Host"));
    assert!(spells(&to_chars(""), ""));
    assert!(spells(&to_chars("päß"), "päß"));
}

#[test]
fn trimmed_agrees_with_std() {
    let samples = [
        "",
        " ",
        "abc",
        "  abc",
        "abc  ",
        "\t abc def \r\n",
        "\u{a0}x\u{2003}",
        " \n\t ",
        "123\n",
        "ä ö",
    ];
    for sample in samples {
        assert_eq!(trimmed(sample), sample.trim(), "{:?}", sample);
    }
    assert_eq!(trimmed("  secret \n"), "secret");
}
