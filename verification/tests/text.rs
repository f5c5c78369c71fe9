use wikipedia_sz_bot::text::{
    capitalize, contains, equal, equal_ignoring_case, joined, lowered, position_from, replaced,
    same, split_at_each, to_chars, to_text, trim, uppered, white_space, with_char_replaced,
};

fn chars(s: &str) -> Vec<char> {
    s.chars().collect()
}

fn string(s: &[char]) -> String {
    s.iter().collect()
}

#[test]
fn white_space_is_that_of_unicode() {
    for code in 0..=0x10ffffu32 {
        if let Some(c) = char::from_u32(code) {
            assert_eq!(white_space(c), c.is_whitespace());
        }
    }
}

#[test]
fn trims_as_strings_do() {
    for s in ["", " ", " a ", "\t\u{3000}あ b\n", "x\u{a0}", "\u{85}\u{2029}"] {
        assert_eq!(string(trim(&chars(s))), s.trim());
        assert_eq!(string(trim(trim(&chars(s)))), s.trim());
    }
}

#[test]
fn changes_case_of_ascii_letters_only() {
    for code in 0..0x250u32 {
        if let Some(c) = char::from_u32(code) {
            assert_eq!(lowered(&[c]), [c.to_ascii_lowercase()]);
            assert_eq!(uppered(&[c]), [c.to_ascii_uppercase()]);
        }
    }
}

#[test]
fn compares_texts() {
    assert!(same("仮リンク", "仮リンク"));
    assert!(!same("a", "ab"));
    assert!(!same("ab", "a"));
    assert!(!same("a", "b"));
    assert!(equal(&chars("ab"), &chars("ab")));
    assert!(!equal(&chars("ab"), &chars("aB")));
    assert!(equal_ignoring_case(&chars("aB"), &chars("Ab")));
    assert!(!equal_ignoring_case(&chars("é"), &chars("É")));
}

#[test]
fn finds_texts() {
    let s = chars("abcabc");
    assert_eq!(position_from(&s, &chars("bc"), 0), Some(1));
    assert_eq!(position_from(&s, &chars("bc"), 2), Some(4));
    assert_eq!(position_from(&s, &chars("bc"), 5), None);
    assert!(contains(&s, &chars("")));
    assert!(contains(&s, &chars("cab")));
    assert!(!contains(&s, &chars("cc")));
}

#[test]
fn splits_as_strings_do() {
    for (s, separator) in [
        ("a|b||c", "|"),
        ("", "|"),
        ("{{a{{b", "{{"),
        ("{{{a", "{{"),
        ("aaa", "aa"),
    ] {
        let whole = chars(s);
        let mark = chars(separator);
        let parts: Vec<String> = split_at_each(&whole, &mark).into_iter().map(string).collect();
        let expected: Vec<&str> = s.split(separator).collect();
        assert_eq!(parts, expected);
        assert_eq!(joined(&parts, separator), s);
    }
}

#[test]
fn replaces_as_strings_do() {
    for (s, pattern, with) in [
        ("aXbXc", "X", "YY"),
        ("aaa", "aa", "b"),
        ("", "x", "y"),
        ("none", "x", "y"),
    ] {
        let out = replaced(&chars(s), &chars(pattern), &chars(with));
        assert_eq!(string(&out), s.replace(pattern, with));
    }
    assert_eq!(
        string(&with_char_replaced(&chars("a_b_"), '_', ' ')),
        "a b "
    );
}

#[test]
fn converts_texts() {
    let s = "仮リンク{a}\u{1f600}";
    assert_eq!(to_chars(s), chars(s));
    assert_eq!(to_text(&to_chars(s)), s);
    assert_eq!(string(&capitalize(&chars("ill"))), "Ill");
    assert_eq!(string(&capitalize(&chars("仮"))), "仮");
    assert_eq!(string(&capitalize(&[])), "");
}
