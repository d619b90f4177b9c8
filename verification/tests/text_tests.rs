use ntrun::text::{is_whitespace, split_whitespace};

fn std_words(s: &str) -> Vec<String> {
    s.split_whitespace().map(|w| w.to_string()).collect()
}

#[test]
fn whitespace_is_the_unicode_white_space_property() {
    let mut code: u32 = 0;
    while code <= 0x10ffff {
        if let Some(c) = char::from_u32(code) {
            assert_eq!(is_whitespace(c), c.is_whitespace(), "U+{:04X}", code);
        }
        code += 1;
    }
}

#[test]
fn named_whitespace_characters() {
    for c in ['\t', '\n', '\u{b}', '\u{c}', '\r', ' ', '\u{85}', '\u{a0}', '\u{1680}', '\u{2000}',
        '\u{200a}', '\u{2028}', '\u{2029}', '\u{202f}', '\u{205f}', '\u{3000}']
    {
        assert!(is_whitespace(c), "{:?}", c);
    }
    for c in ['a', '/', '\u{0}', '\u{8}', '\u{e}', '\u{1f}', '\u{200b}', '\u{feff}', '\u{180e}'] {
        assert!(!is_whitespace(c), "{:?}", c);
    }
}

#[test]
fn empty_text_has_no_words() {
    assert_eq!(split_whitespace(""), Vec::<String>::new());
}

#[test]
fn blank_text_has_no_words() {
    assert_eq!(split_whitespace(" \t\n\r "), Vec::<String>::new());
}

#[test]
fn single_word_is_one_word() {
    assert_eq!(split_whitespace("/nix/store/abc"), vec!["/nix/store/abc".to_string()]);
}

#[test]
fn words_are_split_at_runs_of_whitespace() {
    assert_eq!(
        split_whitespace("  /a/b \n\t/c/d   /e\n"),
        vec!["/a/b".to_string(), "/c/d".to_string(), "/e".to_string()]
    );
}

#[test]
fn words_may_hold_characters_outside_ascii() {
    assert_eq!(
        split_whitespace("/stra\u{df}e\u{3000}/\u{1f600}/x\u{a0}y"),
        vec!["/stra\u{df}e".to_string(), "/\u{1f600}/x".to_string(), "y".to_string()]
    );
}

#[test]
fn words_agree_with_the_standard_library() {
    let samples = [
        "",
        " ",
        "a",
        " a",
        "a ",
        " a ",
        "a b",
        "a  b",
        "\ta\nb\r\nc",
        "one two\u{2003}three\u{85}four",
        "/nix/store/aaa-foo /nix/store/bbb-bar\n/nix/store/ccc-baz\n",
        "x\u{200b}y z",
    ];
    for s in samples {
        assert_eq!(split_whitespace(s), std_words(s), "{:?}", s);
    }
}
