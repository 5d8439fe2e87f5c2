use jarvis_core::text::{
    chars_equal, chars_of, decode_utf8_lossy, is_whitespace_char, join_with_spaces,
    replace_chars, squeeze_chars, string_from_chars, text_equal, trim, trim_bounds,
};

fn s(v: &[char]) -> String {
    v.iter().collect()
}

#[test]
fn whitespace_set_matches_std() {
    for code in 0u32..0x3100 {
        if let Some(c) = char::from_u32(code) {
            assert_eq!(is_whitespace_char(c), c.is_whitespace(), "{:#x}", code);
        }
    }
}

#[test]
fn trim_matches_std() {
    for input in ["", "   ", "  a b  ", "\n\tx\r\n", "\u{a0}тест\u{3000}", "abc"] {
        assert_eq!(trim(input), input.trim());
    }
}

#[test]
fn trim_bounds_of_blank_text_is_empty() {
    let cs = chars_of(" \t ");
    let (lo, hi) = trim_bounds(&cs);
    assert_eq!(lo, hi);
}

#[test]
fn chars_round_trip() {
    let cs = chars_of("Терра!");
    assert_eq!(cs.len(), 6);
    assert_eq!(string_from_chars(&cs), "Терра!");
}

#[test]
fn equality_of_texts() {
    assert!(text_equal("user", "user"));
    assert!(!text_equal("user", "users"));
    assert!(!chars_equal(&['a'], &['b']));
}

#[test]
fn replace_matches_std() {
    let cases = [
        ("a--b--c", "--", " "),
        ("aaaa", "aa", "x"),
        ("abc", "", " "),
        ("", "", "_"),
        ("[music] text [music]", "[music]", " "),
        ("no match", "zz", "y"),
    ];
    for (text, pat, rep) in cases {
        let out = replace_chars(&chars_of(text), &chars_of(pat), &chars_of(rep));
        assert_eq!(s(&out), text.replace(pat, rep), "{text:?} {pat:?}");
    }
}

#[test]
fn squeeze_matches_split_whitespace() {
    for input in ["", "  ", " a  b\n\nc ", "one", "x\u{2003}y"] {
        let expected = input.split_whitespace().collect::<Vec<_>>().join(" ");
        assert_eq!(s(&squeeze_chars(&chars_of(input))), expected);
    }
}

#[test]
fn join_puts_single_spaces_between() {
    let parts = vec!["привет".to_string(), "мир".to_string()];
    assert_eq!(s(&join_with_spaces(&parts)), "привет мир");
    assert_eq!(s(&join_with_spaces(&[])), "");
}

#[test]
fn lossy_decoding_replaces_invalid_bytes() {
    assert_eq!(decode_utf8_lossy("да".as_bytes()), "да");
    assert_eq!(decode_utf8_lossy(&[b'a', 0xff, b'b']), "a\u{fffd}b");
}
