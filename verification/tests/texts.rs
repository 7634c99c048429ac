use anderson::text::{
    bracketed_ids_text, decimal_text, hex_encode, id_list_text, is_whitespace, same_text,
    split_at_char, split_whitespace, starts_with, strip_suffix, trim_end_matches,
};

#[test]
fn white_space_agrees_with_std() {
    for code in 0..=0x10ffffu32 {
        if let Some(c) = char::from_u32(code) {
            assert_eq!(is_whitespace(c), c.is_whitespace(), "U+{code:04x}");
        }
    }
}

#[test]
fn splitting_agrees_with_std() {
    let samples = vec![
        "", " ", "a", " a ", "a b", "\ta\u{2003}b\n\nc ", "h\u{e9} w\u{f6}", "\u{85}x\u{a0}y",
    ];
    for s in samples {
        let theirs: Vec<&str> = s.split_whitespace().collect();
        assert_eq!(split_whitespace(s), theirs, "words of {s:?}");
    }
    for s in vec!["", ":", "a", "a:b", ":a::b:", "/usr/bin:/bin"] {
        let theirs: Vec<&str> = s.split(':').collect();
        assert_eq!(split_at_char(s, ':'), theirs, "pieces of {s:?}");
    }
}

#[test]
fn prefixes_and_suffixes_agree_with_std() {
    let samples = vec!["", "/**", "/a/**", "/a/**/**", "/a", "**", "/\u{e9}/**"];
    for s in samples {
        assert_eq!(
            strip_suffix(s, "/**"),
            s.strip_suffix("/**").map(|r| r.to_string()),
            "suffix of {s:?}"
        );
        assert_eq!(trim_end_matches(s, "/**"), s.trim_end_matches("/**"));
        assert_eq!(starts_with(s, "/a"), s.starts_with("/a"));
        assert!(starts_with(s, ""));
        assert!(same_text(s, s));
        assert!(!same_text(s, "other"));
    }
}

#[test]
fn numerals() {
    assert_eq!(decimal_text(0), "0");
    assert_eq!(decimal_text(10), "10");
    assert_eq!(decimal_text(u128::MAX), u128::MAX.to_string());
    assert_eq!(hex_encode(&[0, 15, 16, 255]), "000f10ff");
    assert_eq!(hex_encode(&[]), "");
    assert_eq!(id_list_text(&vec![], ","), "");
    assert_eq!(id_list_text(&vec![1, 22, 3], ","), "1,22,3");
    assert_eq!(bracketed_ids_text(&vec![]), "[]");
    assert_eq!(bracketed_ids_text(&vec![4, 5]), "[4, 5]");
}
