use bucketcode::text::{
    byte_len, char_index, chars_of, comes_before, count_matches, decimal_of, finishes, has_part, join, lines_of,
    pad, parse_usize, split, trimmed, white, words_of, Cut,
};

#[test]
fn whitespace_is_that_of_the_standard_library() {
    for u in 0..=0x10ffffu32 {
        if let Some(c) = char::from_u32(u) {
            assert_eq!(white(c), c.is_whitespace(), "{u:x}");
        }
    }
}

#[test]
fn lines_follow_the_standard_library() {
    for s in ["", "a", "a\n", "a\nb", "a\r\nb\r\n", "\n\n", "a\n\nb", "a\r", "\r\n"] {
        let std: Vec<String> = s.lines().map(String::from).collect();
        assert_eq!(lines_of(s), std, "{s:?}");
    }
}

#[test]
fn splitting_and_trimming_follow_the_standard_library() {
    for s in ["", "a&b", "&", "a&&b&", " x  y ", "\u{a0}z\u{2003}"] {
        let std: Vec<String> = s.split('&').map(String::from).collect();
        assert_eq!(split(s, Cut::At('&')), std, "{s:?}");
        let std: Vec<String> = s.split_whitespace().map(String::from).collect();
        assert_eq!(words_of(s, Cut::White), std, "{s:?}");
        assert_eq!(trimmed(s), s.trim());
    }
    for s in ["a-b_c", "été 2x, ½!", "", "--"] {
        let std: Vec<String> = s
            .split(|c: char| !c.is_alphanumeric())
            .filter(|w| !w.is_empty())
            .map(String::from)
            .collect();
        assert_eq!(words_of(s, Cut::NotAlphanumeric), std, "{s:?}");
    }
}

#[test]
fn searching_follows_the_standard_library() {
    for (s, p) in [("aaaa", "aa"), ("abcabc", "bc"), ("", "x"), ("éaé", "é"), ("abc", "abcd")] {
        assert_eq!(count_matches(&chars_of(s), &chars_of(p)), s.matches(p).count());
        assert_eq!(has_part(s, p), s.contains(p));
        assert_eq!(finishes(s, p), s.ends_with(p));
    }
}

#[test]
fn byte_offsets_point_at_characters() {
    let s = "aé漢😀";
    assert_eq!(byte_len(s), s.len());
    let v = chars_of(s);
    for b in 0..=s.len() + 1 {
        let std = if s.is_char_boundary(b) { Some(s[..b].chars().count()) } else { None };
        assert_eq!(char_index(&v, b), std, "{b}");
    }
}

#[test]
fn numbers_and_padding_follow_the_standard_library() {
    for n in [0u64, 7, 10, 999, 1_000, u64::MAX] {
        assert_eq!(decimal_of(n), n.to_string());
    }
    for s in ["0", "12", "+5", "-1", "", "+", "18446744073709551616", "007", " 1"] {
        assert_eq!(parse_usize(s), s.parse::<usize>().ok(), "{s:?}");
    }
    for s in ["", "ab", "éé", "abcdef"] {
        assert_eq!(pad(s, 4), format!("{s:4}"));
    }
}

#[test]
fn order_and_join_follow_the_standard_library() {
    let words = ["", "a", "ab", "b", "é", "z", "Z"];
    for a in words {
        for b in words {
            assert_eq!(comes_before(a, b), a < b, "{a} {b}");
        }
    }
    let v: Vec<String> = words.iter().map(|s| s.to_string()).collect();
    assert_eq!(join(&v, ", "), words.join(", "));
    assert_eq!(join(&Vec::new(), ", "), "");
}
