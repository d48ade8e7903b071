use app_image_manager::text::{comes_before, is_whitespace, joined, same, split_at,
    starts_with, stripped_all, text_lines, to_chars, to_decimal, to_lower, to_padded,
    to_text, to_u32, trimmed};

fn texts(v: Vec<&[char]>) -> Vec<String> {
    v.into_iter().map(to_text).collect()
}

#[test]
fn whitespace_is_that_of_unicode() {
    for n in 0..=0x10FFFFu32 {
        if let Some(c) = char::from_u32(n) {
            assert_eq!(is_whitespace(c), c.is_whitespace(), "{:x}", n);
            assert_eq!(to_lower(c), c.to_ascii_lowercase(), "{:x}", n);
        }
    }
}

#[test]
fn lines_and_pieces_agree_with_the_standard_library() {
    for s in [
        "", "\n", "a", "a\n", "a\nb", "a\r\nb\r", "\r\n\r\n", " a  b\tc\n", "\n\nx", "a\r\r\nb",
        "à la carte\u{2003}x\u{85}y",
    ] {
        let chars = to_chars(s);
        let want: Vec<String> = s.lines().map(str::to_string).collect();
        assert_eq!(texts(text_lines(&chars)), want, "{:?}", s);
        let want: Vec<String> = s.split('a').map(str::to_string).collect();
        assert_eq!(texts(split_at(&chars, 'a')), want, "{:?}", s);
        assert_eq!(to_text(trimmed(&chars)), s.trim(), "{:?}", s);
    }
}

#[test]
fn numbers_agree_with_the_standard_library() {
    for s in [
        "", "0", "48", "+7", "-7", "4294967295", "4294967296", "007", "1x", "+", "٣", " 1",
        "99999999999999999999",
    ] {
        assert_eq!(to_u32(&to_chars(s)), s.parse::<u32>().ok(), "{:?}", s);
    }
    for n in [0u128, 9, 10, 1234567890, u128::MAX] {
        assert_eq!(to_decimal(n), n.to_string());
    }
}

#[test]
fn padding_counts_characters() {
    assert_eq!(to_padded("è", 3), format!("{:<3}", "è"));
    assert_eq!(to_padded("abcd", 3), "abcd");
    assert_eq!(to_padded("", 2), "  ");
}

#[test]
fn order_is_that_of_str() {
    for (a, b) in [("a", "b"), ("a", "ab"), ("", "a"), ("é", "z"), ("b", "a"), ("a", "a")] {
        assert_eq!(comes_before(&to_chars(a), &to_chars(b)), a < b);
        assert_eq!(same(a, b), a == b);
    }
}

#[test]
fn prefixes_are_stripped_again_and_again() {
    assert_eq!(to_text(stripped_all(&to_chars("././a"), &to_chars("./"))), "a");
    assert_eq!(to_text(stripped_all(&to_chars("a./"), &to_chars("./"))), "a./");
    assert!(starts_with(&to_chars("abc"), &to_chars("ab")));
}

#[test]
fn joins_with_the_separator_between() {
    assert_eq!(joined(&vec![], ", "), "");
    assert_eq!(joined(&vec!["a".to_string()], ", "), "a");
    assert_eq!(joined(&vec!["a".to_string(), "b".to_string()], ", "), "a, b");
}
