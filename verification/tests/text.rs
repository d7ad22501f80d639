use infratk::text::{
    char_is_whitespace, same_text, split_lines, text_less, token_ranges, trim,
};

#[test]
fn whitespace_is_what_the_standard_library_calls_whitespace() {
    for code in 0u32..=0x10FFFF {
        if let Some(c) = char::from_u32(code) {
            assert_eq!(char_is_whitespace(c), c.is_whitespace(), "U+{:04X}", code);
        }
    }
}

#[test]
fn strings_are_ordered_as_the_standard_library_orders_them() {
    let samples = [
        "", "a", "ab", "b", "B", "legacy", "legacy2", "prod", "staging", "\u{e9}", "\u{10348}",
        "z", "zz", "~", "\u{7f}", "\u{80}", "\u{ffff}",
    ];
    for a in samples {
        for b in samples {
            assert_eq!(text_less(a, b), a < b, "{:?} {:?}", a, b);
            assert_eq!(same_text(a, b), a == b);
        }
    }
}

#[test]
fn lines_are_split_as_the_standard_library_splits_them() {
    let samples = [
        "", "\n", "a", "a\n", "a\nb", "a\r\nb\r\n", "foo\nbar\n\r\nbaz\r", "\r", "\r\n", "a\r",
        "\n\n", "a\rb\nc", "\u{e9}\n\u{10348}",
    ];
    for s in samples {
        let expected: Vec<String> = s.lines().map(|l| l.to_string()).collect();
        assert_eq!(split_lines(s), expected, "{:?}", s);
    }
}

#[test]
fn trim_drops_whitespace_at_both_ends() {
    for s in ["", " ", " a ", "\tmain\n", "a b", "\u{a0}x\u{3000}", "  \u{e9} y "] {
        assert_eq!(trim(s), s.trim(), "{:?}", s);
    }
}

#[test]
fn tokens_are_split_as_the_standard_library_splits_them() {
    let samples = [
        "",
        " ",
        "a",
        "  a  ",
        "source = \"../a\"",
        "\ta\u{a0}b\u{3000}c\r\n",
        "x\u{e9}y  \u{10348}z",
        "one two  three   four",
    ];
    for s in samples {
        let chars: Vec<char> = s.chars().collect();
        let tokens: Vec<String> = token_ranges(&chars)
            .iter()
            .map(|(a, b)| chars[*a..*b].iter().collect())
            .collect();
        let expected: Vec<String> = s.split_whitespace().map(|t| t.to_string()).collect();
        assert_eq!(tokens, expected, "{:?}", s);
    }
}
