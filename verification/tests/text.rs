use rskiller::text::{
    chars_of, contains_in, find_char_in, is_whitespace, lines_in, same_text, skip_leading_in,
    skip_trailing_in, slice_of, split_in, starts_with_in, trimmed_in, Strip,
};

fn text(v: &[char], bounds: (usize, usize)) -> String {
    v[bounds.0..bounds.1].iter().collect()
}

fn pieces(s: &str, sep: char) -> Vec<String> {
    let v = chars_of(s);
    split_in(&v, 0, v.len(), sep).into_iter().map(|b| text(&v, b)).collect()
}

fn lines(s: &str) -> Vec<String> {
    let v = chars_of(s);
    lines_in(&v, 0, v.len()).into_iter().map(|b| text(&v, b)).collect()
}

fn trimmed(s: &str, k: Strip) -> String {
    let v = chars_of(s);
    text(&v, trimmed_in(&v, 0, v.len(), &k))
}

#[test]
fn a_text_is_its_characters() {
    assert_eq!(chars_of("héllo"), vec!['h', 'é', 'l', 'l', 'o']);
    assert_eq!(chars_of(""), Vec::<char>::new());
    assert_eq!(slice_of(&chars_of("héllo"), 1, 3), vec!['é', 'l']);
    assert!(same_text(&chars_of("ab"), &chars_of("ab")));
    assert!(!same_text(&chars_of("ab"), &chars_of("abc")));
    assert!(!same_text(&chars_of("ab"), &chars_of("ac")));
}

#[test]
fn white_space_is_that_of_unicode() {
    for c in 0..=0x10FFFFu32 {
        if let Some(c) = char::from_u32(c) {
            assert_eq!(is_whitespace(c), c.is_whitespace(), "{:?}", c);
        }
    }
}

#[test]
fn splitting_gives_one_piece_more_than_separators() {
    assert_eq!(pieces("a,b,c", ','), vec!["a", "b", "c"]);
    assert_eq!(pieces("", ','), vec![""]);
    assert_eq!(pieces(",", ','), vec!["", ""]);
    assert_eq!(pieces("a,,b,", ','), vec!["a", "", "b", ""]);
    assert_eq!(pieces("abc", ','), vec!["abc"]);
    for s in ["", "a", "=", "a=b", "==a=", "name = \"x\" = y"] {
        let expected: Vec<&str> = s.split('=').collect();
        assert_eq!(pieces(s, '='), expected, "{:?}", s);
    }
}

#[test]
fn lines_end_at_line_feeds() {
    assert_eq!(lines("a\nb\nc"), vec!["a", "b", "c"]);
    assert_eq!(lines("a\nb\n"), vec!["a", "b"]);
    assert_eq!(lines(""), Vec::<String>::new());
    assert_eq!(lines("\n"), vec![""]);
    assert_eq!(lines("\n\na"), vec!["", "", "a"]);
    // The carriage return stays in the line.
    assert_eq!(lines("a\r\nb"), vec!["a\r", "b"]);
    for s in ["", "a", "\n", "a\nb", "a\n\nb\n", "\n\n", "x\ny\nz"] {
        let expected: Vec<&str> = s.lines().collect();
        assert_eq!(lines(s), expected, "{:?}", s);
    }
}

#[test]
fn trimming_strips_both_ends() {
    assert_eq!(trimmed("  a b \t\r\n", Strip::Whitespace), "a b");
    assert_eq!(trimmed("   ", Strip::Whitespace), "");
    assert_eq!(trimmed("", Strip::Whitespace), "");
    assert_eq!(trimmed("\u{3000}x\u{a0}", Strip::Whitespace), "x");
    assert_eq!(trimmed("\"\"x\"y\"", Strip::Exactly('"')), "x\"y");
    assert_eq!(trimmed("\"\"\"", Strip::Exactly('"')), "");
    assert_eq!(trimmed(" \"x\" ", Strip::Exactly('"')), " \"x\" ");
    for s in ["", " a ", "a", "\t\ta\n b\n", "  "] {
        assert_eq!(trimmed(s, Strip::Whitespace), s.trim(), "{:?}", s);
        assert_eq!(trimmed(s, Strip::Exactly('a')), s.trim_matches('a'), "{:?}", s);
    }
    let v = chars_of("xxaxx");
    assert_eq!(skip_leading_in(&v, 0, 5, &Strip::Exactly('x')), 2);
    assert_eq!(skip_trailing_in(&v, 0, 5, &Strip::Exactly('x')), 3);
    assert_eq!(skip_leading_in(&v, 3, 5, &Strip::Exactly('x')), 5);
    assert_eq!(skip_trailing_in(&v, 0, 2, &Strip::Exactly('x')), 0);
}

#[test]
fn searching_finds_the_first_place() {
    let v = chars_of("a=b=c");
    assert_eq!(find_char_in(&v, 0, 5, '='), 1);
    assert_eq!(find_char_in(&v, 2, 5, '='), 3);
    assert_eq!(find_char_in(&v, 4, 5, '='), 5);
    assert_eq!(find_char_in(&v, 0, 1, '='), 1);
    assert_eq!(find_char_in(&v, 0, 0, '='), 0);
    assert!(starts_with_in(&v, 0, 5, &chars_of("a=")));
    assert!(starts_with_in(&v, 2, 5, &chars_of("b=c")));
    assert!(!starts_with_in(&v, 2, 4, &chars_of("b=c")));
    assert!(starts_with_in(&v, 2, 2, &chars_of("")));
    assert!(!starts_with_in(&v, 0, 5, &chars_of("=")));
    assert!(contains_in(&v, 0, 5, &chars_of("b=c")));
    assert!(contains_in(&v, 0, 5, &chars_of("")));
    assert!(contains_in(&v, 5, 5, &chars_of("")));
    assert!(!contains_in(&v, 0, 4, &chars_of("b=c")));
    assert!(!contains_in(&v, 0, 5, &chars_of("a=b=c=")));
    assert!(contains_in(&v, 0, 5, &chars_of("a=b=c")));
    assert!(!contains_in(&v, 0, 5, &chars_of("ab")));
}
