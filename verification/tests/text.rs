use rollcall::text::{
    chars_of, is_separator, is_space_char, parse_names, parse_number, parse_small, same_text,
    split_span, text_before, text_of, trim_span, Delimiter, Span,
};

fn owned(names: &[&str]) -> Option<Vec<String>> {
    Some(names.iter().map(|n| n.to_string()).collect())
}

#[test]
fn parse_names_trims_and_splits() {
    assert_eq!(parse_names("Alice,Bob"), owned(&["Alice", "Bob"]));
    assert_eq!(parse_names("  Alice , Bob\t,Cleo  "), owned(&["Alice", "Bob", "Cleo"]));
    assert_eq!(parse_names("Alice"), owned(&["Alice"]));
    assert_eq!(parse_names("Anna Maria, Jo"), owned(&["Anna Maria", "Jo"]));
}

#[test]
fn parse_names_keeps_empty_pieces() {
    assert_eq!(parse_names("Alice,,Bob"), owned(&["Alice", "", "Bob"]));
    assert_eq!(parse_names(","), owned(&["", ""]));
    assert_eq!(parse_names("Alice,"), owned(&["Alice", ""]));
}

#[test]
fn parse_names_refuses_a_blank_field() {
    assert_eq!(parse_names(""), None);
    assert_eq!(parse_names("   \t\n "), None);
    assert_eq!(parse_names("\u{a0}\u{3000}"), None);
}

#[test]
fn parse_names_handles_text_beyond_ascii() {
    assert_eq!(parse_names(" Zoë , 李 "), owned(&["Zoë", "李"]));
}

#[test]
fn white_space_is_what_unicode_says() {
    for c in (0u32..0x11_0000).filter_map(char::from_u32) {
        assert_eq!(is_space_char(c), c.is_whitespace());
    }
}

#[test]
fn separators() {
    assert!(is_separator(Delimiter::Comma, ','));
    assert!(!is_separator(Delimiter::Comma, ' '));
    assert!(is_separator(Delimiter::Space, '\t'));
    assert!(is_separator(Delimiter::Slash, '/'));
    assert!(is_separator(Delimiter::Dash, '-'));
    assert!(!is_separator(Delimiter::Dash, '/'));
}

#[test]
fn same_text_compares_whole_texts() {
    assert!(same_text("", ""));
    assert!(same_text("secret", "secret"));
    assert!(!same_text("secret", "secreT"));
    assert!(!same_text("secret", "secret "));
    assert!(!same_text("secret", ""));
    assert!(same_text("päß", "päß"));
    assert!(!same_text("päß", "paß"));
}

#[test]
fn spans_cover_the_pieces() {
    let text = " a, bc ,";
    let chars = chars_of(text);
    assert_eq!(chars, vec![' ', 'a', ',', ' ', 'b', 'c', ' ', ',']);
    let all = Span { start: 0, end: chars.len() };
    let spans = split_span(&chars, all, Delimiter::Comma);
    assert_eq!(
        spans,
        vec![Span { start: 0, end: 2 }, Span { start: 3, end: 7 }, Span { start: 8, end: 8 }]
    );
    assert_eq!(trim_span(&chars, spans[1]), Span { start: 4, end: 6 });
    assert_eq!(text_of(text, trim_span(&chars, spans[1])), "bc");
    assert_eq!(trim_span(&chars, Span { start: 3, end: 4 }), Span { start: 4, end: 4 });
}

#[test]
fn text_before_is_the_order_of_strings() {
    let words = [
        "", "a", "ab", "abc", "b", "B", "Zoe", "Zoë", "zoe", "é", "z", "李", "\u{10ffff}", "a\u{0}",
    ];
    for a in words {
        for b in words {
            let before = text_before(&a.chars().collect(), &b.chars().collect());
            assert_eq!(before, a < b, "{:?} {:?}", a, b);
        }
    }
}

#[test]
fn parse_small_reads_what_the_standard_library_reads() {
    let alphabet = ['+', '-', '0', '1', '2', '7', '8', '9', ' ', 'a', '٣'];
    let mut texts = vec![String::new()];
    let mut from = 0;
    for _ in 0..4 {
        let upto = texts.len();
        for i in from..upto {
            for c in alphabet {
                let mut longer = texts[i].clone();
                longer.push(c);
                texts.push(longer);
            }
        }
        from = upto;
    }
    assert!(texts.len() > 16000);
    for text in &texts {
        assert_eq!(parse_small(text), text.parse::<i8>().ok(), "{:?}", text);
    }
    let edges =
        ["127", "128", "-128", "-129", "+127", "000127", "-000128", "99999999999999999999"];
    for text in edges {
        assert_eq!(parse_small(text), text.parse::<i8>().ok(), "{:?}", text);
    }
}

#[test]
fn parse_number_caps_large_values() {
    let read = |text: &str| {
        let chars = chars_of(text);
        parse_number(&chars, Span { start: 0, end: chars.len() })
    };
    assert_eq!(read("0"), Some(0));
    assert_eq!(read("59"), Some(59));
    assert_eq!(read("0059"), Some(59));
    assert_eq!(read("9999"), Some(9999));
    assert_eq!(read("10000"), Some(10000));
    assert_eq!(read("10001"), Some(10000));
    assert_eq!(read("123456789012345678901234567890"), Some(10000));
    assert_eq!(read(""), None);
    assert_eq!(read("1a"), None);
    assert_eq!(read("-1"), None);
}
