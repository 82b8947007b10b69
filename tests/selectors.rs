use selector_path::escape::{unescape, EscapeError};
use selector_path::grammar::{scan_selector, Expected, SelectorFault};
use selector_path::matcher::Matcher;
use selector_path::parser::{expected_message, parse, ParseError};

fn named(n: &str) -> Matcher {
    Matcher::NamedChild(n.to_string())
}

fn chars(s: &str) -> Vec<char> {
    s.chars().collect()
}

#[test]
fn dotted_names() {
    let p = parse("$.a.b").unwrap();
    assert_eq!(p.matchers(), &[Matcher::Root, named("a"), named("b")][..]);
    assert_eq!(p.len(), 3);
    assert!(!p.is_empty());
    assert_eq!(p.get(2), &named("b"));
}

#[test]
fn wildcard_child() {
    let p = parse("$.*").unwrap();
    assert_eq!(p.matchers(), &[Matcher::Root, Matcher::WildcardChild][..]);
}

#[test]
fn names_around_a_wildcard() {
    let p = parse("$.a.*.b").unwrap();
    assert_eq!(
        p.matchers(),
        &[Matcher::Root, named("a"), Matcher::WildcardChild, named("b")][..]
    );
}

#[test]
fn root_alone() {
    let p = parse("$").unwrap();
    assert_eq!(p.matchers(), &[Matcher::Root][..]);
}

#[test]
fn names_with_digits_underscores_and_non_ascii() {
    let p = parse("$.a_1.été").unwrap();
    assert_eq!(p.matchers(), &[Matcher::Root, named("a_1"), named("été")][..]);
}

#[test]
fn bracketed_union_of_quoted_names() {
    let p = parse("$['a',\"b c\"].d").unwrap();
    assert_eq!(
        p.matchers(),
        &[Matcher::Root, named("a"), named("b c"), named("d")][..]
    );
}

#[test]
fn union_names_are_decoded() {
    let p = parse(r#"$["a\tb",'A\'']"#).unwrap();
    assert_eq!(p.matchers(), &[Matcher::Root, named("a\tb"), named("A'")][..]);
}

#[test]
fn union_with_bad_escape_is_an_escape_error() {
    assert_eq!(
        parse(r#"$["\x"]"#),
        Err(ParseError::Escape(EscapeError::UnknownEscape { at: 0, letter: 'x' }))
    );
    assert_eq!(
        parse(r#"$['\uD800']"#),
        Err(ParseError::Escape(EscapeError::InvalidCodePoint { at: 0, value: 0xD800 }))
    );
}

#[test]
fn double_dot_is_a_syntax_error() {
    match parse("$..") {
        Err(ParseError::Syntax(m)) => {
            assert!(m.contains("1:3"), "{}", m);
            assert!(m.contains("expected childName"), "{}", m);
        }
        other => panic!("{:?}", other),
    }
}

#[test]
fn dot_bracket_is_a_syntax_error() {
    assert!(matches!(parse("$.["), Err(ParseError::Syntax(_))));
}

#[test]
fn empty_selector_is_a_syntax_error() {
    match parse("") {
        Err(ParseError::Syntax(m)) => assert!(m.contains("expected rootSelector"), "{}", m),
        other => panic!("{:?}", other),
    }
}

#[test]
fn syntax_report_points_past_non_ascii() {
    match parse("$.é!") {
        Err(ParseError::Syntax(m)) => {
            assert!(m.contains("1:4"), "{}", m);
            assert!(m.contains("expected matcher"), "{}", m);
        }
        other => panic!("{:?}", other),
    }
}

#[test]
fn scan_reports_positions() {
    let fault = |s: &str| scan_selector(&chars(s)).unwrap_err();
    assert_eq!(fault(""), SelectorFault::Syntax { at: 0, expected: Expected::RootSelector });
    assert_eq!(fault("a"), SelectorFault::Syntax { at: 0, expected: Expected::RootSelector });
    assert_eq!(fault("$.."), SelectorFault::Syntax { at: 2, expected: Expected::ChildName });
    assert_eq!(fault("$.["), SelectorFault::Syntax { at: 2, expected: Expected::ChildName });
    assert_eq!(fault("$.a!"), SelectorFault::Syntax { at: 3, expected: Expected::Matcher });
    assert_eq!(fault("$[a]"), SelectorFault::Syntax { at: 2, expected: Expected::UnionChild });
    assert_eq!(fault("$['a'"), SelectorFault::Syntax { at: 5, expected: Expected::UnionSeparator });
    assert_eq!(fault("$['a"), SelectorFault::Syntax { at: 4, expected: Expected::ClosingQuote });
    assert_eq!(fault("$['a\\"), SelectorFault::Syntax { at: 5, expected: Expected::ClosingQuote });
}

#[test]
fn expected_messages() {
    assert_eq!(expected_message(Expected::ChildName), "expected childName");
    assert_eq!(expected_message(Expected::UnionSeparator), "expected `,` or `]`");
}

#[test]
fn decode_tab() {
    assert_eq!(unescape("a\\tb"), Ok("a\tb".to_string()));
}

#[test]
fn decode_unicode_escape() {
    assert_eq!(unescape("\\u0041"), Ok("A".to_string()));
    assert_eq!(unescape("\\u00e9x"), Ok("éx".to_string()));
}

#[test]
fn decode_truncated_hex() {
    assert_eq!(unescape("\\u00"), Err(EscapeError::Truncated { at: 0 }));
}

#[test]
fn decode_unknown_escape_letter() {
    assert_eq!(unescape("\\x"), Err(EscapeError::UnknownEscape { at: 0, letter: 'x' }));
}

#[test]
fn decode_every_short_escape() {
    assert_eq!(
        unescape(r#"\"\'\\\/\b\f\n\r\t"#),
        Ok("\"'\\/\u{0008}\u{000C}\n\r\t".to_string())
    );
}

#[test]
fn decode_edge_cases() {
    assert_eq!(unescape(""), Ok(String::new()));
    assert_eq!(unescape("plain"), Ok("plain".to_string()));
    assert_eq!(unescape("ab\\"), Err(EscapeError::Truncated { at: 2 }));
    assert_eq!(unescape("\\u00g1"), Err(EscapeError::InvalidHexDigit { at: 0 }));
    assert_eq!(unescape("\\uDC00"), Err(EscapeError::InvalidCodePoint { at: 0, value: 0xDC00 }));
    assert_eq!(unescape("\\uFFFF"), Ok("\u{FFFF}".to_string()));
}

#[test]
fn textual_form_of_dotted_path() {
    let p = parse("$.a.*.b").unwrap();
    assert_eq!(p.to_selector(), "$.a.*.b");
}

#[test]
fn textual_form_quotes_names_that_are_not_bare() {
    let p = parse(r#"$['a b',"q\"x\\y",'\u0041'].c"#).unwrap();
    assert_eq!(
        p.matchers(),
        &[Matcher::Root, named("a b"), named("q\"x\\y"), named("A"), named("c")][..]
    );
    let text = p.to_selector();
    assert_eq!(text, r#"$["a b"]["q\"x\\y"].A.c"#);
    assert_eq!(parse(&text).unwrap(), p);
}

#[test]
fn reparsing_textual_form_gives_same_matchers() {
    for s in ["$", "$.*", "$.a.b", "$['']", "$[\"\\t\"].x_9", "$.é['.']"] {
        let p = parse(s).unwrap();
        assert_eq!(parse(&p.to_selector()).unwrap(), p, "{}", s);
    }
}

#[test]
fn text_of_matchers_writes_each_kind() {
    let ms = vec![Matcher::Root, Matcher::WildcardChild, named("k"), named("")];
    assert_eq!(selector_path::textual::text_of_matchers(&ms), "$.*.k[\"\"]");
}
