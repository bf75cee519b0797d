use microlang::lexer::{lex_next, Token};
use microlang::preprocessor::{assemble, include_files};
use microlang::text::{chars_of, parse_decimal_i32, parse_hex_i32, string_from_chars, trimmed};

fn tokens(src: &str) -> Vec<(Result<Token, ()>, String)> {
    let c = chars_of(src);
    let mut pos = 0;
    let mut out = Vec::new();
    while let Some((t, s, e)) = lex_next(&c, pos) {
        out.push((t, c[s..e].iter().collect()));
        pos = e;
    }
    out
}

fn tok(t: Token, s: &str) -> (Result<Token, ()>, String) {
    (Ok(t), s.to_string())
}

fn err(s: &str) -> (Result<Token, ()>, String) {
    (Err(()), s.to_string())
}

#[test]
fn lexer_takes_longest_match() {
    assert_eq!(
        tokens("ab:c @lbl #1f $%<> \"x y\""),
        vec![
            tok(Token::Label, "ab:"),
            tok(Token::Ident, "c"),
            tok(Token::LabelAdress, "@lbl"),
            tok(Token::Number, "#1f"),
            tok(Token::Dollar, "$"),
            tok(Token::Percent, "%"),
            tok(Token::Less, "<"),
            tok(Token::Greater, ">"),
            tok(Token::String, "\"x y\""),
        ]
    );
}

#[test]
fn lexer_number_takes_chars_zero_to_f() {
    assert_eq!(tokens("#1:g"), vec![tok(Token::Number, "#1:"), tok(Token::Ident, "g")]);
    assert_eq!(tokens("#@A_"), vec![tok(Token::Number, "#@A_")]);
}

#[test]
fn lexer_include_and_partial_include() {
    assert_eq!(tokens("#include"), vec![tok(Token::Include, "#include")]);
    assert_eq!(tokens("#includes"), vec![tok(Token::Include, "#include"), tok(Token::Ident, "s")]);
    assert_eq!(tokens("#inc x"), vec![err("#inc"), tok(Token::Ident, "x")]);
    assert_eq!(tokens("#"), vec![err("#")]);
    assert_eq!(tokens("#z"), vec![err("#"), tok(Token::Ident, "z")]);
}

#[test]
fn lexer_errors_and_skips() {
    assert_eq!(tokens("\"abc"), vec![err("\"abc")]);
    assert_eq!(tokens("a\r\nb"), vec![tok(Token::Ident, "a"), err("\r"), tok(Token::Ident, "b")]);
    assert_eq!(tokens("/x"), vec![err("/"), tok(Token::Ident, "x")]);
    assert_eq!(tokens("a // c d\nb"), vec![tok(Token::Ident, "a"), tok(Token::Ident, "b")]);
    assert_eq!(tokens("\u{e9}@ "), vec![err("\u{e9}"), err("@")]);
    assert_eq!(tokens(" \t\n\u{c} "), vec![]);
}

#[test]
fn includes_are_found_in_order() {
    let (names, complete) = include_files("#include \"a.ml\" main: #include \"b.ml\" put");
    assert!(complete);
    assert_eq!(names, vec!["a.ml".to_string(), "b.ml".to_string()]);
    let (names, complete) = include_files("#include \"a.ml\" #include put");
    assert!(!complete);
    assert_eq!(names, vec!["a.ml".to_string()]);
    let (names, complete) = include_files("main: put");
    assert!(complete && names.is_empty());
}

#[test]
fn assemble_puts_includes_first() {
    let parts = vec!["lib1".to_string(), "lib2".to_string()];
    assert_eq!(assemble(&parts, "src"), "lib1lib2\nsrc");
    assert_eq!(assemble(&Vec::new(), "src"), "\nsrc");
}

#[test]
fn decimal_parsing_matches_i32_parse() {
    let p = |s: &str| parse_decimal_i32(&chars_of(s));
    assert_eq!(p("42"), Some(42));
    assert_eq!(p("+42"), Some(42));
    assert_eq!(p("-2147483648"), Some(i32::MIN));
    assert_eq!(p("2147483647"), Some(i32::MAX));
    assert_eq!(p("2147483648"), None);
    assert_eq!(p("-"), None);
    assert_eq!(p("+"), None);
    assert_eq!(p(""), None);
    assert_eq!(p("1a"), None);
    assert_eq!(p("007"), Some(7));
    for s in ["0", "-0", "123456", "-99999", "+1", "x", "--1"] {
        assert_eq!(p(s), s.parse::<i32>().ok(), "{}", s);
    }
}

#[test]
fn hex_parsing_matches_from_str_radix() {
    for s in ["ff", "FF", "7fffffff", "80000000", "0", "1:", "G", "abcdef"] {
        let c = chars_of(s);
        assert_eq!(parse_hex_i32(&c, 0, c.len()), i32::from_str_radix(s, 16).ok(), "{}", s);
    }
    let c = chars_of("");
    assert_eq!(parse_hex_i32(&c, 0, 0), None);
}

#[test]
fn trimming_matches_str_trim() {
    for s in ["  a b  ", "\u{a0}x\u{3000}", "\t\n", "", "z", " \u{85}q\u{2028}"] {
        let t: String = trimmed(&chars_of(s)).into_iter().collect();
        assert_eq!(t, s.trim(), "{:?}", s);
    }
}

#[test]
fn strings_from_chars() {
    let c = chars_of("h\u{e9}llo");
    assert_eq!(string_from_chars(&c, 1, 4), "\u{e9}ll");
    assert_eq!(string_from_chars(&c, 2, 2), "");
}

#[test]
fn tokens_are_longest_matches() {
    assert_eq!(tokens("abc123:x"), vec![tok(Token::Label, "abc123:"), tok(Token::Ident, "x")]);
    assert_eq!(tokens("@ab1!"), vec![tok(Token::LabelAdress, "@ab1"), err("!")]);
    assert_eq!(tokens("#0f9g"), vec![tok(Token::Number, "#0f9"), tok(Token::Ident, "g")]);
    assert_eq!(tokens("\"\""), vec![tok(Token::String, "\"\"")]);
}

#[test]
fn error_spans() {
    assert_eq!(tokens("\"ab\ncd"), vec![err("\"ab\ncd")]);
    assert_eq!(tokens("#includ"), vec![err("#includ")]);
    assert_eq!(tokens("#inx"), vec![err("#in"), tok(Token::Ident, "x")]);
    assert_eq!(tokens("?:"), vec![err("?"), err(":")]);
}
