use sltf::{LexError, Lexer, Prim, Tok};

fn tcase(input: &str, expected: Vec<Tok>) {
    let lexer: Lexer = Lexer::new();
    let actual = lexer.tokenize(input);
    assert_eq!(actual, Ok(expected))
}

fn tok_str(val: &str) -> Tok {
    Tok::LitTok(Prim::Str(val.to_string()))
}

fn tok_sym(val: &str) -> Tok {
    Tok::SymbolTok(val.to_string())
}

fn tok_int(val: i64) -> Tok {
    Tok::LitTok(Prim::Int(val))
}

#[test]
fn test_tokenize_delimiter() {
    tcase(";", vec![Tok::SemiColon]);
    tcase(":", vec![Tok::Colon]);
    tcase(": ;", vec![Tok::Colon, Tok::SemiColon]);
    tcase(" :", vec![Tok::Colon]);
    tcase(": ", vec![Tok::Colon]);
    tcase("   :  ", vec![Tok::Colon]);
    tcase("   :  ; ", vec![Tok::Colon, Tok::SemiColon]);
}

#[test]
fn test_tokenize_number() {
    tcase("3", vec![Tok::LitTok(Prim::Int(3))]);
    tcase("-3", vec![Tok::LitTok(Prim::Int(-3))]);
    tcase(
        " -358     932 -5 ",
        vec![
            Tok::LitTok(Prim::Int(-358)),
            Tok::LitTok(Prim::Int(932)),
            Tok::LitTok(Prim::Int(-5)),
        ],
    );
}

#[test]
fn test_tokenize_string() {
    tcase(r#" "" "#, vec![tok_str("")]);
    tcase(r#""hi""#, vec![tok_str("hi")]);
    tcase(r#""hello, there""#, vec![tok_str("hello, there")]);
    tcase(r#""\"Yo!\", he said""#, vec![tok_str("\"Yo!\", he said")]);
    tcase(r#""hey there" "x""#, vec![tok_str("hey there"), tok_str("x")]);
}

#[test]
fn test_tokenize_symbol() {
    tcase(r#"+"#, vec![tok_sym("+")]);
    tcase(r#"* /"#, vec![tok_sym("*"), tok_sym("/")]);
    tcase(r#"my-symbol %*+"#, vec![tok_sym("my-symbol"), tok_sym("%*+")]);
}

#[test]
fn empty_and_blank_input_have_no_tokens() {
    tcase("", vec![]);
    tcase(" \t\r\n", vec![]);
    tcase("\u{a0}\u{2003}\u{3000}", vec![]);
}

#[test]
fn integer_limits() {
    tcase("9223372036854775807", vec![tok_int(i64::MAX)]);
    tcase("-9223372036854775808", vec![tok_int(i64::MIN)]);
    tcase("0", vec![tok_int(0)]);
    tcase("-0", vec![tok_int(0)]);
    tcase("007", vec![tok_int(7)]);
    tcase("1234567890", vec![tok_int(1234567890)]);
}

#[test]
fn integer_out_of_range_is_an_error() {
    let lexer = Lexer::new();
    assert_eq!(
        lexer.tokenize("9223372036854775808"),
        Err(LexError::IntegerOutOfRange("9223372036854775808".to_string()))
    );
    assert_eq!(
        lexer.tokenize("1 -9223372036854775809 2"),
        Err(LexError::IntegerOutOfRange("-9223372036854775809".to_string()))
    );
    assert_eq!(
        lexer.tokenize("5 99999999999999999999999999 77777777777777777777777"),
        Err(LexError::IntegerOutOfRange("99999999999999999999999999".to_string()))
    );
}

#[test]
fn minus_alone_is_a_symbol() {
    tcase("-", vec![tok_sym("-")]);
    tcase("- 5", vec![tok_sym("-"), tok_int(5)]);
    tcase("-x", vec![tok_sym("-x")]);
    tcase("--5", vec![tok_sym("--5")]);
    tcase("a-5", vec![tok_sym("a-5")]);
}

#[test]
fn digits_end_an_integer_where_they_stop() {
    tcase("12abc", vec![tok_int(12), tok_sym("abc")]);
    tcase("-12abc", vec![tok_int(-12), tok_sym("abc")]);
    tcase("3-4", vec![tok_int(3), tok_int(-4)]);
    tcase("abc12", vec![tok_sym("abc12")]);
}

#[test]
fn delimiters_only_alone() {
    tcase(":a", vec![tok_sym(":a")]);
    tcase(";abc", vec![tok_sym(";abc")]);
    tcase("abc:", vec![tok_sym("abc:")]);
    tcase(":;", vec![tok_sym(":;")]);
    tcase("::", vec![tok_sym("::")]);
    tcase(": x ;", vec![Tok::Colon, tok_sym("x"), Tok::SemiColon]);
}

#[test]
fn quotes_end_a_symbol() {
    tcase(r#"abc"def""#, vec![tok_sym("abc"), tok_str("def")]);
    tcase(r#""a""b""#, vec![tok_str("a"), tok_str("b")]);
    tcase(r#""abc"def"#, vec![tok_str("abc"), tok_sym("def")]);
    tcase(r#"5"x""#, vec![tok_int(5), tok_str("x")]);
}

#[test]
fn unclosed_quote_is_passed_over() {
    tcase(r#""abc"#, vec![tok_sym("abc")]);
    tcase(r#""abc def"#, vec![tok_sym("abc"), tok_sym("def")]);
    tcase(r#"""""#, vec![tok_str("")]);
    tcase(r#""a\"#, vec![tok_sym("a\\")]);
    tcase("\"a\\\nb\"", vec![tok_sym("a\\"), tok_sym("b")]);
}

#[test]
fn escapes_are_decoded_pair_by_pair() {
    tcase(r#""a\nb""#, vec![tok_str("a\nb")]);
    tcase(r#""a\tb""#, vec![tok_str("a\tb")]);
    tcase(r#""a\rb""#, vec![tok_str("a\rb")]);
    tcase(r#""a\\b""#, vec![tok_str("a\\b")]);
    tcase(r#""a\"b""#, vec![tok_str("a\"b")]);
    tcase(r#""\\n""#, vec![tok_str("\\n")]);
    tcase(r#""\\\n""#, vec![tok_str("\\\n")]);
    tcase(r#""\x\ ""#, vec![tok_str("\\x\\ ")]);
    tcase("\"line\nbreak\"", vec![tok_str("line\nbreak")]);
}

fn encode(value: &str) -> String {
    let mut text = String::from("\"");
    for c in value.chars() {
        match c {
            '\n' => text.push_str("\\n"),
            '\t' => text.push_str("\\t"),
            '\r' => text.push_str("\\r"),
            '\\' => text.push_str("\\\\"),
            '"' => text.push_str("\\\""),
            other => text.push(other),
        }
    }
    text.push('"');
    text
}

#[test]
fn encoded_strings_come_back() {
    let values = [
        "",
        "plain",
        "say \"hi\"",
        "back\\slash",
        "\\\"",
        "\\n is not a line feed",
        "tab\there\nand\rthere",
        "\\\\\\",
        "\"\"\"",
        "ünï cödé ✓",
        "trailing backslash\\",
    ];
    for value in values {
        tcase(&encode(value), vec![tok_str(value)]);
    }
}

#[test]
fn integer_texts_are_one_literal() {
    for n in [0i64, 1, -1, 42, -42, 1000, -99999, i64::MAX, i64::MIN, i64::MAX - 1, i64::MIN + 1] {
        tcase(&n.to_string(), vec![tok_int(n)]);
    }
}

#[test]
fn unicode_symbols() {
    tcase("λ → ∀x", vec![tok_sym("λ"), tok_sym("→"), tok_sym("∀x")]);
    tcase("a\u{2028}b", vec![tok_sym("a"), tok_sym("b")]);
    tcase("٣", vec![tok_sym("٣")]);
}

fn one(text: &str) -> Result<Tok, LexError> {
    let raw: Vec<char> = text.chars().collect();
    Lexer::new().tokenize_one(&raw)
}

#[test]
fn token_texts_are_classified_in_order() {
    assert_eq!(one(":"), Ok(Tok::Colon));
    assert_eq!(one(";"), Ok(Tok::SemiColon));
    assert_eq!(one("-17"), Ok(tok_int(-17)));
    assert_eq!(one("-"), Ok(tok_sym("-")));
    assert_eq!(one(":;"), Ok(tok_sym(":;")));
    assert_eq!(one("a1"), Ok(tok_sym("a1")));
    assert_eq!(one(r#""a\tb""#), Ok(tok_str("a\tb")));
    assert_eq!(
        one("-9223372036854775809"),
        Err(LexError::IntegerOutOfRange("-9223372036854775809".to_string()))
    );
}

#[test]
fn text_without_a_shape_is_unclassified() {
    for text in ["", "12ab", "a b", " a", "a\"b", "\"a", "\"a\"b", "\"a\"\"", "1 ", "\"\\\""] {
        assert_eq!(one(text), Err(LexError::Unclassified(text.to_string())), "text: {:?}", text);
    }
}
