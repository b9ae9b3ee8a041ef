use regex::Regex;
use sltf::{LexError, Lexer, Prim, Tok};

/// The token grammar, written as regular expressions.
struct Patterns {
    token: Regex,
    delimiter: Regex,
    number: Regex,
    symbol: Regex,
    string: Regex,
}

impl Patterns {
    fn new() -> Self {
        Patterns {
            token: Regex::new(r#"\s*(-?[0-9]+|[^"0-9\s][^"\s]*|"(?:\\.|[^\\"])*"|;|:)"#).unwrap(),
            delimiter: Regex::new(r"^(?:;|:)$").unwrap(),
            number: Regex::new(r"^-?[0-9]+$").unwrap(),
            symbol: Regex::new(r#"^[^"0-9\s][^"\s]*$"#).unwrap(),
            string: Regex::new(r#"^"((?:\\.|[^\\"])*)"$"#).unwrap(),
        }
    }

    fn tokens(&self, input: &str) -> Result<Vec<Tok>, LexError> {
        let mut tokens = Vec::new();
        for found in self.token.captures_iter(input) {
            let raw = &found[1];
            if self.delimiter.is_match(raw) {
                tokens.push(if raw == ";" { Tok::SemiColon } else { Tok::Colon });
            } else if self.number.is_match(raw) {
                match raw.parse::<i64>() {
                    Ok(n) => tokens.push(Tok::LitTok(Prim::Int(n))),
                    Err(_) => return Err(LexError::IntegerOutOfRange(raw.to_string())),
                }
            } else if self.symbol.is_match(raw) {
                tokens.push(Tok::SymbolTok(raw.to_string()));
            } else if let Some(parts) = self.string.captures(raw) {
                tokens.push(Tok::LitTok(Prim::Str(decode(&parts[1]))));
            } else {
                return Err(LexError::Unclassified(raw.to_string()));
            }
        }
        Ok(tokens)
    }
}

fn decode(body: &str) -> String {
    let mut value = String::new();
    let mut chars = body.chars();
    while let Some(c) = chars.next() {
        if c != '\\' {
            value.push(c);
            continue;
        }
        match chars.next() {
            Some('n') => value.push('\n'),
            Some('t') => value.push('\t'),
            Some('r') => value.push('\r'),
            Some('\\') => value.push('\\'),
            Some('"') => value.push('"'),
            Some(other) => {
                value.push('\\');
                value.push(other);
            }
            None => value.push('\\'),
        }
    }
    value
}

fn agree(patterns: &Patterns, lexer: &Lexer, input: &str) {
    assert_eq!(lexer.tokenize(input), patterns.tokens(input), "input: {:?}", input);
}

#[test]
fn grammar_agrees_with_its_regular_expressions_on_chosen_texts() {
    let patterns = Patterns::new();
    let lexer = Lexer::new();
    let inputs = [
        "",
        " ",
        "2 3 4 + 5 *",
        ": square dup * ; 2 dup square + 35 swap",
        "12abc -7x --7 - -",
        "a:b :a a: :; ;: :: ;; ; :",
        r#""a" "b\"c" "d\\" "e\n" "\q""#,
        r#"x"y"z"w"#,
        r#"" "" """ """""#,
        r#""unclosed 12 : ;"#,
        "\"a\\\nb\" \"c\nd\"",
        "9223372036854775807 -9223372036854775808",
        "9223372036854775808",
        "1 2 -99999999999999999999 3",
        "tab\tsep\u{a0}nbsp\u{2003}em\u{3000}wide\u{85}nel\u{200b}zwsp",
        "٣ ３ ¹",
        "\\ \\\\ \\\"",
    ];
    for input in inputs {
        agree(&patterns, &lexer, input);
    }
}

#[test]
fn grammar_agrees_with_its_regular_expressions_on_many_texts() {
    let patterns = Patterns::new();
    let lexer = Lexer::new();
    let alphabet = [
        ' ', ' ', '\t', '\n', '"', '"', '\\', '\\', '-', '0', '7', ':', ';', 'a', 'n', '+',
        'é', '\u{a0}', '\u{2003}', '\r',
    ];
    let mut state: u64 = 0x2545_f491_4f6c_dd1d;
    let mut next = move || {
        state = state.wrapping_mul(6364136223846793005).wrapping_add(1442695040888963407);
        (state >> 33) as usize
    };
    for _ in 0..20000 {
        let len = next() % 14;
        let input: String = (0..len).map(|_| alphabet[next() % alphabet.len()]).collect();
        agree(&patterns, &lexer, &input);
    }
}
