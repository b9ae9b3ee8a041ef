//! What holds of the token grammar: integer literals and string literals
//! lex to the value they denote, and every token text has a shape.

use vstd::prelude::*;
use crate::lex::{
    classify,
    digits_of,
    integer_value,
    is_delimiter_text,
    is_digit,
    is_integer_text,
    is_string_text,
    is_symbol_char,
    is_symbol_text,
    lemma_digits_end_bounds,
    lemma_digits_end_is,
    lemma_digits_end_run,
    lemma_string_end_bounds,
    lemma_symbol_end_bounds,
    lemma_symbol_end_run,
    lemma_token_end_bounds,
    lex,
    lex_from,
    string_body,
    string_end,
    token_end,
    unescape,
    unescaped,
    LexErrorModel,
};
use crate::tok_ast::{PrimModel, TokModel};

verus! {

/// The whole of an integer literal is one token text.
proof fn lemma_integer_text_is_one_token_text(text: Seq<char>)
    requires
        is_integer_text(text),
    ensures
        token_end(text, 0) == text.len(),
        !is_delimiter_text(text),
{
    let digits = digits_of(text);
    if text[0] == '-' {
        assert(digits[0] == text[1]);
        assert forall|k: int| 2 <= k < text.len() implies is_digit(#[trigger] text[k]) by {
            assert(digits[k - 1] == text[k]);
        }
        lemma_digits_end_is(text, 2, text.len() as int);
    } else {
        assert(is_digit(digits[0]));
        assert forall|k: int| 1 <= k < text.len() implies is_digit(#[trigger] text[k]) by {
            assert(digits[k] == text[k]);
        }
        lemma_digits_end_is(text, 1, text.len() as int);
    }
}

/// An integer literal whose value an `i64` holds has exactly one token: the
/// integer that it denotes, negative values included.
pub proof fn lemma_integer_text_lexes(text: Seq<char>)
    requires
        is_integer_text(text),
        i64::MIN <= integer_value(text) <= i64::MAX,
    ensures
        lex(text) == Ok::<_, LexErrorModel>(
            seq![TokModel::LitTok(PrimModel::Int(integer_value(text)))],
        ),
{
    lemma_integer_text_is_one_token_text(text);
    let tok = TokModel::LitTok(PrimModel::Int(integer_value(text)));
    assert(text.subrange(0, text.len() as int) =~= text);
    assert(lex_from(text, text.len() as int) == Ok::<_, LexErrorModel>(Seq::<TokModel>::empty()));
    assert(seq![tok] + Seq::<TokModel>::empty() =~= seq![tok]);
}

/// An integer literal whose value no `i64` holds has no tokens: it is
/// refused, with its text.
pub proof fn lemma_integer_text_out_of_range(text: Seq<char>)
    requires
        is_integer_text(text),
        !(i64::MIN <= integer_value(text) <= i64::MAX),
    ensures
        lex(text) == Err::<Seq<TokModel>, _>(LexErrorModel::IntegerOutOfRange(text)),
{
    lemma_integer_text_is_one_token_text(text);
    assert(text.subrange(0, text.len() as int) =~= text);
}

/// How a character of a string's value is written in the body of a literal.
pub open spec fn escaped(c: char) -> Seq<char> {
    if c == '\n' {
        seq!['\\', 'n']
    } else if c == '\t' {
        seq!['\\', 't']
    } else if c == '\r' {
        seq!['\\', 'r']
    } else if c == '\\' {
        seq!['\\', '\\']
    } else if c == '"' {
        seq!['\\', '"']
    } else {
        seq![c]
    }
}

/// The body of the literal that denotes `value`.
pub open spec fn escape(value: Seq<char>) -> Seq<char>
    decreases value.len(),
{
    if value.len() == 0 {
        Seq::empty()
    } else {
        escaped(value[0]) + escape(value.skip(1))
    }
}

/// Decoding undoes the encoding of one character.
proof fn lemma_unescape_escaped(c: char, rest: Seq<char>)
    ensures
        unescape(escaped(c) + rest) == seq![c] + unescape(rest),
{
    let body = escaped(c) + rest;
    if escaped(c).len() == 2 {
        assert(body[0] == '\\');
        assert(body[1] == escaped(c)[1]);
        assert(body.skip(2) =~= rest);
        assert(unescaped(body[1]) =~= seq![c]);
    } else {
        assert(body[0] == c);
        assert(body.skip(1) =~= rest);
    }
}

/// Decoding is the inverse of encoding: the body that denotes a value
/// decodes to that value, whatever characters the value holds.
pub proof fn lemma_unescape_escape(value: Seq<char>)
    ensures
        unescape(escape(value)) == value,
    decreases value.len(),
{
    if value.len() > 0 {
        lemma_unescape_escaped(value[0], escape(value.skip(1)));
        lemma_unescape_escape(value.skip(1));
        assert(seq![value[0]] + value.skip(1) =~= value);
    }
}

/// Where the rest of a text is an encoded value and a `"`, the body that is
/// read there ends with the text.
proof fn lemma_string_end_of_escape(s: Seq<char>, j: int, value: Seq<char>)
    requires
        0 <= j <= s.len(),
        s.subrange(j, s.len() as int) == escape(value) + seq!['"'],
    ensures
        string_end(s, j) == Some(s.len() as int),
    decreases value.len(),
{
    let tail = s.subrange(j, s.len() as int);
    if value.len() == 0 {
        assert(tail.len() == 1);
        assert(tail[0] == '"');
        assert(s[j] == tail[0]);
    } else {
        let first = escaped(value[0]);
        let more = escape(value.skip(1)) + seq!['"'];
        assert(tail =~= first + more);
        assert(s[j] == tail[0]);
        if first.len() == 2 {
            assert(s[j + 1] == tail[1]);
            assert(tail.skip(2) =~= more);
            assert(s.subrange(j + 2, s.len() as int) =~= tail.skip(2));
            lemma_string_end_of_escape(s, j + 2, value.skip(1));
        } else {
            assert(tail.skip(1) =~= more);
            assert(s.subrange(j + 1, s.len() as int) =~= tail.skip(1));
            lemma_string_end_of_escape(s, j + 1, value.skip(1));
        }
    }
}

/// The string literal that denotes `value`: its encoding between two `"`.
pub open spec fn string_literal(value: Seq<char>) -> Seq<char> {
    seq!['"'] + escape(value) + seq!['"']
}

/// A string survives being written as a literal and read back: the literal
/// of a value has exactly one token, the string with that value.
pub proof fn lemma_string_literal_lexes(value: Seq<char>)
    ensures
        lex(string_literal(value)) == Ok::<_, LexErrorModel>(
            seq![TokModel::LitTok(PrimModel::Str(value))],
        ),
{
    let text = string_literal(value);
    let end = text.len() as int;
    let tok = TokModel::LitTok(PrimModel::Str(value));
    assert(text[0] == '"');
    assert(text.subrange(1, end) =~= escape(value) + seq!['"']);
    lemma_string_end_of_escape(text, 1, value);
    assert(token_end(text, 0) == end);
    assert(text.subrange(0, end) =~= text);
    assert(!is_digit(text[0]) && !is_symbol_char(text[0]));
    assert(!is_integer_text(text)) by {
        assert(digits_of(text)[0] == text[0]);
    }
    assert(is_string_text(text));
    assert(string_body(text) =~= escape(value));
    lemma_unescape_escape(value);
    assert(classify(text) == Ok::<_, LexErrorModel>(tok));
    assert(lex_from(text, end) == Ok::<_, LexErrorModel>(Seq::<TokModel>::empty()));
    assert(seq![tok] + Seq::<TokModel>::empty() =~= seq![tok]);
}

/// A body that ends at `end` in a text also ends there in the part of the
/// text that stops at `end`.
proof fn lemma_string_end_in_part(s: Seq<char>, from: int, j: int, end: int)
    requires
        0 <= from <= j,
        string_end(s, j) == Some(end),
    ensures
        string_end(s.subrange(from, end), j - from) == Some(end - from),
    decreases s.len() - j,
{
    lemma_string_end_bounds(s, j);
    let part = s.subrange(from, end);
    assert(part[j - from] == s[j]);
    if s[j] == '"' {
    } else if s[j] == '\\' {
        lemma_string_end_bounds(s, j + 2);
        assert(part[j + 1 - from] == s[j + 1]);
        lemma_string_end_in_part(s, from, j + 2, end);
    } else {
        lemma_string_end_in_part(s, from, j + 1, end);
    }
}

/// Every token text has one of the four shapes of a token.
pub proof fn lemma_token_text_has_a_shape(s: Seq<char>, i: int)
    requires
        0 <= i < s.len(),
        i < token_end(s, i),
    ensures
        ({
            let text = s.subrange(i, token_end(s, i));
            is_delimiter_text(text) || is_integer_text(text) || is_symbol_text(text)
                || is_string_text(text)
        }),
{
    lemma_token_end_bounds(s, i);
    let end = token_end(s, i);
    let text = s.subrange(i, end);
    assert(text[0] == s[i]);
    if is_digit(s[i]) {
        lemma_digits_end_run(s, i + 1);
        assert(digits_of(text) == text);
        assert forall|k: int| 0 <= k < text.len() implies is_digit(#[trigger] text[k]) by {
            assert(text[k] == s[i + k]);
        }
        assert(is_integer_text(text));
    } else if s[i] == '-' && i + 1 < s.len() && is_digit(s[i + 1]) {
        lemma_digits_end_run(s, i + 2);
        lemma_digits_end_bounds(s, i + 2);
        let digits = digits_of(text);
        assert forall|k: int| 0 <= k < digits.len() implies is_digit(#[trigger] digits[k]) by {
            assert(digits[k] == s[i + 1 + k]);
        }
        assert(is_integer_text(text));
    } else if s[i] == '"' {
        lemma_string_end_in_part(s, i, i + 1, end);
        lemma_string_end_bounds(s, i + 1);
        assert(is_string_text(text));
    } else {
        lemma_symbol_end_run(s, i + 1);
        lemma_symbol_end_bounds(s, i + 1);
        assert forall|k: int| 0 <= k < text.len() implies is_symbol_char(#[trigger] text[k]) by {
            assert(text[k] == s[i + k]);
        }
        assert(is_symbol_text(text));
    }
}

/// Lexing fails on nothing but an integer literal that is out of range: no
/// text that the lexer splits off is without a shape.
pub proof fn lemma_lex_fails_only_on_integers(s: Seq<char>, i: int)
    ensures
        lex_from(s, i) matches Err(e) ==> e matches LexErrorModel::IntegerOutOfRange(text)
            && is_integer_text(text) && !(i64::MIN <= integer_value(text) <= i64::MAX),
    decreases s.len() - i,
{
    if 0 <= i < s.len() {
        lemma_token_end_bounds(s, i);
        if token_end(s, i) <= i {
            lemma_lex_fails_only_on_integers(s, i + 1);
        } else {
            lemma_token_text_has_a_shape(s, i);
            lemma_lex_fails_only_on_integers(s, token_end(s, i));
        }
    }
}

} // verus!
