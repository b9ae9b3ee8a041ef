//! The lexer: from text to tokens.
//!
//! The token grammar is stated over sequences of characters. [`token_end`]
//! says where the token text that starts at a position ends, [`classify`]
//! says which token a token text is, and [`lex`] reads a whole input from
//! left to right with the two. [`Lexer::tokenize`] is proved to compute
//! [`lex`].

use vstd::prelude::*;
use vstd::slice::slice_subrange;
use crate::tok_ast::{lemma_deep_view_push, Prim, PrimModel, Tok, TokModel};

verus! {

/// What is assumed of `String::push` of the standard library: the string
/// afterwards is the string before with `c` appended, and nothing else. This
/// is taken from the documentation of `String::push`; it is not proved.
pub assume_specification[ String::push ](s: &mut String, c: char)
    ensures
        final(s)@ == old(s)@.push(c),
;

/// Why a text has no tokens.
#[derive(Debug, PartialEq, Eq)]
pub enum LexError {
    /// The text is an integer literal whose value no `i64` holds.
    IntegerOutOfRange(String),
    /// The text has none of the four shapes of a token.
    Unclassified(String),
}

/// Model of a [`LexError`].
pub enum LexErrorModel {
    IntegerOutOfRange(Seq<char>),
    Unclassified(Seq<char>),
}

impl View for LexError {
    type V = LexErrorModel;

    open spec fn view(&self) -> LexErrorModel {
        match self {
            LexError::IntegerOutOfRange(text) => LexErrorModel::IntegerOutOfRange(text@),
            LexError::Unclassified(text) => LexErrorModel::Unclassified(text@),
        }
    }
}

// ---------------------------------------------------------------------------
// Character classes
// ---------------------------------------------------------------------------

/// The decimal digits `0` to `9`.
pub open spec fn is_digit(c: char) -> bool {
    '0' <= c <= '9'
}

/// The characters with the Unicode property `White_Space`.
pub open spec fn is_space(c: char) -> bool {
    ||| '\t' <= c <= '\r'
    ||| c == ' '
    ||| c == '\u{85}'
    ||| c == '\u{a0}'
    ||| c == '\u{1680}'
    ||| '\u{2000}' <= c <= '\u{200a}'
    ||| '\u{2028}' <= c <= '\u{2029}'
    ||| c == '\u{202f}'
    ||| c == '\u{205f}'
    ||| c == '\u{3000}'
}

/// The characters that a symbol may hold: all but white space and `"`.
pub open spec fn is_symbol_char(c: char) -> bool {
    !is_space(c) && c != '"'
}

/// The number that a decimal digit stands for.
pub open spec fn digit_value(c: char) -> int {
    c as int - '0' as int
}

fn char_is_digit(c: char) -> (b: bool)
    ensures
        b == is_digit(c),
{
    '0' <= c && c <= '9'
}

fn char_is_space(c: char) -> (b: bool)
    ensures
        b == is_space(c),
{
    ('\t' <= c && c <= '\r') || c == ' ' || c == '\u{85}' || c == '\u{a0}' || c == '\u{1680}' || (
    '\u{2000}' <= c && c <= '\u{200a}') || ('\u{2028}' <= c && c <= '\u{2029}') || c == '\u{202f}'
        || c == '\u{205f}' || c == '\u{3000}'
}

fn char_is_symbol_char(c: char) -> (b: bool)
    ensures
        b == is_symbol_char(c),
{
    !char_is_space(c) && c != '"'
}

// ---------------------------------------------------------------------------
// The shapes of a token text
// ---------------------------------------------------------------------------

/// A delimiter is the single character `:` or `;`.
pub open spec fn is_delimiter_text(text: Seq<char>) -> bool {
    text.len() == 1 && (text[0] == ':' || text[0] == ';')
}

/// Whether every character of `text` is a decimal digit.
pub open spec fn all_digits(text: Seq<char>) -> bool {
    forall|k: int| 0 <= k < text.len() ==> is_digit(#[trigger] text[k])
}

/// The digits of an integer text: the text without its sign.
pub open spec fn digits_of(text: Seq<char>) -> Seq<char> {
    if text.len() > 0 && text[0] == '-' {
        text.skip(1)
    } else {
        text
    }
}

/// An integer literal is an optional `-` and then one or more decimal digits.
pub open spec fn is_integer_text(text: Seq<char>) -> bool {
    digits_of(text).len() > 0 && all_digits(digits_of(text))
}

/// The number that a run of decimal digits denotes.
pub open spec fn decimal_value(digits: Seq<char>) -> nat
    decreases digits.len(),
{
    if digits.len() == 0 {
        0
    } else {
        (decimal_value(digits.drop_last()) * 10 + digit_value(digits.last())) as nat
    }
}

/// The number that an integer literal denotes.
pub open spec fn integer_value(text: Seq<char>) -> int {
    if text.len() > 0 && text[0] == '-' {
        -(decimal_value(text.skip(1)) as int)
    } else {
        decimal_value(text) as int
    }
}

/// A symbol is one or more symbol characters, the first of which is no digit.
pub open spec fn is_symbol_text(text: Seq<char>) -> bool {
    &&& text.len() > 0
    &&& !is_digit(text[0])
    &&& forall|k: int| 0 <= k < text.len() ==> is_symbol_char(#[trigger] text[k])
}

/// Reading the body of a string literal from position `j` on: the position
/// just after the closing `"`, if the body is well formed up to one.
///
/// The body is made of characters other than `\` and `"`, and of pairs of a
/// `\` and any character but a line feed.
pub open spec fn string_end(s: Seq<char>, j: int) -> Option<int>
    decreases s.len() - j,
{
    if j < 0 || j >= s.len() {
        None
    } else if s[j] == '"' {
        Some(j + 1)
    } else if s[j] == '\\' {
        if j + 1 < s.len() && s[j + 1] != '\n' {
            string_end(s, j + 2)
        } else {
            None
        }
    } else {
        string_end(s, j + 1)
    }
}

/// A string literal is a `"`, a body, and the `"` that closes it, with
/// nothing after it.
pub open spec fn is_string_text(text: Seq<char>) -> bool {
    text.len() >= 2 && text[0] == '"' && string_end(text, 1) == Some(text.len() as int)
}

/// What the character after a `\` stands for. The pairs `\n`, `\t`, `\r`,
/// `\\` and `\"` stand for one character each; any other pair stands for
/// itself.
pub open spec fn unescaped(c: char) -> Seq<char> {
    if c == 'n' {
        seq!['\n']
    } else if c == 't' {
        seq!['\t']
    } else if c == 'r' {
        seq!['\r']
    } else if c == '\\' {
        seq!['\\']
    } else if c == '"' {
        seq!['"']
    } else {
        seq!['\\', c]
    }
}

/// The value of the body of a string literal: each pair that begins with `\`
/// replaced by what it stands for, from left to right.
pub open spec fn unescape(body: Seq<char>) -> Seq<char>
    decreases body.len(),
{
    if body.len() == 0 {
        Seq::empty()
    } else if body[0] == '\\' && body.len() >= 2 {
        unescaped(body[1]) + unescape(body.skip(2))
    } else {
        seq![body[0]] + unescape(body.skip(1))
    }
}

/// The body of a string literal: the text without its two quotes.
pub open spec fn string_body(text: Seq<char>) -> Seq<char> {
    text.subrange(1, text.len() - 1)
}

/// The token that a token text is. The shapes are tried in the order
/// delimiter, integer, symbol, string.
pub open spec fn classify(text: Seq<char>) -> Result<TokModel, LexErrorModel> {
    if is_delimiter_text(text) {
        if text[0] == ';' {
            Ok(TokModel::SemiColon)
        } else {
            Ok(TokModel::Colon)
        }
    } else if is_integer_text(text) {
        if i64::MIN <= integer_value(text) <= i64::MAX {
            Ok(TokModel::LitTok(PrimModel::Int(integer_value(text))))
        } else {
            Err(LexErrorModel::IntegerOutOfRange(text))
        }
    } else if is_symbol_text(text) {
        Ok(TokModel::SymbolTok(text))
    } else if is_string_text(text) {
        Ok(TokModel::LitTok(PrimModel::Str(unescape(string_body(text)))))
    } else {
        Err(LexErrorModel::Unclassified(text))
    }
}

// ---------------------------------------------------------------------------
// Splitting the input into token texts
// ---------------------------------------------------------------------------

/// The end of the longest run of decimal digits that starts at `i`.
pub open spec fn digits_end(s: Seq<char>, i: int) -> int
    decreases s.len() - i,
{
    if 0 <= i < s.len() && is_digit(s[i]) {
        digits_end(s, i + 1)
    } else {
        i
    }
}

/// The end of the longest run of symbol characters that starts at `i`.
pub open spec fn symbol_end(s: Seq<char>, i: int) -> int
    decreases s.len() - i,
{
    if 0 <= i < s.len() && is_symbol_char(s[i]) {
        symbol_end(s, i + 1)
    } else {
        i
    }
}

/// The end of the token text that starts at `i`, or `i` itself where none
/// starts: at white space, and at a `"` that opens no well-formed string.
///
/// An integer is tried first, so a `-` before a digit is a sign and digits
/// end where the first other character stands; then a symbol, which runs up
/// to the next white space or `"`; then a string.
pub open spec fn token_end(s: Seq<char>, i: int) -> int
    recommends
        0 <= i < s.len(),
{
    if is_digit(s[i]) {
        digits_end(s, i + 1)
    } else if s[i] == '-' && i + 1 < s.len() && is_digit(s[i + 1]) {
        digits_end(s, i + 2)
    } else if is_space(s[i]) {
        i
    } else if s[i] == '"' {
        match string_end(s, i + 1) {
            Some(end) => end,
            None => i,
        }
    } else {
        symbol_end(s, i + 1)
    }
}

/// `first` followed by what `rest` gives, or the error of `rest`.
pub open spec fn then_tokens(first: Seq<TokModel>, rest: Result<Seq<TokModel>, LexErrorModel>)
    -> Result<Seq<TokModel>, LexErrorModel> {
    match rest {
        Ok(toks) => Ok(first + toks),
        Err(e) => Err(e),
    }
}

/// The tokens of `s` from position `i` on, or the first token text that is no
/// token. A character at which no token text starts is passed over.
pub open spec fn lex_from(s: Seq<char>, i: int) -> Result<Seq<TokModel>, LexErrorModel>
    decreases s.len() - i,
    via lex_from_terminates
{
    if i < 0 || i >= s.len() {
        Ok(Seq::empty())
    } else if token_end(s, i) <= i {
        lex_from(s, i + 1)
    } else {
        match classify(s.subrange(i, token_end(s, i))) {
            Ok(tok) => then_tokens(seq![tok], lex_from(s, token_end(s, i))),
            Err(e) => Err(e),
        }
    }
}

#[via_fn]
proof fn lex_from_terminates(s: Seq<char>, i: int) {
    if 0 <= i < s.len() {
        lemma_token_end_bounds(s, i);
    }
}

/// A run of digits ends at or after its start, and inside the input.
pub proof fn lemma_digits_end_bounds(s: Seq<char>, i: int)
    requires
        0 <= i <= s.len(),
    ensures
        i <= digits_end(s, i) <= s.len(),
    decreases s.len() - i,
{
    if i < s.len() && is_digit(s[i]) {
        lemma_digits_end_bounds(s, i + 1);
    }
}

/// A run of symbol characters ends at or after its start, and inside the
/// input.
pub proof fn lemma_symbol_end_bounds(s: Seq<char>, i: int)
    requires
        0 <= i <= s.len(),
    ensures
        i <= symbol_end(s, i) <= s.len(),
    decreases s.len() - i,
{
    if i < s.len() && is_symbol_char(s[i]) {
        lemma_symbol_end_bounds(s, i + 1);
    }
}

/// A string body that is read from `j` ends after `j`, and inside the input.
pub proof fn lemma_string_end_bounds(s: Seq<char>, j: int)
    requires
        0 <= j,
    ensures
        string_end(s, j) matches Some(end) ==> j < end <= s.len(),
    decreases s.len() - j,
{
    if j < s.len() && s[j] != '"' {
        if s[j] == '\\' {
            if j + 1 < s.len() && s[j + 1] != '\n' {
                lemma_string_end_bounds(s, j + 2);
            }
        } else {
            lemma_string_end_bounds(s, j + 1);
        }
    }
}

/// A token text ends inside the input, and not before its start.
pub proof fn lemma_token_end_bounds(s: Seq<char>, i: int)
    requires
        0 <= i < s.len(),
    ensures
        i <= token_end(s, i) <= s.len(),
{
    lemma_digits_end_bounds(s, i + 1);
    if i + 2 <= s.len() {
        lemma_digits_end_bounds(s, i + 2);
    }
    lemma_string_end_bounds(s, i + 1);
    lemma_symbol_end_bounds(s, i + 1);
}

/// The tokens of a text.
pub open spec fn lex(s: Seq<char>) -> Result<Seq<TokModel>, LexErrorModel> {
    lex_from(s, 0)
}

// ---------------------------------------------------------------------------
// Runs of characters
// ---------------------------------------------------------------------------

/// Every character of a run of digits is a digit, and the run stops at the
/// end of the input or at a character that is none.
pub proof fn lemma_digits_end_run(s: Seq<char>, i: int)
    requires
        0 <= i <= s.len(),
    ensures
        forall|k: int| i <= k < digits_end(s, i) ==> is_digit(#[trigger] s[k]),
        digits_end(s, i) == s.len() || !is_digit(s[digits_end(s, i)]),
    decreases s.len() - i,
{
    lemma_digits_end_bounds(s, i);
    if i < s.len() && is_digit(s[i]) {
        lemma_digits_end_run(s, i + 1);
    }
}

/// A run of digits from `from` that stops at `to` is the longest one.
pub proof fn lemma_digits_end_is(s: Seq<char>, from: int, to: int)
    requires
        0 <= from <= to <= s.len(),
        forall|k: int| from <= k < to ==> is_digit(#[trigger] s[k]),
        to == s.len() || !is_digit(s[to]),
    ensures
        digits_end(s, from) == to,
    decreases to - from,
{
    if from < to {
        lemma_digits_end_is(s, from + 1, to);
    }
}

/// Every character of a run of symbol characters is one, and the run stops
/// at the end of the input or at a character that is none.
pub proof fn lemma_symbol_end_run(s: Seq<char>, i: int)
    requires
        0 <= i <= s.len(),
    ensures
        forall|k: int| i <= k < symbol_end(s, i) ==> is_symbol_char(#[trigger] s[k]),
        symbol_end(s, i) == s.len() || !is_symbol_char(s[symbol_end(s, i)]),
    decreases s.len() - i,
{
    lemma_symbol_end_bounds(s, i);
    if i < s.len() && is_symbol_char(s[i]) {
        lemma_symbol_end_run(s, i + 1);
    }
}

/// A longer run of digits denotes a number that is no smaller.
pub proof fn lemma_decimal_value_grows(digits: Seq<char>, k: int)
    requires
        0 <= k <= digits.len(),
        all_digits(digits),
    ensures
        decimal_value(digits.take(k)) <= decimal_value(digits),
    decreases digits.len() - k,
{
    if k < digits.len() {
        let longer = digits.take(k + 1);
        assert(longer.drop_last() =~= digits.take(k));
        assert(longer.last() == digits[k]);
        assert(is_digit(digits[k]));
        lemma_decimal_value_grows(digits, k + 1);
    } else {
        assert(digits.take(k) =~= digits);
    }
}

// ---------------------------------------------------------------------------
// The lexer
// ---------------------------------------------------------------------------

fn digits_end_at(chars: &[char], i: usize) -> (end: usize)
    requires
        i <= chars.len(),
    ensures
        end == digits_end(chars@, i as int),
        i <= end <= chars.len(),
{
    let mut j: usize = i;
    while j < chars.len() && char_is_digit(chars[j])
        invariant
            i <= j <= chars.len(),
            digits_end(chars@, j as int) == digits_end(chars@, i as int),
        decreases chars.len() - j,
    {
        j += 1;
    }
    j
}

fn symbol_end_at(chars: &[char], i: usize) -> (end: usize)
    requires
        i <= chars.len(),
    ensures
        end == symbol_end(chars@, i as int),
        i <= end <= chars.len(),
{
    let mut j: usize = i;
    while j < chars.len() && char_is_symbol_char(chars[j])
        invariant
            i <= j <= chars.len(),
            symbol_end(chars@, j as int) == symbol_end(chars@, i as int),
        decreases chars.len() - j,
    {
        j += 1;
    }
    j
}

fn string_end_at(chars: &[char], start: usize) -> (res: Option<usize>)
    requires
        start <= chars.len(),
    ensures
        match res {
            Some(end) => string_end(chars@, start as int) == Some(end as int) && start < end
                <= chars.len(),
            None => string_end(chars@, start as int) is None,
        },
{
    let mut j: usize = start;
    loop
        invariant
            start <= j <= chars.len(),
            string_end(chars@, j as int) == string_end(chars@, start as int),
        decreases chars.len() - j,
    {
        if j >= chars.len() {
            return None;
        }
        let c = chars[j];
        if c == '"' {
            return Some(j + 1);
        }
        if c == '\\' {
            if j + 1 < chars.len() && chars[j + 1] != '\n' {
                j += 2;
            } else {
                return None;
            }
        } else {
            j += 1;
        }
    }
}

fn token_end_at(chars: &[char], i: usize) -> (end: usize)
    requires
        i < chars.len(),
    ensures
        end == token_end(chars@, i as int),
        i <= end <= chars.len(),
{
    let c = chars[i];
    if char_is_digit(c) {
        digits_end_at(chars, i + 1)
    } else if c == '-' && i + 1 < chars.len() && char_is_digit(chars[i + 1]) {
        digits_end_at(chars, i + 2)
    } else if char_is_space(c) {
        i
    } else if c == '"' {
        match string_end_at(chars, i + 1) {
            Some(end) => end,
            None => i,
        }
    } else {
        symbol_end_at(chars, i + 1)
    }
}

/// The characters of a text, in order.
fn chars_of(text: &str) -> (chars: Vec<char>)
    ensures
        chars@ == text@,
{
    let mut chars: Vec<char> = Vec::new();
    for c in it: text.chars()
        invariant
            it.seq() == text@,
            chars@ == it.seq().take(it.index() as int),
    {
        chars.push(c);
    }
    chars
}

/// The text that holds the given characters, in order.
fn string_of(chars: &[char]) -> (text: String)
    ensures
        text@ == chars@,
{
    let mut text = String::new();
    let mut j: usize = 0;
    while j < chars.len()
        invariant
            j <= chars.len(),
            text@ == chars@.take(j as int),
        decreases chars.len() - j,
    {
        text.push(chars[j]);
        j += 1;
    }
    text
}

fn is_delimiter(raw: &[char]) -> (b: bool)
    ensures
        b == is_delimiter_text(raw@),
{
    raw.len() == 1 && (raw[0] == ':' || raw[0] == ';')
}

fn is_integer(raw: &[char]) -> (b: bool)
    ensures
        b == is_integer_text(raw@),
{
    let start: usize = if raw.len() > 0 && raw[0] == '-' {
        1
    } else {
        0
    };
    if start >= raw.len() {
        return false;
    }
    let end = digits_end_at(raw, start);
    proof {
        lemma_digits_end_run(raw@, start as int);
        let digits = digits_of(raw@);
        assert(digits =~= raw@.skip(start as int));
        if end == raw.len() {
            assert forall|k: int| 0 <= k < digits.len() implies is_digit(#[trigger] digits[k]) by {
                assert(digits[k] == raw@[start + k]);
            }
        } else {
            assert(digits[end - start] == raw@[end as int]);
        }
    }
    end == raw.len()
}

fn is_symbol(raw: &[char]) -> (b: bool)
    ensures
        b == is_symbol_text(raw@),
{
    if raw.len() == 0 || char_is_digit(raw[0]) {
        return false;
    }
    let end = symbol_end_at(raw, 0);
    proof {
        lemma_symbol_end_run(raw@, 0);
    }
    end == raw.len()
}

fn is_string(raw: &[char]) -> (b: bool)
    ensures
        b == is_string_text(raw@),
{
    if raw.len() < 2 || raw[0] != '"' {
        return false;
    }
    match string_end_at(raw, 1) {
        Some(end) => end == raw.len(),
        None => false,
    }
}

/// The number that the digit `c` stands for.
fn digit_of(c: char) -> (d: i64)
    requires
        is_digit(c),
    ensures
        d == digit_value(c),
        0 <= d <= 9,
{
    (c as u32 - 48) as i64
}

/// The value of an integer literal, if an `i64` holds it.
fn integer_of(raw: &[char]) -> (res: Option<i64>)
    requires
        is_integer_text(raw@),
    ensures
        match res {
            Some(n) => n == integer_value(raw@),
            None => !(i64::MIN <= integer_value(raw@) <= i64::MAX),
        },
{
    let negative = raw[0] == '-';
    let start: usize = if negative {
        1
    } else {
        0
    };
    let ghost digits = digits_of(raw@);
    assert(digits =~= raw@.skip(start as int));
    // The digits are summed up below zero, where an `i64` has room for one
    // number more than above it.
    let mut below: i64 = 0;
    let mut j: usize = start;
    while j < raw.len()
        invariant
            start <= j <= raw.len(),
            digits == raw@.skip(start as int),
            digits == digits_of(raw@),
            negative == (raw@[0] == '-'),
            all_digits(digits),
            below == -(decimal_value(digits.take(j - start)) as int),
        decreases raw.len() - j,
    {
        assert(digits[j - start] == raw@[j as int]);
        let d = digit_of(raw[j]);
        proof {
            let longer = digits.take(j + 1 - start);
            assert(longer.drop_last() =~= digits.take(j - start));
            assert(longer.last() == raw@[j as int]);
            assert(decimal_value(longer) == decimal_value(digits.take(j - start)) * 10 + d);
            lemma_decimal_value_grows(digits, j + 1 - start);
        }
        match below.checked_mul(10) {
            Some(tenfold) => match tenfold.checked_sub(d) {
                Some(next) => {
                    below = next;
                },
                None => {
                    return None;
                },
            },
            None => {
                return None;
            },
        }
        j += 1;
    }
    assert(digits.take(j - start) =~= digits);
    if negative {
        Some(below)
    } else if below == i64::MIN {
        None
    } else {
        Some(-below)
    }
}

/// The value of the body of a string literal.
fn decode(body: &[char]) -> (value: String)
    ensures
        value@ == unescape(body@),
{
    let mut value = String::new();
    let mut j: usize = 0;
    assert(body@.skip(0) =~= body@);
    while j < body.len()
        invariant
            j <= body.len(),
            value@ + unescape(body@.skip(j as int)) == unescape(body@),
        decreases body.len() - j,
    {
        let ghost before = value@;
        let ghost rest = body@.skip(j as int);
        let c = body[j];
        assert(rest[0] == c);
        if c == '\\' && j + 1 < body.len() {
            let e = body[j + 1];
            assert(rest[1] == e);
            assert(rest.skip(2) =~= body@.skip(j + 2));
            if e == 'n' {
                value.push('\n');
            } else if e == 't' {
                value.push('\t');
            } else if e == 'r' {
                value.push('\r');
            } else if e == '\\' {
                value.push('\\');
            } else if e == '"' {
                value.push('"');
            } else {
                value.push('\\');
                value.push(e);
            }
            assert(value@ =~= before + unescaped(e));
            assert(value@ + unescape(body@.skip(j + 2)) =~= before + (unescaped(e) + unescape(
                rest.skip(2),
            )));
            j += 2;
        } else {
            assert(rest.skip(1) =~= body@.skip(j + 1));
            value.push(c);
            assert(value@ + unescape(body@.skip(j + 1)) =~= before + (seq![c] + unescape(
                rest.skip(1),
            )));
            j += 1;
        }
    }
    assert(value@ + Seq::<char>::empty() =~= value@);
    value
}

/// The lexer. The grammar is fixed, so a lexer holds nothing.
#[derive(Debug)]
pub struct Lexer {}

impl Lexer {
    /// A lexer.
    pub fn new() -> Self {
        Lexer {  }
    }

    /// The tokens of `input`, in order.
    ///
    /// White space separates tokens and is otherwise passed over, as is a `"`
    /// that opens no well-formed string. The one text that is refused is an
    /// integer literal whose value no `i64` holds: the first such literal is
    /// returned as the error.
    pub fn tokenize(&self, input: &str) -> (res: Result<Vec<Tok>, LexError>)
        ensures
            match res {
                Ok(toks) => lex(input@) == Ok::<_, LexErrorModel>(toks.deep_view()),
                Err(e) => lex(input@) == Err::<Seq<TokModel>, _>(e@),
            },
    {
        let chars = chars_of(input);
        let text = chars.as_slice();
        let mut toks: Vec<Tok> = Vec::new();
        let mut i: usize = 0;
        while i < text.len()
            invariant
                text@ == input@,
                i <= text.len(),
                lex(input@) == then_tokens(toks.deep_view(), lex_from(input@, i as int)),
            decreases text.len() - i,
        {
            let end = token_end_at(text, i);
            if end <= i {
                i += 1;
            } else {
                let raw = slice_subrange(text, i, end);
                match self.tokenize_one(raw) {
                    Ok(tok) => {
                        let ghost before = toks;
                        toks.push(tok);
                        proof {
                            lemma_deep_view_push(before, toks, tok);
                            lemma_then_tokens_push(
                                before.deep_view(),
                                tok@,
                                lex_from(input@, end as int),
                            );
                        }
                        i = end;
                    },
                    Err(e) => {
                        return Err(e);
                    },
                }
            }
        }
        assert(toks.deep_view() + Seq::<TokModel>::empty() =~= toks.deep_view());
        Ok(toks)
    }

    /// The token that the token text `raw` is, or the text itself where it
    /// is none: an integer literal that no `i64` holds, or a text without
    /// any of the four shapes. The shapes are tried in the order delimiter,
    /// integer, symbol, string.
    pub fn tokenize_one(&self, raw: &[char]) -> (res: Result<Tok, LexError>)
        ensures
            match res {
                Ok(tok) => classify(raw@) == Ok::<_, LexErrorModel>(tok@),
                Err(e) => classify(raw@) == Err::<TokModel, _>(e@),
            },
    {
        if is_delimiter(raw) {
            Ok(self.tokenize_delim(raw))
        } else if is_integer(raw) {
            match integer_of(raw) {
                Some(n) => Ok(Tok::LitTok(Prim::Int(n))),
                None => Err(LexError::IntegerOutOfRange(string_of(raw))),
            }
        } else if is_symbol(raw) {
            Ok(Tok::SymbolTok(string_of(raw)))
        } else if is_string(raw) {
            Ok(self.tokenize_string(raw))
        } else {
            Err(LexError::Unclassified(string_of(raw)))
        }
    }

    fn tokenize_delim(&self, raw: &[char]) -> (tok: Tok)
        requires
            is_delimiter_text(raw@),
        ensures
            classify(raw@) == Ok::<_, LexErrorModel>(tok@),
    {
        if raw[0] == ';' {
            Tok::SemiColon
        } else {
            Tok::Colon
        }
    }

    fn tokenize_string(&self, raw: &[char]) -> (tok: Tok)
        requires
            is_string_text(raw@),
        ensures
            tok@ == TokModel::LitTok(PrimModel::Str(unescape(string_body(raw@)))),
    {
        let body = slice_subrange(raw, 1, raw.len() - 1);
        Tok::LitTok(Prim::Str(decode(body)))
    }
}

/// Moving the first token of what follows to the end of what came before
/// changes nothing.
proof fn lemma_then_tokens_push(
    done: Seq<TokModel>,
    tok: TokModel,
    rest: Result<Seq<TokModel>, LexErrorModel>,
)
    ensures
        then_tokens(done, then_tokens(seq![tok], rest)) == then_tokens(done.push(tok), rest),
{
    if let Ok(toks) = rest {
        assert(done + (seq![tok] + toks) =~= done.push(tok) + toks);
    }
}

} // verus!
