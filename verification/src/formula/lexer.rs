//! Tokenizer for formula strings.
use crate::error::{ParseError, SpecParseError};
use crate::number::{
    all_digits, below_binary64_tiny, digits_value, f64_overflow_bound, magnitude_at_least,
    render_decimal, spec_normalize, Decimal, SpecDecimal, EXPONENT_CAP,
};
use crate::text::{
    chars_match, chars_of, digit_of, digit_value, is_alphabetic, is_alphanumeric, is_ascii_digit,
    is_digit, is_whitespace, push_char, push_chars, string_of, unicode_alphabetic,
    unicode_alphanumeric, unicode_whitespace,
};
use vstd::string::*;
use vstd::prelude::*;

verus! {

/// What a token is.
#[derive(Debug, Clone, PartialEq)]
pub enum TokenKind {
    Identifier(String),
    Number(Decimal),
    Always,
    Eventually,
    Until,
    Next,
    Since,
    Historically,
    Once,
    And,
    Or,
    Not,
    Implies,
    Probability,
    Less,
    LessEqual,
    Greater,
    GreaterEqual,
    Equal,
    NotEqual,
    LeftParen,
    RightParen,
    LeftBracket,
    RightBracket,
    Comma,
    Minus,
    Plus,
    Star,
    Slash,
    Percent,
    Caret,
    Infinity,
    End,
}

/// The reading of a [`TokenKind`]: identifiers by their characters, numbers
/// by their decimal.
pub enum SpecTokenKind {
    Identifier(Seq<char>),
    Number(SpecDecimal),
    Always,
    Eventually,
    Until,
    Next,
    Since,
    Historically,
    Once,
    And,
    Or,
    Not,
    Implies,
    Probability,
    Less,
    LessEqual,
    Greater,
    GreaterEqual,
    Equal,
    NotEqual,
    LeftParen,
    RightParen,
    LeftBracket,
    RightBracket,
    Comma,
    Minus,
    Plus,
    Star,
    Slash,
    Percent,
    Caret,
    Infinity,
    End,
}

impl View for TokenKind {
    type V = SpecTokenKind;

    open spec fn view(&self) -> SpecTokenKind {
        match self {
            TokenKind::Identifier(s) => SpecTokenKind::Identifier(s@),
            TokenKind::Number(d) => SpecTokenKind::Number(d@),
            TokenKind::Always => SpecTokenKind::Always,
            TokenKind::Eventually => SpecTokenKind::Eventually,
            TokenKind::Until => SpecTokenKind::Until,
            TokenKind::Next => SpecTokenKind::Next,
            TokenKind::Since => SpecTokenKind::Since,
            TokenKind::Historically => SpecTokenKind::Historically,
            TokenKind::Once => SpecTokenKind::Once,
            TokenKind::And => SpecTokenKind::And,
            TokenKind::Or => SpecTokenKind::Or,
            TokenKind::Not => SpecTokenKind::Not,
            TokenKind::Implies => SpecTokenKind::Implies,
            TokenKind::Probability => SpecTokenKind::Probability,
            TokenKind::Less => SpecTokenKind::Less,
            TokenKind::LessEqual => SpecTokenKind::LessEqual,
            TokenKind::Greater => SpecTokenKind::Greater,
            TokenKind::GreaterEqual => SpecTokenKind::GreaterEqual,
            TokenKind::Equal => SpecTokenKind::Equal,
            TokenKind::NotEqual => SpecTokenKind::NotEqual,
            TokenKind::LeftParen => SpecTokenKind::LeftParen,
            TokenKind::RightParen => SpecTokenKind::RightParen,
            TokenKind::LeftBracket => SpecTokenKind::LeftBracket,
            TokenKind::RightBracket => SpecTokenKind::RightBracket,
            TokenKind::Comma => SpecTokenKind::Comma,
            TokenKind::Minus => SpecTokenKind::Minus,
            TokenKind::Plus => SpecTokenKind::Plus,
            TokenKind::Star => SpecTokenKind::Star,
            TokenKind::Slash => SpecTokenKind::Slash,
            TokenKind::Percent => SpecTokenKind::Percent,
            TokenKind::Caret => SpecTokenKind::Caret,
            TokenKind::Infinity => SpecTokenKind::Infinity,
            TokenKind::End => SpecTokenKind::End,
        }
    }
}

/// A token and the 1-based line and column where it starts.
#[derive(Debug, Clone, PartialEq)]
pub struct Token {
    pub kind: TokenKind,
    pub line: usize,
    pub column: usize,
}

/// The reading of a [`Token`].
pub struct SpecToken {
    pub kind: SpecTokenKind,
    pub line: int,
    pub column: int,
}

impl View for Token {
    type V = SpecToken;

    open spec fn view(&self) -> SpecToken {
        SpecToken { kind: self.kind@, line: self.line as int, column: self.column as int }
    }
}

/// The readings of a token list.
pub open spec fn tokens_view(t: Seq<Token>) -> Seq<SpecToken> {
    t.map_values(|x: Token| x@)
}

// ---------------------------------------------------------------------------
// The lexical grammar, over the characters of the input.

/// The 1-based line of position `p`: one more than the newlines before it.
pub open spec fn line_at(s: Seq<char>, p: int) -> int
    decreases p,
{
    if p <= 0 {
        1
    } else if s[p - 1] == '\n' {
        line_at(s, p - 1) + 1
    } else {
        line_at(s, p - 1)
    }
}

/// The 1-based column of position `p`: one more than the characters since
/// the last newline.
pub open spec fn column_at(s: Seq<char>, p: int) -> int
    decreases p,
{
    if p <= 0 {
        1
    } else if s[p - 1] == '\n' {
        1
    } else {
        column_at(s, p - 1) + 1
    }
}

/// The character at `q`, or `'\0'` past the end.
pub open spec fn peek_at(s: Seq<char>, q: int) -> char {
    if 0 <= q < s.len() {
        s[q]
    } else {
        '\0'
    }
}

/// Where whitespace and `#` comments (which run to the end of the line)
/// that start at `p` end.
pub open spec fn trivia_end(s: Seq<char>, p: int, in_comment: bool) -> int
    decreases s.len() - p, (if in_comment {
        1int
    } else {
        0int
    }),
{
    if p < 0 || p >= s.len() {
        p
    } else if in_comment {
        if s[p] == '\n' {
            trivia_end(s, p, false)
        } else {
            trivia_end(s, p + 1, true)
        }
    } else if unicode_whitespace(s[p]) {
        trivia_end(s, p + 1, false)
    } else if s[p] == '#' {
        trivia_end(s, p + 1, true)
    } else {
        p
    }
}

/// The end of the run of alphanumeric characters and underscores at `q`.
pub open spec fn word_run_end(s: Seq<char>, q: int) -> int
    decreases s.len() - q,
{
    if 0 <= q < s.len() && (unicode_alphanumeric(s[q]) || s[q] == '_') {
        word_run_end(s, q + 1)
    } else {
        q
    }
}

/// The end of the run of ASCII digits at `q`.
pub open spec fn digit_run_end(s: Seq<char>, q: int) -> int
    decreases s.len() - q,
{
    if 0 <= q < s.len() && is_digit(s[q]) {
        digit_run_end(s, q + 1)
    } else {
        q
    }
}

/// The end of a number's digits with at most one decimal point.
pub open spec fn mantissa_end(s: Seq<char>, q: int, seen_dot: bool) -> int
    decreases s.len() - q,
{
    if 0 <= q < s.len() && is_digit(s[q]) {
        mantissa_end(s, q + 1, seen_dot)
    } else if 0 <= q < s.len() && s[q] == '.' && !seen_dot {
        mantissa_end(s, q + 1, true)
    } else {
        q
    }
}

/// The digits of a mantissa's text, without its decimal point.
pub open spec fn mantissa_digits(m: Seq<char>) -> Seq<u8>
    decreases m.len(),
{
    if m.len() == 0 {
        Seq::empty()
    } else if m.last() == '.' {
        mantissa_digits(m.drop_last())
    } else {
        mantissa_digits(m.drop_last()).push(digit_value(m.last()))
    }
}

/// How many digits of a mantissa's text follow its decimal point.
pub open spec fn fraction_length(m: Seq<char>) -> int
    decreases m.len(),
{
    if m.len() == 0 || m.last() == '.' {
        0
    } else if m.drop_last().contains('.') {
        fraction_length(m.drop_last()) + 1
    } else {
        0
    }
}

/// The digit values of a run of ASCII digits.
pub open spec fn char_digits(e: Seq<char>) -> Seq<u8> {
    e.map_values(|c: char| digit_value(c))
}

/// An exponent's value, held at [`EXPONENT_CAP`].
pub open spec fn capped_exponent(e: Seq<char>) -> int {
    let v = digits_value(char_digits(e));
    if v > EXPONENT_CAP {
        EXPONENT_CAP as int
    } else {
        v as int
    }
}

/// A keyword's token, or an identifier.
pub open spec fn keyword_kind(w: Seq<char>) -> SpecTokenKind {
    if w == "always"@ || w == "globally"@ || w == "G"@ {
        SpecTokenKind::Always
    } else if w == "eventually"@ || w == "finally"@ || w == "F"@ {
        SpecTokenKind::Eventually
    } else if w == "until"@ || w == "U"@ {
        SpecTokenKind::Until
    } else if w == "next"@ || w == "X"@ {
        SpecTokenKind::Next
    } else if w == "since"@ || w == "S"@ {
        SpecTokenKind::Since
    } else if w == "historically"@ || w == "H"@ {
        SpecTokenKind::Historically
    } else if w == "once"@ || w == "O"@ {
        SpecTokenKind::Once
    } else if w == "and"@ {
        SpecTokenKind::And
    } else if w == "or"@ {
        SpecTokenKind::Or
    } else if w == "not"@ {
        SpecTokenKind::Not
    } else if w == "implies"@ {
        SpecTokenKind::Implies
    } else if w == "P"@ {
        SpecTokenKind::Probability
    } else if w == "inf"@ {
        SpecTokenKind::Infinity
    } else {
        SpecTokenKind::Identifier(w)
    }
}

/// A parse error at position `p` of `s`.
pub open spec fn error_at(s: Seq<char>, p: int, message: Seq<char>) -> SpecParseError {
    SpecParseError { message, line: line_at(s, p), column: column_at(s, p) }
}

/// The zero decimal.
pub open spec fn spec_zero() -> SpecDecimal {
    SpecDecimal { negative: false, digits: Seq::empty(), exponent: 0 }
}

/// The token for the number text `s[p..end]` with the given digits and
/// power of ten: an error past the binary64 range, zero below it.
pub open spec fn number_token(s: Seq<char>, p: int, end: int, digits: Seq<u8>, e: int) -> Result<
    (SpecTokenKind, int),
    SpecParseError,
> {
    let d = spec_normalize(false, digits, e);
    if magnitude_at_least(d, f64_overflow_bound()) {
        Err(
            error_at(
                s,
                p,
                "number `"@ + s.subrange(p, end)
                    + "` is out of range; use `inf` for an unbounded interval"@,
            ),
        )
    } else if below_binary64_tiny(d) {
        Ok((SpecTokenKind::Number(spec_zero()), end))
    } else {
        Ok((SpecTokenKind::Number(d), end))
    }
}

/// A number at `p`: digits with at most one point, then an optional
/// exponent `e` or `E`, an optional sign, and at least one digit.
pub open spec fn lex_number(s: Seq<char>, p: int) -> Result<(SpecTokenKind, int), SpecParseError> {
    let m_end = mantissa_end(s, p, false);
    let m = s.subrange(p, m_end);
    let frac = fraction_length(m);
    let digits = mantissa_digits(m);
    if peek_at(s, m_end) == 'e' || peek_at(s, m_end) == 'E' {
        let q0 = m_end + 1;
        let signed = peek_at(s, q0) == '+' || peek_at(s, q0) == '-';
        let q = if signed {
            q0 + 1
        } else {
            q0
        };
        if !is_digit(peek_at(s, q)) {
            Err(
                error_at(
                    s,
                    p,
                    "number `"@ + s.subrange(p, q) + "` needs a digit after the exponent"@,
                ),
            )
        } else {
            let e_end = digit_run_end(s, q);
            let ev = capped_exponent(s.subrange(q, e_end));
            let exponent = if peek_at(s, q0) == '-' {
                -ev
            } else {
                ev
            };
            number_token(s, p, e_end, digits, exponent - frac)
        }
    } else {
        number_token(s, p, m_end, digits, -frac)
    }
}

/// An operator or punctuation at `p`.
pub open spec fn lex_symbol(s: Seq<char>, p: int) -> Result<(SpecTokenKind, int), SpecParseError> {
    let c = s[p];
    let n = peek_at(s, p + 1);
    if c == '(' {
        Ok((SpecTokenKind::LeftParen, p + 1))
    } else if c == ')' {
        Ok((SpecTokenKind::RightParen, p + 1))
    } else if c == '[' {
        Ok((SpecTokenKind::LeftBracket, p + 1))
    } else if c == ']' {
        Ok((SpecTokenKind::RightBracket, p + 1))
    } else if c == ',' {
        Ok((SpecTokenKind::Comma, p + 1))
    } else if c == '+' {
        Ok((SpecTokenKind::Plus, p + 1))
    } else if c == '*' {
        Ok((SpecTokenKind::Star, p + 1))
    } else if c == '/' {
        Ok((SpecTokenKind::Slash, p + 1))
    } else if c == '%' {
        Ok((SpecTokenKind::Percent, p + 1))
    } else if c == '^' {
        Ok((SpecTokenKind::Caret, p + 1))
    } else if c == '-' {
        if n == '>' {
            Ok((SpecTokenKind::Implies, p + 2))
        } else {
            Ok((SpecTokenKind::Minus, p + 1))
        }
    } else if c == '<' {
        if n == '=' {
            Ok((SpecTokenKind::LessEqual, p + 2))
        } else {
            Ok((SpecTokenKind::Less, p + 1))
        }
    } else if c == '>' {
        if n == '=' {
            Ok((SpecTokenKind::GreaterEqual, p + 2))
        } else {
            Ok((SpecTokenKind::Greater, p + 1))
        }
    } else if c == '!' {
        if n == '=' {
            Ok((SpecTokenKind::NotEqual, p + 2))
        } else {
            Ok((SpecTokenKind::Not, p + 1))
        }
    } else if c == '&' {
        Ok(
            (
                SpecTokenKind::And,
                if n == '&' {
                    p + 2
                } else {
                    p + 1
                },
            ),
        )
    } else if c == '|' {
        Ok(
            (
                SpecTokenKind::Or,
                if n == '|' {
                    p + 2
                } else {
                    p + 1
                },
            ),
        )
    } else if c == '=' {
        if n == '=' {
            Ok((SpecTokenKind::Equal, p + 2))
        } else {
            Err(error_at(s, p, "stray `=`; write `==` to compare for equality"@))
        }
    } else {
        Err(error_at(s, p, "unexpected character `"@ + seq![c] + "`"@))
    }
}

/// The token that starts at `p` (which holds no trivia) and where it ends.
pub open spec fn lex_token(s: Seq<char>, p: int) -> Result<(SpecTokenKind, int), SpecParseError> {
    let c = s[p];
    if unicode_alphabetic(c) || c == '_' {
        let e = word_run_end(s, p + 1);
        Ok((keyword_kind(s.subrange(p, e)), e))
    } else if is_digit(c) || (c == '.' && p + 1 < s.len() && is_digit(s[p + 1])) {
        lex_number(s, p)
    } else {
        lex_symbol(s, p)
    }
}

/// Puts `pre` in front of a token list, or passes an error through.
pub open spec fn prepend(pre: Seq<SpecToken>, r: Result<Seq<SpecToken>, SpecParseError>) -> Result<
    Seq<SpecToken>,
    SpecParseError,
> {
    match r {
        Ok(rest) => Ok(pre + rest),
        Err(e) => Err(e),
    }
}

/// The tokens of `s` from position `p` on, closed by an end token, or the
/// first lexical error.
pub open spec fn lex_from(s: Seq<char>, p: int) -> Result<Seq<SpecToken>, SpecParseError>
    decreases s.len() - p,
    when 0 <= p <= s.len()
    via lex_from_decreases
{
    let q = trivia_end(s, p, false);
    if q >= s.len() {
        Ok(seq![SpecToken { kind: SpecTokenKind::End, line: line_at(s, q), column: column_at(s, q) }])
    } else {
        match lex_token(s, q) {
            Err(e) => Err(e),
            Ok((k, e)) => prepend(
                seq![SpecToken { kind: k, line: line_at(s, q), column: column_at(s, q) }],
                lex_from(s, e),
            ),
        }
    }
}

#[via_fn]
proof fn lex_from_decreases(s: Seq<char>, p: int) {
    lemma_trivia_end_bounds(s, p, false);
    let q = trivia_end(s, p, false);
    if q < s.len() {
        lemma_lex_token_progress(s, q);
    }
}

/// The tokens of the whole input.
pub open spec fn spec_tokenize(s: Seq<char>) -> Result<Seq<SpecToken>, SpecParseError> {
    lex_from(s, 0)
}

/// How a token is named in messages.
pub closed spec fn describe_kind(k: SpecTokenKind) -> Seq<char> {
    match k {
        SpecTokenKind::Identifier(s) => "variable `"@ + s + "`"@,
        SpecTokenKind::Number(n) => "number "@ + render_decimal(n),
        SpecTokenKind::Always => "`always`"@,
        SpecTokenKind::Eventually => "`eventually`"@,
        SpecTokenKind::Until => "`until`"@,
        SpecTokenKind::Next => "`next`"@,
        SpecTokenKind::Since => "`since`"@,
        SpecTokenKind::Historically => "`historically`"@,
        SpecTokenKind::Once => "`once`"@,
        SpecTokenKind::And => "`and`"@,
        SpecTokenKind::Or => "`or`"@,
        SpecTokenKind::Not => "`not`"@,
        SpecTokenKind::Implies => "`implies`"@,
        SpecTokenKind::Probability => "`P`"@,
        SpecTokenKind::Less => "`<`"@,
        SpecTokenKind::LessEqual => "`<=`"@,
        SpecTokenKind::Greater => "`>`"@,
        SpecTokenKind::GreaterEqual => "`>=`"@,
        SpecTokenKind::Equal => "`==`"@,
        SpecTokenKind::NotEqual => "`!=`"@,
        SpecTokenKind::LeftParen => "`(`"@,
        SpecTokenKind::RightParen => "`)`"@,
        SpecTokenKind::LeftBracket => "`[`"@,
        SpecTokenKind::RightBracket => "`]`"@,
        SpecTokenKind::Comma => "`,`"@,
        SpecTokenKind::Minus => "`-`"@,
        SpecTokenKind::Plus => "`+`"@,
        SpecTokenKind::Star => "`*`"@,
        SpecTokenKind::Slash => "`/`"@,
        SpecTokenKind::Percent => "`%`"@,
        SpecTokenKind::Caret => "`^`"@,
        SpecTokenKind::Infinity => "`inf`"@,
        SpecTokenKind::End => "end of input"@,
    }
}


impl TokenKind {
    /// How the token is named in error messages, e.g. `` `until` `` or
    /// ``variable `x` ``.
    pub fn describe(&self) -> (r: String)
        ensures
            r@ == describe_kind(self@),
    {
        match self {
            TokenKind::Identifier(s) => {
                let mut out = string_of("variable `");
                out.append(s.as_str());
                out.append("`");
                out
            },
            TokenKind::Number(n) => {
                let mut out = string_of("number ");
                n.write_to(&mut out);
                out
            },
            TokenKind::Always => string_of("`always`"),
            TokenKind::Eventually => string_of("`eventually`"),
            TokenKind::Until => string_of("`until`"),
            TokenKind::Next => string_of("`next`"),
            TokenKind::Since => string_of("`since`"),
            TokenKind::Historically => string_of("`historically`"),
            TokenKind::Once => string_of("`once`"),
            TokenKind::And => string_of("`and`"),
            TokenKind::Or => string_of("`or`"),
            TokenKind::Not => string_of("`not`"),
            TokenKind::Implies => string_of("`implies`"),
            TokenKind::Probability => string_of("`P`"),
            TokenKind::Less => string_of("`<`"),
            TokenKind::LessEqual => string_of("`<=`"),
            TokenKind::Greater => string_of("`>`"),
            TokenKind::GreaterEqual => string_of("`>=`"),
            TokenKind::Equal => string_of("`==`"),
            TokenKind::NotEqual => string_of("`!=`"),
            TokenKind::LeftParen => string_of("`(`"),
            TokenKind::RightParen => string_of("`)`"),
            TokenKind::LeftBracket => string_of("`[`"),
            TokenKind::RightBracket => string_of("`]`"),
            TokenKind::Comma => string_of("`,`"),
            TokenKind::Minus => string_of("`-`"),
            TokenKind::Plus => string_of("`+`"),
            TokenKind::Star => string_of("`*`"),
            TokenKind::Slash => string_of("`/`"),
            TokenKind::Percent => string_of("`%`"),
            TokenKind::Caret => string_of("`^`"),
            TokenKind::Infinity => string_of("`inf`"),
            TokenKind::End => string_of("end of input"),
        }
    }
}

// ---------------------------------------------------------------------------
// Facts about the grammar.

proof fn lemma_trivia_end_bounds(s: Seq<char>, p: int, in_comment: bool)
    requires
        0 <= p <= s.len(),
    ensures
        p <= trivia_end(s, p, in_comment) <= s.len(),
        trivia_end(s, p, in_comment) < s.len() ==> !unicode_whitespace(
            s[trivia_end(s, p, in_comment)],
        ) && s[trivia_end(s, p, in_comment)] != '#',
    decreases s.len() - p, (if in_comment {
        1int
    } else {
        0int
    }),
{
    if p < s.len() {
        if in_comment {
            if s[p] == '\n' {
                lemma_trivia_end_bounds(s, p, false);
            } else {
                lemma_trivia_end_bounds(s, p + 1, true);
            }
        } else if unicode_whitespace(s[p]) {
            lemma_trivia_end_bounds(s, p + 1, false);
        } else if s[p] == '#' {
            lemma_trivia_end_bounds(s, p + 1, true);
        }
    }
}

proof fn lemma_word_run_end_bounds(s: Seq<char>, q: int)
    requires
        0 <= q <= s.len(),
    ensures
        q <= word_run_end(s, q) <= s.len(),
    decreases s.len() - q,
{
    if q < s.len() && (unicode_alphanumeric(s[q]) || s[q] == '_') {
        lemma_word_run_end_bounds(s, q + 1);
    }
}

proof fn lemma_digit_run_end_bounds(s: Seq<char>, q: int)
    requires
        0 <= q <= s.len(),
    ensures
        q <= digit_run_end(s, q) <= s.len(),
    decreases s.len() - q,
{
    if q < s.len() && is_digit(s[q]) {
        lemma_digit_run_end_bounds(s, q + 1);
    }
}

proof fn lemma_mantissa_end_bounds(s: Seq<char>, q: int, seen_dot: bool)
    requires
        0 <= q <= s.len(),
    ensures
        q <= mantissa_end(s, q, seen_dot) <= s.len(),
    decreases s.len() - q,
{
    if q < s.len() && is_digit(s[q]) {
        lemma_mantissa_end_bounds(s, q + 1, seen_dot);
    } else if q < s.len() && s[q] == '.' && !seen_dot {
        lemma_mantissa_end_bounds(s, q + 1, true);
    }
}

proof fn lemma_lex_token_progress(s: Seq<char>, p: int)
    requires
        0 <= p < s.len(),
    ensures
        lex_token(s, p) matches Ok((_, e)) ==> p < e <= s.len(),
{
    let c = s[p];
    if unicode_alphabetic(c) || c == '_' {
        lemma_word_run_end_bounds(s, p + 1);
    } else if is_digit(c) || (c == '.' && p + 1 < s.len() && is_digit(s[p + 1])) {
        if is_digit(c) {
            lemma_mantissa_end_bounds(s, p + 1, false);
        } else {
            lemma_mantissa_end_bounds(s, p + 1, true);
        }
        let m_end = mantissa_end(s, p, false);
        if peek_at(s, m_end) == 'e' || peek_at(s, m_end) == 'E' {
            let q0 = m_end + 1;
            let signed = peek_at(s, q0) == '+' || peek_at(s, q0) == '-';
            let q = if signed {
                q0 + 1
            } else {
                q0
            };
            if is_digit(peek_at(s, q)) {
                lemma_digit_run_end_bounds(s, q);
            }
        }
    }
}

proof fn lemma_prepend_step(
    pre: Seq<SpecToken>,
    t: SpecToken,
    r: Result<Seq<SpecToken>, SpecParseError>,
)
    ensures
        prepend(pre, prepend(seq![t], r)) == prepend(pre + seq![t], r),
{
    if let Ok(rest) = r {
        assert(pre + (seq![t] + rest) =~= (pre + seq![t]) + rest);
    }
}

proof fn lemma_position_bounds(s: Seq<char>, p: int)
    requires
        0 <= p,
    ensures
        1 <= line_at(s, p) <= p + 1,
        1 <= column_at(s, p) <= p + 1,
    decreases p,
{
    if p > 0 {
        lemma_position_bounds(s, p - 1);
    }
}

/// A token list that lexing produces is closed by its one end token.
pub proof fn lemma_lex_ends_with_end(s: Seq<char>, p: int)
    requires
        0 <= p <= s.len(),
    ensures
        lex_from(s, p) matches Ok(ts) ==> ts.len() > 0 && ts[ts.len() - 1].kind is End,
    decreases s.len() - p,
{
    lemma_trivia_end_bounds(s, p, false);
    let q = trivia_end(s, p, false);
    if q < s.len() {
        lemma_lex_token_progress(s, q);
        if let Ok((k, e)) = lex_token(s, q) {
            lemma_lex_ends_with_end(s, e);
        }
    }
}

proof fn lemma_capped_step(e: Seq<char>, c: char)
    requires
        is_digit(c),
    ensures
        capped_exponent(e.push(c)) == ({
            let prev = capped_exponent(e);
            let next = prev * 10 + digit_value(c);
            if prev >= EXPONENT_CAP || next > EXPONENT_CAP {
                EXPONENT_CAP as int
            } else {
                next
            }
        }),
{
    let ds = char_digits(e.push(c));
    assert(ds.drop_last() =~= char_digits(e));
    assert(ds.last() == digit_value(c));
    let v = digits_value(char_digits(e));
    assert(digits_value(ds) == v * 10 + digit_value(c));
    if v > EXPONENT_CAP {
        assert(v * 10 + digit_value(c) > EXPONENT_CAP);
    }
}

// ---------------------------------------------------------------------------
// The lexer.

/// Turns formula text into tokens, closed by an end token.
pub fn tokenize(input: &str) -> (r: Result<Vec<Token>, ParseError>)
    requires
        input@.len() < usize::MAX,
    ensures
        match (r, spec_tokenize(input@)) {
            (Ok(t), Ok(st)) => tokens_view(t@) == st,
            (Err(e), Err(se)) => e@ == se,
            _ => false,
        },
{
    let mut lexer = Lexer::new(input);
    lexer.run()
}

struct Lexer {
    chars: Vec<char>,
    pos: usize,
    line: usize,
    column: usize,
}

impl Lexer {
    spec fn wf(&self) -> bool {
        &&& self.pos <= self.chars@.len()
        &&& self.chars@.len() < usize::MAX
        &&& self.line == line_at(self.chars@, self.pos as int)
        &&& self.column == column_at(self.chars@, self.pos as int)
    }

    fn new(input: &str) -> (r: Lexer)
        requires
            input@.len() < usize::MAX,
        ensures
            r.wf(),
            r.chars@ == input@,
            r.pos == 0,
    {
        Lexer { chars: chars_of(input), pos: 0, line: 1, column: 1 }
    }

    fn run(&mut self) -> (r: Result<Vec<Token>, ParseError>)
        requires
            old(self).wf(),
            old(self).pos == 0,
        ensures
            match (r, spec_tokenize(old(self).chars@)) {
                (Ok(t), Ok(st)) => tokens_view(t@) == st,
                (Err(e), Err(se)) => e@ == se,
                _ => false,
            },
    {
        let ghost s = self.chars@;
        let mut tokens: Vec<Token> = Vec::new();
        loop
            invariant
                self.wf(),
                self.chars@ == s,
                s == old(self).chars@,
                lex_from(s, 0) == prepend(tokens_view(tokens@), lex_from(s, self.pos as int)),
            decreases s.len() - self.pos,
        {
            let ghost p = self.pos as int;
            self.skip_trivia();
            proof {
                lemma_trivia_end_bounds(s, p, false);
                let q = self.pos as int;
                lemma_trivia_end_bounds(s, q, false);
                assert(trivia_end(s, q, false) == q);
                assert(lex_from(s, p) == lex_from(s, q));
            }
            if self.at_end() {
                let ghost q = self.pos as int;
                assert(lex_from(s, q) == Ok::<Seq<SpecToken>, SpecParseError>(
                    seq![SpecToken { kind: SpecTokenKind::End, line: line_at(s, q), column: column_at(s, q) }],
                ));
                let ghost before = tokens@;
                tokens.push(Token { kind: TokenKind::End, line: self.line, column: self.column });
                proof {
                    assert(tokens_view(tokens@) =~= tokens_view(before).push(tokens@.last()@));
                    assert(tokens_view(tokens@) =~= tokens_view(before) + seq![
                        SpecToken {
                            kind: SpecTokenKind::End,
                            line: line_at(s, self.pos as int),
                            column: column_at(s, self.pos as int),
                        },
                    ]);
                    assert(lex_from(s, 0) == Ok::<Seq<SpecToken>, SpecParseError>(tokens_view(tokens@)));
                }
                return Ok(tokens);
            }
            let ghost q = self.pos as int;
            proof {
                lemma_lex_token_progress(s, q);
            }
            assert(lex_from(s, q) == match lex_token(s, q) {
                Err(e) => Err(e),
                Ok((k, e)) => prepend(
                    seq![SpecToken { kind: k, line: line_at(s, q), column: column_at(s, q) }],
                    lex_from(s, e),
                ),
            });
            match self.next_token() {
                Ok(t) => {
                    let ghost before = tokens@;
                    tokens.push(t);
                    proof {
                        assert(tokens_view(tokens@) =~= tokens_view(before) + seq![t@]);
                        lemma_prepend_step(tokens_view(before), t@, lex_from(s, self.pos as int));
                    }
                },
                Err(e) => {
                    return Err(e);
                },
            }
        }
    }

    fn next_token(&mut self) -> (r: Result<Token, ParseError>)
        requires
            old(self).wf(),
            old(self).pos < old(self).chars@.len(),
        ensures
            final(self).wf(),
            final(self).chars@ == old(self).chars@,
            match (r, lex_token(old(self).chars@, old(self).pos as int)) {
                (Ok(t), Ok((k, e))) => t@ == (SpecToken {
                    kind: k,
                    line: line_at(old(self).chars@, old(self).pos as int),
                    column: column_at(old(self).chars@, old(self).pos as int),
                }) && final(self).pos == e,
                (Err(x), Err(y)) => x@ == y,
                _ => false,
            },
    {
        let line = self.line;
        let column = self.column;
        let ch = self.peek();
        let ghost s = self.chars@;
        let ghost p = self.pos as int;
        if is_alphabetic(ch) || ch == '_' {
            let kind = self.word();
            Ok(Token { kind, line, column })
        } else if is_ascii_digit(ch) || (ch == '.' && match self.peek_next() {
            Some(c) => is_ascii_digit(c),
            None => false,
        }) {
            match self.number(line, column) {
                Ok(kind) => Ok(Token { kind, line, column }),
                Err(e) => Err(e),
            }
        } else {
            match self.symbol(line, column) {
                Ok(kind) => Ok(Token { kind, line, column }),
                Err(e) => Err(e),
            }
        }
    }

    fn symbol(&mut self, line: usize, column: usize) -> (r: Result<TokenKind, ParseError>)
        requires
            old(self).wf(),
            old(self).pos < old(self).chars@.len(),
            line == line_at(old(self).chars@, old(self).pos as int),
            column == column_at(old(self).chars@, old(self).pos as int),
        ensures
            final(self).wf(),
            final(self).chars@ == old(self).chars@,
            match (r, lex_symbol(old(self).chars@, old(self).pos as int)) {
                (Ok(k), Ok((sk, e))) => k@ == sk && final(self).pos == e,
                (Err(x), Err(y)) => x@ == y,
                _ => false,
            },
    {
        let ch = self.peek();
        self.advance();
        let kind = if ch == '(' {
            TokenKind::LeftParen
        } else if ch == ')' {
            TokenKind::RightParen
        } else if ch == '[' {
            TokenKind::LeftBracket
        } else if ch == ']' {
            TokenKind::RightBracket
        } else if ch == ',' {
            TokenKind::Comma
        } else if ch == '+' {
            TokenKind::Plus
        } else if ch == '*' {
            TokenKind::Star
        } else if ch == '/' {
            TokenKind::Slash
        } else if ch == '%' {
            TokenKind::Percent
        } else if ch == '^' {
            TokenKind::Caret
        } else if ch == '-' {
            if self.peek() == '>' {
                self.advance();
                TokenKind::Implies
            } else {
                TokenKind::Minus
            }
        } else if ch == '<' {
            self.maybe_eq(TokenKind::LessEqual, TokenKind::Less)
        } else if ch == '>' {
            self.maybe_eq(TokenKind::GreaterEqual, TokenKind::Greater)
        } else if ch == '!' {
            self.maybe_eq(TokenKind::NotEqual, TokenKind::Not)
        } else if ch == '&' {
            if self.peek() == '&' {
                self.advance();
            }
            TokenKind::And
        } else if ch == '|' {
            if self.peek() == '|' {
                self.advance();
            }
            TokenKind::Or
        } else if ch == '=' {
            if self.peek() == '=' {
                self.advance();
                TokenKind::Equal
            } else {
                return Err(
                    ParseError::at(
                        string_of("stray `=`; write `==` to compare for equality"),
                        line,
                        column,
                    ),
                );
            }
        } else {
            let mut message = string_of("unexpected character `");
            push_char(&mut message, ch);
            message.append("`");
            assert(message@ =~= "unexpected character `"@ + seq![ch] + "`"@);
            return Err(ParseError::at(message, line, column));
        };
        Ok(kind)
    }

    fn maybe_eq(&mut self, with_eq: TokenKind, without: TokenKind) -> (r: TokenKind)
        requires
            old(self).wf(),
        ensures
            final(self).wf(),
            final(self).chars@ == old(self).chars@,
            peek_at(old(self).chars@, old(self).pos as int) == '=' ==> r == with_eq
                && final(self).pos == old(self).pos + 1,
            peek_at(old(self).chars@, old(self).pos as int) != '=' ==> r == without
                && final(self).pos == old(self).pos,
    {
        if self.peek() == '=' {
            self.advance();
            with_eq
        } else {
            without
        }
    }

    fn word(&mut self) -> (r: TokenKind)
        requires
            old(self).wf(),
            old(self).pos < old(self).chars@.len(),
            unicode_alphabetic(old(self).chars@[old(self).pos as int]) || old(
                self,
            ).chars@[old(self).pos as int] == '_',
        ensures
            final(self).wf(),
            final(self).chars@ == old(self).chars@,
            final(self).pos == word_run_end(old(self).chars@, old(self).pos + 1),
            r@ == keyword_kind(old(self).chars@.subrange(old(self).pos as int, final(self).pos as int)),
    {
        let ghost s = self.chars@;
        let start = self.pos;
        while !self.at_end() && (is_alphanumeric(self.peek()) || self.peek() == '_')
            invariant
                self.wf(),
                self.chars@ == s,
                start <= self.pos,
                start < s.len(),
                self.pos == start ==> unicode_alphabetic(s[start as int]) || s[start as int]
                    == '_',
                self.pos > start ==> word_run_end(s, self.pos as int) == word_run_end(
                    s,
                    start + 1,
                ),
            decreases s.len() - self.pos,
        {
            self.advance();
        }
        proof {
            if self.pos == start {
                assert(false);
            }
        }
        let end = self.pos;
        let c = &self.chars;
        if chars_match(c, start, end, "always") || chars_match(c, start, end, "globally")
            || chars_match(c, start, end, "G") {
            TokenKind::Always
        } else if chars_match(c, start, end, "eventually") || chars_match(c, start, end, "finally")
            || chars_match(c, start, end, "F") {
            TokenKind::Eventually
        } else if chars_match(c, start, end, "until") || chars_match(c, start, end, "U") {
            TokenKind::Until
        } else if chars_match(c, start, end, "next") || chars_match(c, start, end, "X") {
            TokenKind::Next
        } else if chars_match(c, start, end, "since") || chars_match(c, start, end, "S") {
            TokenKind::Since
        } else if chars_match(c, start, end, "historically") || chars_match(c, start, end, "H") {
            TokenKind::Historically
        } else if chars_match(c, start, end, "once") || chars_match(c, start, end, "O") {
            TokenKind::Once
        } else if chars_match(c, start, end, "and") {
            TokenKind::And
        } else if chars_match(c, start, end, "or") {
            TokenKind::Or
        } else if chars_match(c, start, end, "not") {
            TokenKind::Not
        } else if chars_match(c, start, end, "implies") {
            TokenKind::Implies
        } else if chars_match(c, start, end, "P") {
            TokenKind::Probability
        } else if chars_match(c, start, end, "inf") {
            TokenKind::Infinity
        } else {
            let mut text = String::new();
            push_chars(&mut text, c, start, end);
            TokenKind::Identifier(text)
        }
    }

    fn number(&mut self, line: usize, column: usize) -> (r: Result<TokenKind, ParseError>)
        requires
            old(self).wf(),
            old(self).pos < old(self).chars@.len(),
            is_digit(old(self).chars@[old(self).pos as int]) || (old(self).chars@[old(
                self,
            ).pos as int] == '.' && old(self).pos + 1 < old(self).chars@.len() && is_digit(
                old(self).chars@[old(self).pos + 1],
            )),
            line == line_at(old(self).chars@, old(self).pos as int),
            column == column_at(old(self).chars@, old(self).pos as int),
        ensures
            final(self).wf(),
            final(self).chars@ == old(self).chars@,
            match (r, lex_number(old(self).chars@, old(self).pos as int)) {
                (Ok(k), Ok((sk, e))) => k@ == sk && final(self).pos == e,
                (Err(x), Err(y)) => x@ == y,
                _ => false,
            },
    {
        let ghost s = self.chars@;
        let start = self.pos;
        let mut digits: Vec<u8> = Vec::new();
        let mut seen_dot = false;
        let mut frac: usize = 0;
        proof {
            assert(s.subrange(start as int, start as int) =~= Seq::<char>::empty());
        }
        while !self.at_end()
            invariant
                self.wf(),
                self.chars@ == s,
                start <= self.pos,
                mantissa_end(s, self.pos as int, seen_dot) == mantissa_end(s, start as int, false),
                digits@ == mantissa_digits(s.subrange(start as int, self.pos as int)),
                frac == fraction_length(s.subrange(start as int, self.pos as int)),
                seen_dot == s.subrange(start as int, self.pos as int).contains('.'),
                frac <= self.pos - start,
                all_digits(digits@),
                digits@.len() <= self.pos - start,
            ensures
                mantissa_end(s, self.pos as int, seen_dot) == self.pos,
                mantissa_end(s, self.pos as int, seen_dot) == mantissa_end(s, start as int, false),
                digits@ == mantissa_digits(s.subrange(start as int, self.pos as int)),
                frac == fraction_length(s.subrange(start as int, self.pos as int)),
                frac <= self.pos - start,
                all_digits(digits@),
                self.wf(),
                self.chars@ == s,
                start <= self.pos,
            decreases s.len() - self.pos,
        {
            let ch = self.peek();
            let ghost m = s.subrange(start as int, self.pos as int);
            if is_ascii_digit(ch) {
                let ghost dprev = digits@;
                digits.push(digit_of(ch));
                if seen_dot {
                    frac = frac + 1;
                }
                self.advance();
                proof {
                    let m2 = s.subrange(start as int, self.pos as int);
                    assert(m2 =~= m.push(ch));
                    assert(m2.drop_last() =~= m);
                    if !seen_dot {
                        assert(!m2.contains('.')) by {
                            if m2.contains('.') {
                                let j = choose|j: int| 0 <= j < m2.len() && m2[j] == '.';
                                if j < m.len() {
                                    assert(m[j] == '.');
                                }
                            }
                        }
                    } else {
                        let j = choose|j: int| 0 <= j < m.len() && m[j] == '.';
                        assert(m2[j] == '.');
                    }
                    assert(all_digits(digits@)) by {
                        assert forall|i: int| 0 <= i < digits@.len() implies #[trigger] digits@[i]
                            < 10 by {
                            if i < digits@.len() - 1 {
                                assert(digits@[i] == dprev[i]);
                            }
                        }
                    }
                }
            } else if ch == '.' && !seen_dot {
                seen_dot = true;
                self.advance();
                proof {
                    let m2 = s.subrange(start as int, self.pos as int);
                    assert(m2 =~= m.push(ch));
                    assert(m2.drop_last() =~= m);
                    assert(m2[m2.len() - 1] == '.');
                }
            } else {
                break;
            }
        }
        let m_end = self.pos;
        let c = self.peek();
        let exponent: i128;
        let ghost end: int;
        if c == 'e' || c == 'E' {
            self.advance();
            let q0 = self.pos;
            let sign = self.peek();
            let negative_exponent = sign == '-';
            if sign == '+' || sign == '-' {
                self.advance();
            }
            if !is_ascii_digit(self.peek()) {
                let mut message = string_of("number `");
                push_chars(&mut message, &self.chars, start, self.pos);
                message.append("` needs a digit after the exponent");
                return Err(ParseError::at(message, line, column));
            }
            let exp_start = self.pos;
            let mut value: u64 = 0;
            proof {
                assert(s.subrange(exp_start as int, exp_start as int) =~= Seq::<char>::empty());
                assert(char_digits(Seq::<char>::empty()) =~= Seq::<u8>::empty());
            }
            while !self.at_end() && is_ascii_digit(self.peek())
                invariant
                    self.wf(),
                    self.chars@ == s,
                    exp_start <= self.pos,
                    digit_run_end(s, self.pos as int) == digit_run_end(s, exp_start as int),
                    value == capped_exponent(s.subrange(exp_start as int, self.pos as int)),
                    value <= EXPONENT_CAP,
                decreases s.len() - self.pos,
            {
                let ch = self.peek();
                let d = digit_of(ch);
                proof {
                    lemma_capped_step(s.subrange(exp_start as int, self.pos as int), ch);
                    assert(s.subrange(exp_start as int, self.pos + 1) =~= s.subrange(
                        exp_start as int,
                        self.pos as int,
                    ).push(ch));
                }
                value = if value >= EXPONENT_CAP || value * 10 + d as u64 > EXPONENT_CAP {
                    EXPONENT_CAP
                } else {
                    value * 10 + d as u64
                };
                self.advance();
            }
            proof {
                end = self.pos as int;
            }
            let signed: i128 = if negative_exponent {
                -(value as i128)
            } else {
                value as i128
            };
            exponent = signed - frac as i128;
        } else {
            proof {
                end = self.pos as int;
            }
            exponent = -(frac as i128);
        }
        let d = Decimal::from_parts(false, &digits, exponent);
        if d.overflows_f64() {
            let mut message = string_of("number `");
            push_chars(&mut message, &self.chars, start, self.pos);
            message.append("` is out of range; use `inf` for an unbounded interval");
            return Err(ParseError::at(message, line, column));
        }
        if d.underflows_f64() {
            return Ok(TokenKind::Number(Decimal::zero()));
        }
        Ok(TokenKind::Number(d))
    }

    fn skip_trivia(&mut self)
        requires
            old(self).wf(),
        ensures
            final(self).wf(),
            final(self).chars@ == old(self).chars@,
            final(self).pos == trivia_end(old(self).chars@, old(self).pos as int, false),
    {
        let ghost s = self.chars@;
        let ghost target = trivia_end(s, self.pos as int, false);
        while !self.at_end()
            invariant
                self.wf(),
                self.chars@ == s,
                trivia_end(s, self.pos as int, false) == target,
            ensures
                self.wf(),
                self.chars@ == s,
                target == self.pos,
            decreases s.len() - self.pos,
        {
            let ch = self.peek();
            if is_whitespace(ch) {
                self.advance();
            } else if ch == '#' {
                let ghost before = self.pos;
                self.advance();
                while !self.at_end() && self.peek() != '\n'
                    invariant
                        self.wf(),
                        self.chars@ == s,
                        trivia_end(s, self.pos as int, true) == target,
                        self.pos > before,
                    decreases s.len() - self.pos,
                {
                    self.advance();
                }
                assert(trivia_end(s, self.pos as int, true) == trivia_end(
                    s,
                    self.pos as int,
                    false,
                ));
            } else {
                break;
            }
        }
    }

    fn peek(&self) -> (c: char)
        requires
            self.wf(),
        ensures
            c == peek_at(self.chars@, self.pos as int),
    {
        if self.at_end() {
            '\0'
        } else {
            self.chars[self.pos]
        }
    }

    fn peek_next(&self) -> (c: Option<char>)
        requires
            self.wf(),
        ensures
            c == (if self.pos + 1 < self.chars@.len() {
                Some(self.chars@[self.pos + 1])
            } else {
                None::<char>
            }),
    {
        if self.pos + 1 < self.chars.len() {
            Some(self.chars[self.pos + 1])
        } else {
            None
        }
    }

    fn advance(&mut self)
        requires
            old(self).wf(),
        ensures
            final(self).wf(),
            final(self).chars@ == old(self).chars@,
            final(self).pos == if old(self).pos < old(self).chars@.len() {
                old(self).pos + 1
            } else {
                old(self).pos as int
            },
    {
        if self.at_end() {
            return;
        }
        proof {
            lemma_position_bounds(self.chars@, self.pos as int);
        }
        if self.chars[self.pos] == '\n' {
            self.line = self.line + 1;
            self.column = 1;
        } else {
            self.column = self.column + 1;
        }
        self.pos = self.pos + 1;
    }

    fn at_end(&self) -> (r: bool)
        requires
            self.wf(),
        ensures
            r == (self.pos >= self.chars@.len()),
    {
        self.pos >= self.chars.len()
    }
}

} // verus!
