//! The lossless lexer: it splits R source text into tokens that, taken in
//! order, spell the input exactly (whitespace, newlines and comments included).

use vstd::prelude::*;

pub use crate::syntax::TokKind;

verus! {

pub open spec fn is_digit(c: char) -> bool {
    '0' <= c && c <= '9'
}

pub open spec fn is_hex_digit(c: char) -> bool {
    is_digit(c) || ('a' <= c && c <= 'f') || ('A' <= c && c <= 'F')
}

pub open spec fn is_alpha(c: char) -> bool {
    ('a' <= c && c <= 'z') || ('A' <= c && c <= 'Z')
}

/// Characters that may continue an identifier.
pub open spec fn is_ident_char(c: char) -> bool {
    is_alpha(c) || is_digit(c) || c == '_' || c == '.'
}

/// ASCII whitespace other than line breaks.
pub open spec fn is_blank(c: char) -> bool {
    c == ' ' || c == '\t' || c == '\x0C'
}

/// The reserved words that the lexer turns into keyword tokens.
pub open spec fn keyword_kind(t: Seq<char>) -> Option<TokKind> {
    if t == seq!['i', 'f'] {
        Some(TokKind::IfKw)
    } else if t == seq!['e', 'l', 's', 'e'] {
        Some(TokKind::ElseKw)
    } else if t == seq!['f', 'o', 'r'] {
        Some(TokKind::ForKw)
    } else if t == seq!['w', 'h', 'i', 'l', 'e'] {
        Some(TokKind::WhileKw)
    } else if t == seq!['r', 'e', 'p', 'e', 'a', 't'] {
        Some(TokKind::RepeatKw)
    } else if t == seq!['f', 'u', 'n', 'c', 't', 'i', 'o', 'n'] {
        Some(TokKind::FunctionKw)
    } else if t == seq!['i', 'n'] {
        Some(TokKind::InKw)
    } else {
        None
    }
}

/// The exact spelling of the kinds whose text never varies (empty for the others).
pub open spec fn fixed_text(k: TokKind) -> Seq<char> {
    match k {
        TokKind::IfKw => seq!['i', 'f'],
        TokKind::ElseKw => seq!['e', 'l', 's', 'e'],
        TokKind::ForKw => seq!['f', 'o', 'r'],
        TokKind::WhileKw => seq!['w', 'h', 'i', 'l', 'e'],
        TokKind::RepeatKw => seq!['r', 'e', 'p', 'e', 'a', 't'],
        TokKind::FunctionKw => seq!['f', 'u', 'n', 'c', 't', 'i', 'o', 'n'],
        TokKind::InKw => seq!['i', 'n'],
        TokKind::LambdaFn => seq!['\\'],
        TokKind::Tilde => seq!['~'],
        TokKind::Question => seq!['?'],
        TokKind::LBrack => seq!['['],
        TokKind::RBrack => seq![']'],
        TokKind::LBrack2 => seq!['[', '['],
        TokKind::RBrack2 => seq![']', ']'],
        TokKind::Plus => seq!['+'],
        TokKind::Minus => seq!['-'],
        TokKind::Star => seq!['*'],
        TokKind::Slash => seq!['/'],
        TokKind::Caret => seq!['^'],
        TokKind::Pipe => seq!['|', '>'],
        TokKind::Colon => seq![':'],
        TokKind::Colon2 => seq![':', ':'],
        TokKind::Colon3 => seq![':', ':', ':'],
        TokKind::Walrus => seq![':', '='],
        TokKind::Dollar => seq!['$'],
        TokKind::At => seq!['@'],
        TokKind::Semicolon => seq![';'],
        TokKind::Comma => seq![','],
        TokKind::Or => seq!['|'],
        TokKind::Or2 => seq!['|', '|'],
        TokKind::And => seq!['&'],
        TokKind::And2 => seq!['&', '&'],
        TokKind::Equal2 => seq!['=', '='],
        TokKind::NotEqual => seq!['!', '='],
        TokKind::Bang => seq!['!'],
        TokKind::LessThan => seq!['<'],
        TokKind::LessThanOrEqual => seq!['<', '='],
        TokKind::GreaterThan => seq!['>'],
        TokKind::GreaterThanOrEqual => seq!['>', '='],
        TokKind::LParen => seq!['('],
        TokKind::RParen => seq![')'],
        TokKind::LBrace => seq!['{'],
        TokKind::RBrace => seq!['}'],
        TokKind::AssignLeft => seq!['<', '-'],
        TokKind::SuperAssign => seq!['<', '<', '-'],
        TokKind::AssignRight => seq!['-', '>'],
        TokKind::SuperAssignRight => seq!['-', '>', '>'],
        TokKind::AssignEq => seq!['='],
        _ => seq![],
    }
}

/// What the text of a token of kind `k` looks like.
pub open spec fn token_shape(k: TokKind, t: Seq<char>) -> bool {
    match k {
        TokKind::Newline => t == seq!['\n'] || t == seq!['\r', '\n'] || t == seq!['\r'],
        TokKind::Whitespace => t.len() > 0 && forall|j: int| 0 <= j < t.len() ==> is_blank(#[trigger] t[j]),
        TokKind::Comment => t.len() > 0 && t[0] == '#' && forall|j: int| 0 <= j < t.len() ==> !is_line_break(#[trigger] t[j]),
        TokKind::Ident => {
            &&& t.len() > 0
            &&& (is_alpha(t[0]) || t[0] == '_' || t[0] == '.')
            &&& forall|j: int| 0 <= j < t.len() ==> is_ident_char(#[trigger] t[j])
            &&& keyword_kind(t) is None
        },
        TokKind::Int | TokKind::Float => t.len() > 0 && is_digit(t[0]),
        TokKind::String => t.len() > 0 && (t[0] == '"' || t[0] == '\'' || t[0] == 'r'),
        TokKind::UserOp => {
            &&& t.len() >= 2
            &&& t[0] == '%'
            &&& t[t.len() - 1] == '%'
            &&& forall|j: int| 0 < j < t.len() - 1 ==> #[trigger] t[j] != '%'
        },
        TokKind::Unknown => t.len() > 0,
        _ => t.len() > 0 && t == fixed_text(k),
    }
}

/// The character `next` that follows a token of kind `k` with text `t` is
/// one the token could not have taken: a comment runs to the end of its line,
/// and a run of blanks or a word (a name or keyword that starts with a letter
/// or `_`) takes every character it can.
pub open spec fn stops_at(k: TokKind, t: Seq<char>, next: char) -> bool {
    match k {
        TokKind::Comment => is_line_break(next),
        TokKind::Whitespace => !is_blank(next),
        _ => (t.len() > 0 && (is_alpha(t[0]) || t[0] == '_') && (k == TokKind::Ident
            || keyword_kind(t) == Some(k))) ==> !is_ident_char(next),
    }
}

/// Every token of `toks` that is followed by a character of `input` stops
/// there as [`stops_at`] says.
pub open spec fn maximal_tokens(toks: Seq<Token>, input: Seq<char>) -> bool {
    forall|k: int|
        #![trigger toks[k]]
        0 <= k < toks.len() && toks[k].end < input.len() ==> stops_at(
            toks[k].kind,
            toks[k].text@,
            input[toks[k].end as int],
        )
}

// The token that starts at each position of the input. The lexer reads the
// input from its start; at each position the first of these rules that
// applies decides the kind and the extent of the token there.

/// `s[j]` exists and is `c`.
pub open spec fn char_at(s: Seq<char>, j: int, c: char) -> bool {
    0 <= j < s.len() && s[j] == c
}

/// The end of the run of blanks that starts at `j`.
pub open spec fn blank_end(s: Seq<char>, j: int) -> int
    decreases s.len() - j,
{
    if 0 <= j < s.len() && is_blank(s[j]) {
        blank_end(s, j + 1)
    } else {
        j
    }
}

/// `c` ends a line: a line feed or a carriage return.
pub open spec fn is_line_break(c: char) -> bool {
    c == '\n' || c == '\r'
}

/// The position of the first line break at or after `j` (the length when
/// there is none).
pub open spec fn line_end(s: Seq<char>, j: int) -> int
    decreases s.len() - j,
{
    if 0 <= j < s.len() && !is_line_break(s[j]) {
        line_end(s, j + 1)
    } else {
        j
    }
}

/// The position of the first `%` at or after `j` (the length when there is
/// none).
pub open spec fn percent_end(s: Seq<char>, j: int) -> int
    decreases s.len() - j,
{
    if 0 <= j < s.len() && s[j] != '%' {
        percent_end(s, j + 1)
    } else {
        j
    }
}

/// The end of the run of identifier characters that starts at `j`.
pub open spec fn ident_end(s: Seq<char>, j: int) -> int
    decreases s.len() - j,
{
    if 0 <= j < s.len() && is_ident_char(s[j]) {
        ident_end(s, j + 1)
    } else {
        j
    }
}

/// A digit of the given base: hexadecimal when `hex`, else decimal.
pub open spec fn digit_of(c: char, hex: bool) -> bool {
    if hex {
        is_hex_digit(c)
    } else {
        is_digit(c)
    }
}

/// The end of the run of digits that starts at `j`.
pub open spec fn digits_end(s: Seq<char>, j: int, hex: bool) -> int
    decreases s.len() - j,
{
    if 0 <= j < s.len() && digit_of(s[j], hex) {
        digits_end(s, j + 1, hex)
    } else {
        j
    }
}

/// The end of the delimiter of a raw string that starts at `j`: it stops at
/// `(`, at a quote or at a line break.
pub open spec fn delim_end(s: Seq<char>, j: int) -> int
    decreases s.len() - j,
{
    if 0 <= j < s.len() && s[j] != '(' && s[j] != '"' && s[j] != '\n' && s[j] != '\r' {
        delim_end(s, j + 1)
    } else {
        j
    }
}

/// The end of a string quoted by `q` whose body starts at `j`: just after
/// the first `q` that no backslash escapes, or the end of the input.
pub open spec fn quoted_end(s: Seq<char>, j: int, q: char) -> int
    decreases s.len() - j,
{
    if !(0 <= j < s.len()) {
        j
    } else if s[j] == '\\' && j + 1 < s.len() {
        quoted_end(s, j + 2, q)
    } else if s[j] == q {
        j + 1
    } else {
        quoted_end(s, j + 1, q)
    }
}

/// The end of a raw string whose body starts at `k`, with the delimiter
/// `s[ds..ds + dl]`: just after the first `)`, delimiter and `"`.
pub open spec fn raw_close(s: Seq<char>, k: int, ds: int, dl: int) -> Option<int>
    decreases s.len() - k,
{
    if !(0 <= k < s.len()) {
        None
    } else if s[k] == ')' && k + 1 + dl < s.len() && s.subrange(k + 1, k + 1 + dl) == s.subrange(
        ds,
        ds + dl,
    ) && s[k + 1 + dl] == '"' {
        Some(k + 2 + dl)
    } else {
        raw_close(s, k + 1, ds, dl)
    }
}

/// The end of the raw string `r"delim(...)delim"` that starts at `i`, if it
/// closes.
pub open spec fn raw_string_end(s: Seq<char>, i: int) -> Option<int> {
    let d = delim_end(s, i + 2);
    if char_at(s, d, '(') {
        raw_close(s, d + 1, i + 2, d - (i + 2))
    } else {
        None
    }
}

/// The end of the identifier that starts with the `.` at `i`: `.name`,
/// `...` or `..N`.
pub open spec fn dot_ident_end(s: Seq<char>, i: int) -> Option<int> {
    if i + 1 < s.len() && (is_alpha(s[i + 1]) || s[i + 1] == '_') {
        Some(ident_end(s, i + 2))
    } else if i + 2 < s.len() && s[i + 1] == '.' && s[i + 2] == '.' {
        Some(i + 3)
    } else if i + 2 < s.len() && s[i + 1] == '.' && is_digit(s[i + 2]) {
        Some(digits_end(s, i + 3, false))
    } else {
        None
    }
}

/// The name or keyword that starts with the letter or `_` at `i`.
pub open spec fn word_token(s: Seq<char>, i: int) -> (TokKind, int) {
    let e = ident_end(s, i + 1);
    match keyword_kind(s.subrange(i, e)) {
        Some(k) => (k, e),
        None => (TokKind::Ident, e),
    }
}

/// The number that starts with the digit at `i`: hexadecimal after `0x`
/// (with an optional fraction and binary exponent), else decimal with an
/// optional fraction and exponent; an `L` suffix makes it an integer, and
/// otherwise a fraction or an exponent makes it a float.
pub open spec fn number_token(s: Seq<char>, i: int) -> (TokKind, int) {
    if i + 1 < s.len() && s[i] == '0' && (s[i + 1] == 'x' || s[i + 1] == 'X') {
        let a = digits_end(s, i + 2, true);
        let b = if char_at(s, a, '.') {
            digits_end(s, a + 1, true)
        } else {
            a
        };
        let c = if char_at(s, b, 'p') || char_at(s, b, 'P') {
            let e = if char_at(s, b + 1, '+') || char_at(s, b + 1, '-') {
                b + 2
            } else {
                b + 1
            };
            digits_end(s, e, false)
        } else {
            b
        };
        if char_at(s, c, 'L') || char_at(s, c, 'l') {
            (TokKind::Int, c + 1)
        } else {
            (TokKind::Float, c)
        }
    } else {
        let a = digits_end(s, i + 1, false);
        let fraction = char_at(s, a, '.') && a + 1 < s.len() && is_digit(s[a + 1]);
        let b = if fraction {
            digits_end(s, a + 2, false)
        } else {
            a
        };
        let k = if char_at(s, b + 1, '+') || char_at(s, b + 1, '-') {
            b + 2
        } else {
            b + 1
        };
        let exponent = (char_at(s, b, 'e') || char_at(s, b, 'E')) && digits_end(s, k, false) > k;
        let c = if exponent {
            digits_end(s, k, false)
        } else {
            b
        };
        if char_at(s, c, 'L') || char_at(s, c, 'l') {
            (TokKind::Int, c + 1)
        } else if fraction || exponent {
            (TokKind::Float, c)
        } else {
            (TokKind::Int, c)
        }
    }
}

/// The token at `i` when its first character is none of those that
/// [`token_at`] settles at once: blanks, operators, brackets, numbers, raw
/// strings, names and keywords, in this order of precedence.
pub open spec fn rest_token(s: Seq<char>, i: int) -> (TokKind, int) {
    let c = s[i];
    let two = i + 1 < s.len();
    let three = i + 2 < s.len();
    if is_blank(c) {
        (TokKind::Whitespace, blank_end(s, i + 1))
    } else if two && c == '|' && s[i + 1] == '|' {
        (TokKind::Or2, i + 2)
    } else if two && c == '&' && s[i + 1] == '&' {
        (TokKind::And2, i + 2)
    } else if c == '.' && dot_ident_end(s, i) is Some {
        (TokKind::Ident, dot_ident_end(s, i)->0)
    } else if two && c == '=' && s[i + 1] == '=' {
        (TokKind::Equal2, i + 2)
    } else if two && c == '!' && s[i + 1] == '=' {
        (TokKind::NotEqual, i + 2)
    } else if c == '!' {
        (TokKind::Bang, i + 1)
    } else if three && c == ':' && s[i + 1] == ':' && s[i + 2] == ':' {
        (TokKind::Colon3, i + 3)
    } else if two && c == ':' && s[i + 1] == ':' {
        (TokKind::Colon2, i + 2)
    } else if two && c == ':' && s[i + 1] == '=' {
        (TokKind::Walrus, i + 2)
    } else if two && c == '|' && s[i + 1] == '>' {
        (TokKind::Pipe, i + 2)
    } else if three && c == '<' && s[i + 1] == '<' && s[i + 2] == '-' {
        (TokKind::SuperAssign, i + 3)
    } else if three && c == '-' && s[i + 1] == '>' && s[i + 2] == '>' {
        (TokKind::SuperAssignRight, i + 3)
    } else if two && c == '<' && s[i + 1] == '-' {
        (TokKind::AssignLeft, i + 2)
    } else if two && c == '-' && s[i + 1] == '>' {
        (TokKind::AssignRight, i + 2)
    } else if c == '-' {
        (TokKind::Minus, i + 1)
    } else if c == '/' {
        (TokKind::Slash, i + 1)
    } else if c == ':' {
        (TokKind::Colon, i + 1)
    } else if two && c == '<' && s[i + 1] == '=' {
        (TokKind::LessThanOrEqual, i + 2)
    } else if two && c == '>' && s[i + 1] == '=' {
        (TokKind::GreaterThanOrEqual, i + 2)
    } else if c == '=' {
        (TokKind::AssignEq, i + 1)
    } else if c == '|' {
        (TokKind::Or, i + 1)
    } else if c == '&' {
        (TokKind::And, i + 1)
    } else if c == '<' {
        (TokKind::LessThan, i + 1)
    } else if c == '>' {
        (TokKind::GreaterThan, i + 1)
    } else if two && c == '[' && s[i + 1] == '[' {
        (TokKind::LBrack2, i + 2)
    } else if two && c == ']' && s[i + 1] == ']' {
        (TokKind::RBrack2, i + 2)
    } else if c == '[' {
        (TokKind::LBrack, i + 1)
    } else if c == ']' {
        (TokKind::RBrack, i + 1)
    } else if is_digit(c) {
        number_token(s, i)
    } else if c == 'r' && two && s[i + 1] == '"' && raw_string_end(s, i) is Some {
        (TokKind::String, raw_string_end(s, i)->0)
    } else if is_alpha(c) || c == '_' {
        word_token(s, i)
    } else {
        (TokKind::Unknown, i + 1)
    }
}

/// The kind and the end of the token that starts at `i`: line breaks
/// (`\r\n` as one), comments to the end of the line, single-character
/// punctuation, `%op%` operators up to the next `%`, quoted strings, and
/// then [`rest_token`].
pub open spec fn token_at(s: Seq<char>, i: int) -> (TokKind, int) {
    let c = s[i];
    if c == '\r' {
        if i + 1 < s.len() && s[i + 1] == '\n' {
            (TokKind::Newline, i + 2)
        } else {
            (TokKind::Newline, i + 1)
        }
    } else if c == '\n' {
        (TokKind::Newline, i + 1)
    } else if c == '#' {
        (TokKind::Comment, line_end(s, i + 1))
    } else if c == '~' {
        (TokKind::Tilde, i + 1)
    } else if c == '?' {
        (TokKind::Question, i + 1)
    } else if c == '$' {
        (TokKind::Dollar, i + 1)
    } else if c == '@' {
        (TokKind::At, i + 1)
    } else if c == ';' {
        (TokKind::Semicolon, i + 1)
    } else if c == ',' {
        (TokKind::Comma, i + 1)
    } else if c == '+' {
        (TokKind::Plus, i + 1)
    } else if c == '*' {
        (TokKind::Star, i + 1)
    } else if c == '^' {
        (TokKind::Caret, i + 1)
    } else if c == '(' {
        (TokKind::LParen, i + 1)
    } else if c == '\\' {
        (TokKind::LambdaFn, i + 1)
    } else if c == ')' {
        (TokKind::RParen, i + 1)
    } else if c == '{' {
        (TokKind::LBrace, i + 1)
    } else if c == '}' {
        (TokKind::RBrace, i + 1)
    } else if c == '%' {
        let e = percent_end(s, i + 1);
        if e < s.len() {
            (TokKind::UserOp, e + 1)
        } else {
            (TokKind::Unknown, e)
        }
    } else if c == '"' || c == '\'' {
        (TokKind::String, quoted_end(s, i + 1, c))
    } else {
        rest_token(s, i)
    }
}

/// Decimal digits run from `j` to `e` and stop there.
proof fn lemma_digits_end_at(s: Seq<char>, j: int, e: int)
    requires
        0 <= j <= e <= s.len(),
        forall|m: int| j <= m < e ==> is_digit(#[trigger] s[m]),
        e < s.len() ==> !is_digit(s[e]),
    ensures
        digits_end(s, j, false) == e,
    decreases e - j,
{
    if j < e {
        lemma_digits_end_at(s, j + 1, e);
    }
}

/// Decimal digits from `j` run at least as far as `j`, and past it when
/// `s[j]` is a digit.
proof fn lemma_digits_end_grows(s: Seq<char>, j: int)
    requires
        0 <= j <= s.len(),
    ensures
        j <= digits_end(s, j, false) <= s.len(),
        j < s.len() && is_digit(s[j]) ==> digits_end(s, j, false) > j,
    decreases s.len() - j,
{
    if j < s.len() && is_digit(s[j]) {
        lemma_digits_end_grows(s, j + 1);
    }
}

/// A decimal number (digits, with or without a fraction `.digits`)
/// followed by an exponent, `e` or `E` with an optional sign and a digit,
/// is lexed as one token that takes in the sign and the exponent digits: a
/// float, or an integer only with an `L` suffix.
pub proof fn law_number_takes_exponent(input: Seq<char>, toks: Seq<Token>, k: int, f: int, a: int, d: int)
    requires
        lexes_to(input, toks),
        0 <= k < toks.len(),
        toks[k].start < f <= a < d < input.len(),
        forall|m: int| toks[k].start <= m < f ==> is_digit(#[trigger] input[m]),
        f == a || (input[f] == '.' && f + 1 < a && forall|m: int| f < m < a ==> is_digit(#[trigger] input[m])),
        input[a] == 'e' || input[a] == 'E',
        d == a + 1 || (d == a + 2 && (input[a + 1] == '+' || input[a + 1] == '-')),
        is_digit(input[d]),
    ensures
        toks[k].end > d,
        toks[k].kind == TokKind::Float || (toks[k].kind == TokKind::Int && (input[toks[k].end - 1] == 'L'
            || input[toks[k].end - 1] == 'l')),
{
    let s = toks[k].start as int;
    assert(token_at(input, s) == (toks[k].kind, toks[k].end as int));
    assert(is_digit(input[s]));
    assert(token_at(input, s) == number_token(input, s));
    if f == a {
        lemma_digits_end_at(input, s + 1, a);
    } else {
        lemma_digits_end_at(input, s + 1, f);
        lemma_digits_end_at(input, f + 2, a);
        assert(is_digit(input[f + 1]));
    }
    let kk = if input[a + 1] == '+' || input[a + 1] == '-' {
        a + 2
    } else {
        a + 1
    };
    assert(kk == d);
    lemma_digits_end_grows(input, d);
}

/// A run of decimal digits followed by a character that cannot continue a
/// number (not a digit, `.`, `e`, `E`, `x`, `X`, `L` or `l`) is lexed as
/// one integer token spanning exactly those digits.
pub proof fn law_integer_token(input: Seq<char>, toks: Seq<Token>, k: int, e: int)
    requires
        lexes_to(input, toks),
        0 <= k < toks.len(),
        toks[k].start < e <= input.len(),
        forall|m: int| toks[k].start <= m < e ==> is_digit(#[trigger] input[m]),
        e < input.len() ==> !(is_digit(input[e]) || input[e] == '.' || input[e] == 'e' || input[e] == 'E'
            || input[e] == 'x' || input[e] == 'X' || input[e] == 'L' || input[e] == 'l'),
    ensures
        toks[k].kind == TokKind::Int,
        toks[k].end == e,
{
    let s = toks[k].start as int;
    assert(token_at(input, s) == (toks[k].kind, toks[k].end as int));
    assert(is_digit(input[s]));
    assert(token_at(input, s) == number_token(input, s));
    lemma_digits_end_at(input, s + 1, e);
    if e == s + 1 {
        assert(!(s + 1 < input.len() && (input[s + 1] == 'x' || input[s + 1] == 'X')));
    }
}

/// Digits, a `.` and more digits, followed by a character that cannot
/// continue a number (not a digit, `e`, `E`, `L` or `l`), are lexed as one
/// float token spanning exactly the digits and the fraction.
pub proof fn law_fraction_token(input: Seq<char>, toks: Seq<Token>, k: int, f: int, e: int)
    requires
        lexes_to(input, toks),
        0 <= k < toks.len(),
        toks[k].start < f,
        f + 1 < e <= input.len(),
        forall|m: int| toks[k].start <= m < f ==> is_digit(#[trigger] input[m]),
        input[f] == '.',
        forall|m: int| f < m < e ==> is_digit(#[trigger] input[m]),
        e < input.len() ==> !(is_digit(input[e]) || input[e] == 'e' || input[e] == 'E' || input[e] == 'L'
            || input[e] == 'l'),
    ensures
        toks[k].kind == TokKind::Float,
        toks[k].end == e,
{
    let s = toks[k].start as int;
    assert(token_at(input, s) == (toks[k].kind, toks[k].end as int));
    assert(is_digit(input[s]));
    assert(token_at(input, s) == number_token(input, s));
    lemma_digits_end_at(input, s + 1, f);
    lemma_digits_end_at(input, f + 2, e);
    assert(is_digit(input[f + 1]));
}

/// Identifier characters run from `j` to `e` and stop there.
proof fn lemma_ident_end_at(s: Seq<char>, j: int, e: int)
    requires
        0 <= j <= e <= s.len(),
        forall|m: int| j <= m < e ==> is_ident_char(#[trigger] s[m]),
        e < s.len() ==> !is_ident_char(s[e]),
    ensures
        ident_end(s, j) == e,
    decreases e - j,
{
    if j < e {
        lemma_ident_end_at(s, j + 1, e);
    }
}

/// A word (a letter or `_`, then letters, digits, `.` and `_`) that is not
/// a reserved word and is not the `r` of a raw string, followed by a
/// character that cannot continue it, is lexed as one name token spanning
/// exactly the word.
pub proof fn law_name_token(input: Seq<char>, toks: Seq<Token>, k: int, e: int)
    requires
        lexes_to(input, toks),
        0 <= k < toks.len(),
        toks[k].start < e <= input.len(),
        is_alpha(input[toks[k].start as int]) || input[toks[k].start as int] == '_',
        forall|m: int| toks[k].start <= m < e ==> is_ident_char(#[trigger] input[m]),
        e < input.len() ==> !is_ident_char(input[e]),
        keyword_kind(input.subrange(toks[k].start as int, e)) is None,
        !(input[toks[k].start as int] == 'r' && e == toks[k].start + 1),
    ensures
        toks[k].kind == TokKind::Ident,
        toks[k].end == e,
{
    let s = toks[k].start as int;
    assert(token_at(input, s) == (toks[k].kind, toks[k].end as int));
    lemma_ident_end_at(input, s + 1, e);
    assert(token_at(input, s) == rest_token(input, s));
    if input[s] == 'r' {
        assert(is_ident_char(input[s + 1]));
    }
    assert(rest_token(input, s) == word_token(input, s));
}

/// `<-` is lexed as one assignment token of two characters.
pub proof fn law_left_arrow_token(input: Seq<char>, toks: Seq<Token>, k: int)
    requires
        lexes_to(input, toks),
        0 <= k < toks.len(),
        toks[k].start + 1 < input.len(),
        input[toks[k].start as int] == '<',
        input[toks[k].start + 1] == '-',
    ensures
        toks[k].kind == TokKind::AssignLeft,
        toks[k].end == toks[k].start + 2,
{
    let s = toks[k].start as int;
    assert(token_at(input, s) == (toks[k].kind, toks[k].end as int));
    assert(token_at(input, s) == rest_token(input, s));
}

/// Each token of `toks` is the one that [`token_at`] gives at its start.
pub open spec fn follows_rules(toks: Seq<Token>, input: Seq<char>) -> bool {
    forall|k: int|
        #![trigger toks[k]]
        0 <= k < toks.len() ==> token_at(input, toks[k].start as int) == (
            toks[k].kind,
            toks[k].end as int,
        )
}

/// A lexical token: its kind, its text and the character range it spans.
#[derive(Debug, Clone)]
pub struct Token {
    pub kind: TokKind,
    pub text: String,
    pub start: usize,
    pub end: usize,
}

impl Token {
    /// A copy of this token.
    pub fn duplicate(&self) -> (r: Token)
        ensures
            r.kind == self.kind,
            r.text@ == self.text@,
            r.start == self.start,
            r.end == self.end,
    {
        Token { kind: self.kind, text: self.text.clone(), start: self.start, end: self.end }
    }
}

/// `t` is a nonempty token whose text is the slice of `input` that it spans.
pub open spec fn token_ok(t: Token, input: Seq<char>) -> bool {
    &&& t.start < t.end <= input.len()
    &&& t.text@ == input.subrange(t.start as int, t.end as int)
    &&& token_shape(t.kind, t.text@)
}

/// `toks` covers `input[0..upto]` exactly: consecutive, gap-free, nonempty tokens.
pub open spec fn tiles(toks: Seq<Token>, input: Seq<char>, upto: int) -> bool
    decreases toks.len(),
{
    if toks.len() == 0 {
        upto == 0
    } else {
        &&& token_ok(toks.last(), input)
        &&& toks.last().end == upto
        &&& tiles(toks.drop_last(), input, toks.last().start as int)
    }
}

/// The texts of `toks` written one after another.
pub open spec fn concat_text(toks: Seq<Token>) -> Seq<char>
    decreases toks.len(),
{
    if toks.len() == 0 {
        seq![]
    } else {
        concat_text(toks.drop_last()) + toks.last().text@
    }
}

/// Tokens that tile a prefix of the input spell exactly that prefix.
pub proof fn lemma_tiles_concat(toks: Seq<Token>, input: Seq<char>, upto: int)
    requires
        tiles(toks, input, upto),
    ensures
        0 <= upto <= input.len(),
        concat_text(toks) == input.subrange(0, upto),
    decreases toks.len(),
{
    if toks.len() > 0 {
        let t = toks.last();
        lemma_tiles_concat(toks.drop_last(), input, t.start as int);
        assert(input.subrange(0, t.start as int) + input.subrange(t.start as int, upto)
            =~= input.subrange(0, upto));
    } else {
        assert(input.subrange(0, 0) =~= seq![]);
    }
}

/// Every token of a tiling is well formed, lies inside the tiled prefix, and
/// ends where the next one starts.
pub proof fn lemma_tiles_index(toks: Seq<Token>, input: Seq<char>, upto: int, k: int)
    requires
        tiles(toks, input, upto),
        0 <= k < toks.len(),
    ensures
        token_ok(toks[k], input),
        toks[k].end <= upto,
        k + 1 < toks.len() ==> toks[k].end == toks[k + 1].start,
        k == 0 ==> toks[k].start == 0,
    decreases toks.len(),
{
    if k < toks.len() - 1 {
        let t = toks.last();
        lemma_tiles_index(toks.drop_last(), input, t.start as int, k);
        if k + 1 < toks.len() - 1 {
            lemma_tiles_index(toks.drop_last(), input, t.start as int, k + 1);
        } else {
            reveal_with_fuel(tiles, 2);
            assert(toks.drop_last().last() == toks[k]);
        }
        if k == 0 && toks.len() == 1 {
        }
    } else if k == 0 {
        lemma_tiles_first(toks.drop_last(), input, toks.last().start as int);
    }
}

proof fn lemma_tiles_first(toks: Seq<Token>, input: Seq<char>, upto: int)
    requires
        tiles(toks, input, upto),
    ensures
        toks.len() == 0 ==> upto == 0,
        toks.len() > 0 ==> toks[0].start == 0,
        upto >= 0,
    decreases toks.len(),
{
    if toks.len() > 0 {
        lemma_tiles_first(toks.drop_last(), input, toks.last().start as int);
        if toks.len() > 1 {
            assert(toks.drop_last()[0] == toks[0]);
        }
    }
}

/// `toks` are the tokens of `input`: they tile it, and each is the token
/// that [`token_at`] gives where it starts.
pub open spec fn lexes_to(input: Seq<char>, toks: Seq<Token>) -> bool {
    tiles(toks, input, input.len() as int) && follows_rules(toks, input)
}

proof fn lemma_rule_tokens_agree(a: Seq<Token>, b: Seq<Token>, input: Seq<char>, k: int)
    requires
        tiles(a, input, input.len() as int),
        follows_rules(a, input),
        tiles(b, input, input.len() as int),
        follows_rules(b, input),
        0 <= k < a.len(),
        k < b.len(),
    ensures
        a[k].start == b[k].start,
        a[k].kind == b[k].kind,
        a[k].end == b[k].end,
    decreases k,
{
    lemma_tiles_index(a, input, input.len() as int, k);
    lemma_tiles_index(b, input, input.len() as int, k);
    if k > 0 {
        lemma_rule_tokens_agree(a, b, input, k - 1);
        lemma_tiles_index(a, input, input.len() as int, k - 1);
        lemma_tiles_index(b, input, input.len() as int, k - 1);
    }
    assert(token_at(input, a[k].start as int) == (a[k].kind, a[k].end as int));
    assert(token_at(input, b[k].start as int) == (b[k].kind, b[k].end as int));
}

proof fn lemma_rule_tiling_not_shorter(a: Seq<Token>, b: Seq<Token>, input: Seq<char>)
    requires
        tiles(a, input, input.len() as int),
        follows_rules(a, input),
        tiles(b, input, input.len() as int),
        follows_rules(b, input),
    ensures
        b.len() <= a.len(),
{
    if a.len() < b.len() {
        let n = a.len() as int;
        lemma_tiles_index(b, input, input.len() as int, n);
        if n == 0 {
            lemma_tiles_first(a, input, input.len() as int);
        } else {
            lemma_rule_tokens_agree(a, b, input, n - 1);
            lemma_tiles_index(b, input, input.len() as int, n - 1);
            assert(a.last() == a[n - 1]);
        }
    }
}

/// Lexing is determined by the rules of [`token_at`]: two tokenizations of
/// the same input that tile it and follow the rules are the same, token for
/// token, so the tokens [`lex`] gives are the only ones it could give.
pub proof fn law_lexing_is_determined(a: Seq<Token>, b: Seq<Token>, input: Seq<char>)
    requires
        lexes_to(input, a),
        lexes_to(input, b),
    ensures
        a.len() == b.len(),
        forall|k: int|
            0 <= k < a.len() ==> a[k].kind == b[k].kind && a[k].start == b[k].start && a[k].end
                == b[k].end && a[k].text@ == b[k].text@,
{
    lemma_rule_tiling_not_shorter(a, b, input);
    lemma_rule_tiling_not_shorter(b, a, input);
    assert forall|k: int| 0 <= k < a.len() implies a[k].kind == b[k].kind && a[k].start
        == b[k].start && a[k].end == b[k].end && a[k].text@ == b[k].text@ by {
        lemma_rule_tokens_agree(a, b, input, k);
        lemma_tiles_index(a, input, input.len() as int, k);
        lemma_tiles_index(b, input, input.len() as int, k);
    }
}

/// `toks` are consecutive nonempty tokens, the first starting at `from`, each
/// with a text as long as the range it spans and shaped as its kind says.
pub open spec fn chained(toks: Seq<Token>, from: int) -> bool
    decreases toks.len(),
{
    if toks.len() == 0 {
        true
    } else {
        let t = toks.last();
        &&& t.start < t.end
        &&& t.text@.len() == t.end - t.start
        &&& token_shape(t.kind, t.text@)
        &&& (toks.len() == 1 ==> t.start == from)
        &&& (toks.len() > 1 ==> toks.drop_last().last().end == t.start)
        &&& chained(toks.drop_last(), from)
    }
}

/// The texts of `a + b` are those of `a` followed by those of `b`.
pub proof fn lemma_concat_append(a: Seq<Token>, b: Seq<Token>)
    ensures
        concat_text(a + b) == concat_text(a) + concat_text(b),
    decreases b.len(),
{
    if b.len() == 0 {
        assert(a + b =~= a);
        assert(concat_text(a) + seq![] =~= concat_text(a));
    } else {
        assert((a + b).drop_last() =~= a + b.drop_last());
        lemma_concat_append(a, b.drop_last());
        assert(concat_text(a + b) =~= concat_text(a) + concat_text(b));
    }
}

/// A tiling of the input is a chain that starts at position 0.
pub proof fn lemma_tiles_chained(toks: Seq<Token>, input: Seq<char>, upto: int)
    requires
        tiles(toks, input, upto),
    ensures
        chained(toks, 0),
        toks.len() > 0 ==> toks.last().end == upto,
    decreases toks.len(),
{
    if toks.len() > 0 {
        let t = toks.last();
        lemma_tiles_chained(toks.drop_last(), input, t.start as int);
        reveal_with_fuel(tiles, 2);
    }
}

/// Joining two chains where the first ends gives one chain.
pub proof fn lemma_chained_append(a: Seq<Token>, b: Seq<Token>, from: int)
    requires
        chained(a, from),
        chained(b, if a.len() == 0 { from } else { a.last().end as int }),
    ensures
        chained(a + b, from),
    decreases b.len(),
{
    if b.len() == 0 {
        assert(a + b =~= a);
    } else {
        assert((a + b).drop_last() =~= a + b.drop_last());
        lemma_chained_append(a, b.drop_last(), from);
        if b.len() > 1 {
            assert((a + b).drop_last().last() == b.drop_last().last());
        } else if a.len() > 0 {
            assert((a + b).drop_last().last() == a.last());
        }
    }
}

/// Facts about one token of a chain.
pub proof fn lemma_chained_index(toks: Seq<Token>, from: int, k: int)
    requires
        chained(toks, from),
        0 <= k < toks.len(),
    ensures
        toks[k].start < toks[k].end,
        toks[k].text@.len() == toks[k].end - toks[k].start,
        token_shape(toks[k].kind, toks[k].text@),
        k == 0 ==> toks[k].start == from,
        k > 0 ==> toks[k].start == toks[k - 1].end,
    decreases toks.len(),
{
    if k < toks.len() - 1 {
        lemma_chained_index(toks.drop_last(), from, k);
        assert(toks.drop_last()[k] == toks[k]);
        if k > 0 {
            assert(toks.drop_last()[k - 1] == toks[k - 1]);
        }
    } else if k > 0 {
        assert(toks.drop_last().last() == toks[k - 1]);
    }
}

fn at(chars: &Vec<char>, j: usize, c: char) -> (r: bool)
    ensures
        r == (j < chars@.len() && chars@[j as int] == c),
{
    j < chars.len() && chars[j] == c
}

fn is_digit_exec(c: char) -> (r: bool)
    ensures
        r == is_digit(c),
{
    c >= '0' && c <= '9'
}

fn is_hex_digit_exec(c: char) -> (r: bool)
    ensures
        r == is_hex_digit(c),
{
    (c >= '0' && c <= '9') || (c >= 'a' && c <= 'f') || (c >= 'A' && c <= 'F')
}

fn is_alpha_exec(c: char) -> (r: bool)
    ensures
        r == is_alpha(c),
{
    (c >= 'a' && c <= 'z') || (c >= 'A' && c <= 'Z')
}

fn is_ident_char_exec(c: char) -> (r: bool)
    ensures
        r == is_ident_char(c),
{
    is_alpha_exec(c) || is_digit_exec(c) || c == '_' || c == '.'
}

fn is_blank_exec(c: char) -> (r: bool)
    ensures
        r == is_blank(c),
{
    c == ' ' || c == '\t' || c == '\x0C'
}

/// Whether `chars[s..e]` spells `word`.
fn spells(chars: &Vec<char>, s: usize, e: usize, word: &Vec<char>) -> (r: bool)
    requires
        s <= e <= chars@.len(),
    ensures
        r == (chars@.subrange(s as int, e as int) == word@),
{
    if e - s != word.len() {
        return false;
    }
    let mut k: usize = 0;
    while k < word.len()
        invariant
            k <= word@.len(),
            e - s == word@.len(),
            s <= e <= chars@.len(),
            forall|m: int| 0 <= m < k ==> chars@[s + m] == word@[m],
        decreases word@.len() - k,
    {
        if chars[s + k] != word[k] {
            assert(chars@.subrange(s as int, e as int)[k as int] != word@[k as int]);
            return false;
        }
        k += 1;
    }
    assert(chars@.subrange(s as int, e as int) =~= word@);
    true
}

fn keyword_of(chars: &Vec<char>, s: usize, e: usize) -> (r: Option<TokKind>)
    requires
        s <= e <= chars@.len(),
    ensures
        r == keyword_kind(chars@.subrange(s as int, e as int)),
{
    if spells(chars, s, e, &vec!['i', 'f']) {
        Some(TokKind::IfKw)
    } else if spells(chars, s, e, &vec!['e', 'l', 's', 'e']) {
        Some(TokKind::ElseKw)
    } else if spells(chars, s, e, &vec!['f', 'o', 'r']) {
        Some(TokKind::ForKw)
    } else if spells(chars, s, e, &vec!['w', 'h', 'i', 'l', 'e']) {
        Some(TokKind::WhileKw)
    } else if spells(chars, s, e, &vec!['r', 'e', 'p', 'e', 'a', 't']) {
        Some(TokKind::RepeatKw)
    } else if spells(chars, s, e, &vec!['f', 'u', 'n', 'c', 't', 'i', 'o', 'n']) {
        Some(TokKind::FunctionKw)
    } else if spells(chars, s, e, &vec!['i', 'n']) {
        Some(TokKind::InKw)
    } else {
        None
    }
}

/// Advance over identifier characters starting at `j`.
fn scan_ident_chars(chars: &Vec<char>, start: usize, j: usize) -> (r: usize)
    requires
        start <= j <= chars@.len(),
        forall|m: int| start <= m < j ==> is_ident_char(#[trigger] chars@[m]),
    ensures
        j <= r <= chars@.len(),
        forall|m: int| start <= m < r ==> is_ident_char(#[trigger] chars@[m]),
        r < chars@.len() ==> !is_ident_char(chars@[r as int]),
        r == ident_end(chars@, j as int),
{
    let mut k = j;
    while k < chars.len() && is_ident_char_exec(chars[k])
        invariant
            j <= k <= chars@.len(),
            forall|m: int| start <= m < k ==> is_ident_char(#[trigger] chars@[m]),
            ident_end(chars@, k as int) == ident_end(chars@, j as int),
        decreases chars@.len() - k,
    {
        k += 1;
    }
    k
}

proof fn lemma_ident_shape(chars: Seq<char>, s: int, e: int)
    requires
        0 <= s < e <= chars.len(),
        is_alpha(chars[s]) || chars[s] == '_' || chars[s] == '.',
        forall|m: int| s <= m < e ==> is_ident_char(#[trigger] chars[m]),
        keyword_kind(chars.subrange(s, e)) is None,
    ensures
        token_shape(TokKind::Ident, chars.subrange(s, e)),
{
    let t = chars.subrange(s, e);
    assert forall|j: int| 0 <= j < t.len() implies is_ident_char(#[trigger] t[j]) by {
        assert(t[j] == chars[s + j]);
    }
}

/// An identifier or keyword starting with a letter or `_`.
fn lex_word(chars: &Vec<char>, i: usize) -> (r: (TokKind, usize))
    requires
        i < chars.len(),
        is_alpha(chars@[i as int]) || chars@[i as int] == '_',
    ensures
        i < r.1 <= chars@.len(),
        token_shape(r.0, chars@.subrange(i as int, r.1 as int)),
        r.1 < chars@.len() ==> stops_at(r.0, chars@.subrange(i as int, r.1 as int), chars@[r.1 as int]),
        (r.0, r.1 as int) == word_token(chars@, i as int),
{
    let end = scan_ident_chars(chars, i, i + 1);
    match keyword_of(chars, i, end) {
        Some(k) => {
            proof {
                let t = chars@.subrange(i as int, end as int);
                assert(t == fixed_text(k));
            }
            (k, end)
        },
        None => {
            proof {
                lemma_ident_shape(chars@, i as int, end as int);
            }
            (TokKind::Ident, end)
        },
    }
}

/// Identifiers that start with `.`: `.name`, `...` and `..N`.
fn lex_dot(chars: &Vec<char>, i: usize) -> (r: Option<usize>)
    requires
        i < chars@.len(),
        chars@[i as int] == '.',
    ensures
        r matches Some(e) ==> i < e <= chars@.len() && token_shape(
            TokKind::Ident,
            chars@.subrange(i as int, e as int),
        ),
        dot_ident_end(chars@, i as int) == match r {
            Some(e) => Some(e as int),
            None => None::<int>,
        },
{
    let len = chars.len();
    if len - i > 1 {
        let next = chars[i + 1];
        if is_alpha_exec(next) || next == '_' {
            let end = scan_ident_chars(chars, i, i + 2);
            proof {
                lemma_ident_shape(chars@, i as int, end as int);
            }
            return Some(end);
        }
    }
    if len - i > 2 && chars[i + 1] == '.' && chars[i + 2] == '.' {
        proof {
            lemma_ident_shape(chars@, i as int, i + 3);
        }
        return Some(i + 3);
    }
    if len - i > 2 && chars[i + 1] == '.' && is_digit_exec(chars[i + 2]) {
        let mut j = i + 3;
        while j < chars.len() && is_digit_exec(chars[j])
            invariant
                i + 3 <= j <= chars@.len(),
                forall|m: int| i <= m < j ==> is_ident_char(#[trigger] chars@[m]),
                digits_end(chars@, j as int, false) == digits_end(chars@, i + 3, false),
            decreases chars@.len() - j,
        {
            j += 1;
        }
        proof {
            lemma_ident_shape(chars@, i as int, j as int);
        }
        return Some(j);
    }
    None
}

fn digit_ok(c: char, hex: bool) -> (r: bool)
    ensures
        r == digit_of(c, hex),
{
    if hex {
        is_hex_digit_exec(c)
    } else {
        is_digit_exec(c)
    }
}

/// Advance over the characters accepted by `hex` (hex digits) or decimal digits.
fn scan_digits(chars: &Vec<char>, j: usize, hex: bool) -> (r: usize)
    requires
        j <= chars@.len(),
    ensures
        j <= r <= chars@.len(),
        r == digits_end(chars@, j as int, hex),
{
    let mut k = j;
    while k < chars.len() && digit_ok(chars[k], hex)
        invariant
            j <= k <= chars@.len(),
            digits_end(chars@, k as int, hex) == digits_end(chars@, j as int, hex),
        decreases chars@.len() - k,
    {
        k += 1;
    }
    k
}

/// A numeric literal: decimal or hexadecimal, with optional fraction,
/// exponent and `L` integer suffix.
fn lex_number(chars: &Vec<char>, i: usize) -> (r: (TokKind, usize))
    requires
        i < chars@.len(),
        is_digit(chars@[i as int]),
    ensures
        i < r.1 <= chars@.len(),
        r.0 == TokKind::Int || r.0 == TokKind::Float,
        (r.0, r.1 as int) == number_token(chars@, i as int),
{
    let len = chars.len();
    let mut j = i + 1;
    let mut force_int = false;
    if j < chars.len() && chars[i] == '0' && (chars[j] == 'x' || chars[j] == 'X') {
        j += 1;
        j = scan_digits(chars, j, true);
        if at(chars, j, '.') {
            j = scan_digits(chars, j + 1, true);
        }
        if at(chars, j, 'p') || at(chars, j, 'P') {
            j += 1;
            if at(chars, j, '+') || at(chars, j, '-') {
                j += 1;
            }
            j = scan_digits(chars, j, false);
        }
        if at(chars, j, 'L') || at(chars, j, 'l') {
            force_int = true;
            j += 1;
        }
        if force_int {
            (TokKind::Int, j)
        } else {
            (TokKind::Float, j)
        }
    } else {
        j = scan_digits(chars, j, false);
        let mut is_float = false;
        if at(chars, j, '.') && j + 1 < chars.len() && is_digit_exec(chars[j + 1]) {
            is_float = true;
            j = scan_digits(chars, j + 1, false);
        }
        if at(chars, j, 'e') || at(chars, j, 'E') {
            let mut k = j + 1;
            if at(chars, k, '+') || at(chars, k, '-') {
                k += 1;
            }
            let after = scan_digits(chars, k, false);
            if after > k {
                is_float = true;
                j = after;
            }
        }
        if at(chars, j, 'L') || at(chars, j, 'l') {
            force_int = true;
            j += 1;
        }
        if force_int {
            (TokKind::Int, j)
        } else if is_float {
            (TokKind::Float, j)
        } else {
            (TokKind::Int, j)
        }
    }
}

/// `chars[a..a+len] == chars[b..b+len]`.
fn same_run(chars: &Vec<char>, a: usize, b: usize, len: usize) -> (r: bool)
    requires
        a + len <= chars@.len(),
        b + len <= chars@.len(),
    ensures
        r == (chars@.subrange(a as int, a + len) == chars@.subrange(b as int, b + len)),
{
    let ghost sa = chars@.subrange(a as int, a + len);
    let ghost sb = chars@.subrange(b as int, b + len);
    let n = chars.len();
    let mut k: usize = 0;
    while k < len
        invariant
            k <= len,
            n == chars@.len(),
            a + len <= chars@.len(),
            b + len <= chars@.len(),
            sa == chars@.subrange(a as int, a + len),
            sb == chars@.subrange(b as int, b + len),
            forall|m: int| 0 <= m < k ==> sa[m] == sb[m],
        decreases len - k,
    {
        if chars[a + k] != chars[b + k] {
            assert(sa[k as int] != sb[k as int]);
            return false;
        }
        k += 1;
    }
    assert(sa =~= sb);
    true
}

/// A raw string `r"delim(...)delim"`; `None` when the text does not close.
fn lex_raw_string(chars: &Vec<char>, i: usize) -> (r: Option<usize>)
    requires
        i + 1 < chars@.len(),
        chars@[i as int] == 'r',
        chars@[i + 1] == '"',
    ensures
        r matches Some(e) ==> i < e <= chars@.len(),
        raw_string_end(chars@, i as int) == match r {
            Some(e) => Some(e as int),
            None => None::<int>,
        },
{
    let len = chars.len();
    let mut j = i + 2;
    let delim_start = j;
    while j < len && chars[j] != '('
        invariant
            delim_start <= j <= len,
            delim_start == i + 2,
            len == chars@.len(),
            delim_end(chars@, j as int) == delim_end(chars@, i + 2),
        ensures
            j == delim_end(chars@, i + 2),
        decreases len - j,
    {
        let ch = chars[j];
        if ch == '"' || ch == '\n' || ch == '\r' {
            break;
        }
        j += 1;
    }
    if j < len && chars[j] == '(' {
        let delim_len = j - delim_start;
        let mut k = j + 1;
        while k < len
            invariant
                j < k <= len,
                len == chars@.len(),
                delim_start + delim_len == j,
                delim_start == i + 2,
                j == delim_end(chars@, i + 2),
                chars@[j as int] == '(',
                raw_close(chars@, k as int, i + 2, delim_len as int) == raw_close(
                    chars@,
                    j + 1,
                    i + 2,
                    delim_len as int,
                ),
            decreases len - k,
        {
            if chars[k] == ')' {
                let after_close = k + 1;
                if after_close <= len && delim_len < len - after_close {
                    let delim_end = after_close + delim_len;
                    if same_run(chars, after_close, delim_start, delim_len) && chars[delim_end]
                        == '"' {
                        assert(raw_close(chars@, k as int, i + 2, delim_len as int) == Some(
                            delim_end + 1,
                        ));
                        return Some(delim_end + 1);
                    }
                }
            }
            k += 1;
        }
    }
    None
}

/// A quoted string; an unterminated string runs to the end of the input.
fn lex_quoted(chars: &Vec<char>, i: usize) -> (r: usize)
    requires
        i < chars@.len(),
    ensures
        i < r <= chars@.len(),
        r == quoted_end(chars@, i + 1, chars@[i as int]),
{
    let quote = chars[i];
    let len = chars.len();
    let mut j = i + 1;
    while j < len
        invariant_except_break
            quoted_end(chars@, j as int, quote) == quoted_end(chars@, i + 1, quote),
        invariant
            i < j <= len,
            len == chars@.len(),
            quote == chars@[i as int],
        ensures
            j == quoted_end(chars@, i + 1, quote),
        decreases len - j,
    {
        let ch = chars[j];
        if ch == '\\' && j + 1 < len {
            j += 2;
            continue;
        }
        j += 1;
        if ch == quote {
            break;
        }
    }
    j
}

/// The tokens that start with a character not handled by [`lex_token`]'s
/// leading single-character cases.
fn lex_rest(chars: &Vec<char>, i: usize) -> (r: (TokKind, usize))
    requires
        i < chars@.len(),
    ensures
        i < r.1 <= chars@.len(),
        token_shape(r.0, chars@.subrange(i as int, r.1 as int)),
        r.1 < chars@.len() ==> stops_at(r.0, chars@.subrange(i as int, r.1 as int), chars@[r.1 as int]),
        (r.0, r.1 as int) == rest_token(chars@, i as int),
{
    let len = chars.len();
    let c = chars[i];
    let ghost s = chars@;
    if is_blank_exec(c) {
        let mut j = i + 1;
        while j < len && is_blank_exec(chars[j])
            invariant
                i < j <= len,
                len == chars@.len(),
                forall|m: int| i <= m < j ==> is_blank(#[trigger] chars@[m]),
                blank_end(chars@, j as int) == blank_end(chars@, i + 1),
            decreases len - j,
        {
            j += 1;
        }
        proof {
            let t = s.subrange(i as int, j as int);
            assert forall|m: int| 0 <= m < t.len() implies is_blank(#[trigger] t[m]) by {
                assert(t[m] == s[i + m]);
            }
        }
        return (TokKind::Whitespace, j);
    }
    let two = len - i > 1;
    let three = len - i > 2;
    proof {
        if two {
            assert(s.subrange(i as int, i + 2) =~= seq![s[i as int], s[i + 1]]);
        }
        if three {
            assert(s.subrange(i as int, i + 3) =~= seq![s[i as int], s[i + 1], s[i + 2]]);
        }
        assert(s.subrange(i as int, i + 1) =~= seq![s[i as int]]);
    }
    if two && c == '|' && chars[i + 1] == '|' {
        return (TokKind::Or2, i + 2);
    }
    if two && c == '&' && chars[i + 1] == '&' {
        return (TokKind::And2, i + 2);
    }
    if c == '.' {
        if let Some(e) = lex_dot(chars, i) {
            return (TokKind::Ident, e);
        }
    }
    if two && c == '=' && chars[i + 1] == '=' {
        return (TokKind::Equal2, i + 2);
    }
    if two && c == '!' && chars[i + 1] == '=' {
        return (TokKind::NotEqual, i + 2);
    }
    if c == '!' {
        return (TokKind::Bang, i + 1);
    }
    if three && c == ':' && chars[i + 1] == ':' && chars[i + 2] == ':' {
        return (TokKind::Colon3, i + 3);
    }
    if two && c == ':' && chars[i + 1] == ':' {
        return (TokKind::Colon2, i + 2);
    }
    if two && c == ':' && chars[i + 1] == '=' {
        return (TokKind::Walrus, i + 2);
    }
    if two && c == '|' && chars[i + 1] == '>' {
        return (TokKind::Pipe, i + 2);
    }
    if three && c == '<' && chars[i + 1] == '<' && chars[i + 2] == '-' {
        return (TokKind::SuperAssign, i + 3);
    }
    if three && c == '-' && chars[i + 1] == '>' && chars[i + 2] == '>' {
        return (TokKind::SuperAssignRight, i + 3);
    }
    if two && c == '<' && chars[i + 1] == '-' {
        return (TokKind::AssignLeft, i + 2);
    }
    if two && c == '-' && chars[i + 1] == '>' {
        return (TokKind::AssignRight, i + 2);
    }
    if c == '-' {
        return (TokKind::Minus, i + 1);
    }
    if c == '/' {
        return (TokKind::Slash, i + 1);
    }
    if c == ':' {
        return (TokKind::Colon, i + 1);
    }
    if two && c == '<' && chars[i + 1] == '=' {
        return (TokKind::LessThanOrEqual, i + 2);
    }
    if two && c == '>' && chars[i + 1] == '=' {
        return (TokKind::GreaterThanOrEqual, i + 2);
    }
    if c == '=' {
        return (TokKind::AssignEq, i + 1);
    }
    if c == '|' {
        return (TokKind::Or, i + 1);
    }
    if c == '&' {
        return (TokKind::And, i + 1);
    }
    if c == '<' {
        return (TokKind::LessThan, i + 1);
    }
    if c == '>' {
        return (TokKind::GreaterThan, i + 1);
    }
    if two && c == '[' && chars[i + 1] == '[' {
        return (TokKind::LBrack2, i + 2);
    }
    if two && c == ']' && chars[i + 1] == ']' {
        return (TokKind::RBrack2, i + 2);
    }
    if c == '[' {
        return (TokKind::LBrack, i + 1);
    }
    if c == ']' {
        return (TokKind::RBrack, i + 1);
    }
    if is_digit_exec(c) {
        return lex_number(chars, i);
    }
    if c == 'r' && two && chars[i + 1] == '"' {
        if let Some(e) = lex_raw_string(chars, i) {
            return (TokKind::String, e);
        }
    }
    if is_alpha_exec(c) || c == '_' {
        return lex_word(chars, i);
    }
    (TokKind::Unknown, i + 1)
}

/// The kind and end of the token that starts at `i`.
fn lex_token(chars: &Vec<char>, i: usize) -> (r: (TokKind, usize))
    requires
        i < chars@.len(),
    ensures
        i < r.1 <= chars@.len(),
        token_shape(r.0, chars@.subrange(i as int, r.1 as int)),
        r.1 < chars@.len() ==> stops_at(r.0, chars@.subrange(i as int, r.1 as int), chars@[r.1 as int]),
        (r.0, r.1 as int) == token_at(chars@, i as int),
{
    let len = chars.len();
    let c = chars[i];
    let ghost s = chars@;
    proof {
        assert(s.subrange(i as int, i + 1) =~= seq![s[i as int]]);
        if i + 1 < len {
            assert(s.subrange(i as int, i + 2) =~= seq![s[i as int], s[i + 1]]);
        }
    }
    if c == '\r' {
        if i + 1 < len && chars[i + 1] == '\n' {
            return (TokKind::Newline, i + 2);
        }
        return (TokKind::Newline, i + 1);
    }
    if c == '\n' {
        return (TokKind::Newline, i + 1);
    }
    if c == '#' {
        let mut j = i + 1;
        while j < len && chars[j] != '\n' && chars[j] != '\r'
            invariant
                i < j <= len,
                len == chars@.len(),
                forall|m: int| i <= m < j ==> !is_line_break(#[trigger] chars@[m]),
                line_end(chars@, j as int) == line_end(chars@, i + 1),
            decreases len - j,
        {
            j += 1;
        }
        proof {
            let t = s.subrange(i as int, j as int);
            assert forall|m: int| 0 <= m < t.len() implies !is_line_break(#[trigger] t[m]) by {
                assert(t[m] == s[i + m]);
            }
        }
        return (TokKind::Comment, j);
    }
    if c == '~' {
        return (TokKind::Tilde, i + 1);
    }
    if c == '?' {
        return (TokKind::Question, i + 1);
    }
    if c == '$' {
        return (TokKind::Dollar, i + 1);
    }
    if c == '@' {
        return (TokKind::At, i + 1);
    }
    if c == ';' {
        return (TokKind::Semicolon, i + 1);
    }
    if c == ',' {
        return (TokKind::Comma, i + 1);
    }
    if c == '+' {
        return (TokKind::Plus, i + 1);
    }
    if c == '*' {
        return (TokKind::Star, i + 1);
    }
    if c == '^' {
        return (TokKind::Caret, i + 1);
    }
    if c == '(' {
        return (TokKind::LParen, i + 1);
    }
    if c == '\\' {
        return (TokKind::LambdaFn, i + 1);
    }
    if c == ')' {
        return (TokKind::RParen, i + 1);
    }
    if c == '{' {
        return (TokKind::LBrace, i + 1);
    }
    if c == '}' {
        return (TokKind::RBrace, i + 1);
    }
    if c == '%' {
        let mut j = i + 1;
        while j < len && chars[j] != '%'
            invariant
                i < j <= len,
                len == chars@.len(),
                forall|m: int| i < m < j ==> #[trigger] chars@[m] != '%',
                percent_end(chars@, j as int) == percent_end(chars@, i + 1),
            decreases len - j,
        {
            j += 1;
        }
        if j < len {
            proof {
                let t = s.subrange(i as int, j + 1);
                assert forall|m: int| 0 < m < t.len() - 1 implies #[trigger] t[m] != '%' by {
                    assert(t[m] == s[i + m]);
                }
            }
            return (TokKind::UserOp, j + 1);
        }
        return (TokKind::Unknown, j);
    }
    if c == '"' || c == '\'' {
        let e = lex_quoted(chars, i);
        return (TokKind::String, e);
    }
    lex_rest(chars, i)
}

/// The characters of `input`, in order.
pub fn chars_of(input: &str) -> (r: Vec<char>)
    ensures
        r@ == input@,
{
    let mut out: Vec<char> = Vec::new();
    for c in it: input.chars()
        invariant
            out@ == it.seq().take(it.index() as int),
            it.seq() == input@,
    {
        out.push(c);
        proof {
            assert(it.seq().take(it.index() + 1) =~= out@);
        }
    }
    out
}

/// `input[start..end]` as an owned string.
pub fn slice_text(input: &str, start: usize, end: usize) -> (r: String)
    requires
        start <= end <= input@.len(),
    ensures
        r@ == input@.subrange(start as int, end as int),
{
    String::from_str(input.substring_char(start, end))
}

/// Split `input` into tokens. The tokens tile the input: read in order, their
/// texts spell `input` exactly, and each is the token that [`token_at`]
/// gives where it starts, which determines them (see
/// [`law_lexing_is_determined`]). Comments run to the end of their line, and
/// runs of blanks and words are never cut short.
pub fn lex(input: &str) -> (toks: Vec<Token>)
    ensures
        tiles(toks@, input@, input@.len() as int),
        concat_text(toks@) == input@,
        maximal_tokens(toks@, input@),
        follows_rules(toks@, input@),
        lexes_to(input@, toks@),
{
    let chars = chars_of(input);
    let len = chars.len();
    let mut out: Vec<Token> = Vec::new();
    let mut i: usize = 0;
    while i < len
        invariant
            i <= len,
            len == chars@.len(),
            chars@ == input@,
            tiles(out@, input@, i as int),
            maximal_tokens(out@, input@),
            follows_rules(out@, input@),
        decreases len - i,
    {
        let (kind, end) = lex_token(&chars, i);
        let text = slice_text(input, i, end);
        let tok = Token { kind, text, start: i, end };
        let ghost prev = out@;
        out.push(tok);
        proof {
            assert(out@.drop_last() =~= prev);
        }
        i = end;
    }
    proof {
        lemma_tiles_concat(out@, input@, len as int);
        assert(input@.subrange(0, len as int) =~= input@);
    }
    out
}

} // verus!
