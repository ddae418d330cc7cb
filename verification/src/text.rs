//! Small text helpers shared by the configuration, the linter and the
//! formatter: decimal numerals and line/column positions.

use vstd::prelude::*;
use vstd::string::StringSliceAdditionalSpecFns;

verus! {

/// The character of the decimal digit `d`.
pub open spec fn digit_char(d: nat) -> char {
    if d == 0 {
        '0'
    } else if d == 1 {
        '1'
    } else if d == 2 {
        '2'
    } else if d == 3 {
        '3'
    } else if d == 4 {
        '4'
    } else if d == 5 {
        '5'
    } else if d == 6 {
        '6'
    } else if d == 7 {
        '7'
    } else if d == 8 {
        '8'
    } else {
        '9'
    }
}

/// The decimal numeral of `n`, without leading zeros.
pub open spec fn decimal(n: nat) -> Seq<char>
    decreases n,
{
    if n < 10 {
        seq![digit_char(n)]
    } else {
        decimal(n / 10).push(digit_char(n % 10))
    }
}

fn digit_str(d: u64) -> (r: &'static str)
    requires
        d < 10,
    ensures
        r@ == seq![digit_char(d as nat)],
{
    proof {
        reveal_strlit("0");
        reveal_strlit("1");
        reveal_strlit("2");
        reveal_strlit("3");
        reveal_strlit("4");
        reveal_strlit("5");
        reveal_strlit("6");
        reveal_strlit("7");
        reveal_strlit("8");
        reveal_strlit("9");
    }
    if d == 0 {
        "0"
    } else if d == 1 {
        "1"
    } else if d == 2 {
        "2"
    } else if d == 3 {
        "3"
    } else if d == 4 {
        "4"
    } else if d == 5 {
        "5"
    } else if d == 6 {
        "6"
    } else if d == 7 {
        "7"
    } else if d == 8 {
        "8"
    } else {
        "9"
    }
}

/// The decimal numeral of `n`.
pub fn decimal_string(n: u64) -> (r: String)
    ensures
        r@ == decimal(n as nat),
    decreases n,
{
    if n < 10 {
        String::from_str(digit_str(n))
    } else {
        let mut s = decimal_string(n / 10);
        s.append(digit_str(n % 10));
        s
    }
}

/// The 1-based line and column just before position `offset` of `s`: one
/// line per newline passed, and the column counts the characters since the
/// last newline.
pub open spec fn line_col(s: Seq<char>, offset: int) -> (int, int)
    decreases offset,
{
    if offset <= 0 {
        (1, 1)
    } else {
        let (line, column) = line_col(s, offset - 1);
        if s[offset - 1] == '\n' {
            (line + 1, 1)
        } else {
            (line, column + 1)
        }
    }
}

pub proof fn lemma_line_col_bounds(s: Seq<char>, offset: int)
    ensures
        1 <= line_col(s, offset).0 <= 1 + (if offset < 0 { 0 } else { offset }),
        1 <= line_col(s, offset).1 <= 1 + (if offset < 0 { 0 } else { offset }),
    decreases offset,
{
    if offset > 0 {
        lemma_line_col_bounds(s, offset - 1);
    }
}

/// Line and column of character position `offset` in `chars`; an offset past
/// the end counts as the end.
pub fn char_offset_to_line_col(chars: &[char], offset: usize) -> (r: (usize, usize))
    requires
        offset < usize::MAX,
    ensures
        (r.0 as int, r.1 as int) == line_col(
            chars@,
            if offset <= chars@.len() {
                offset as int
            } else {
                chars@.len() as int
            },
        ),
{
    let clamped = if offset <= chars.len() {
        offset
    } else {
        chars.len()
    };
    let mut line: usize = 1;
    let mut column: usize = 1;
    let mut i: usize = 0;
    while i < clamped
        invariant
            i <= clamped <= chars@.len(),
            clamped <= offset < usize::MAX,
            (line as int, column as int) == line_col(chars@, i as int),
        decreases clamped - i,
    {
        proof {
            lemma_line_col_bounds(chars@, i as int);
        }
        if chars[i] == '\n' {
            line += 1;
            column = 1;
        } else {
            column += 1;
        }
        i += 1;
    }
    (line, column)
}

/// A UTF-8 byte that begins a character (it is not a continuation byte).
pub open spec fn starts_char(b: u8) -> bool {
    b < 0x80 || b >= 0xC0
}

/// The 1-based line and column just before byte `offset` of the UTF-8
/// encoding `bytes`: one line per `\n` byte, and the column counts the
/// characters begun since the last one.
pub open spec fn byte_line_col(bytes: Seq<u8>, offset: int) -> (int, int)
    decreases offset,
{
    if offset <= 0 {
        (1, 1)
    } else {
        let (line, column) = byte_line_col(bytes, offset - 1);
        if bytes[offset - 1] == 10 {
            (line + 1, 1)
        } else if starts_char(bytes[offset - 1]) {
            (line, column + 1)
        } else {
            (line, column)
        }
    }
}

pub proof fn lemma_byte_line_col_bounds(bytes: Seq<u8>, offset: int)
    ensures
        1 <= byte_line_col(bytes, offset).0 <= 1 + (if offset < 0 { 0 } else { offset }),
        1 <= byte_line_col(bytes, offset).1 <= 1 + (if offset < 0 { 0 } else { offset }),
    decreases offset,
{
    if offset > 0 {
        lemma_byte_line_col_bounds(bytes, offset - 1);
    }
}

/// `n`, or the largest `usize` where `n` is larger (which no string held in
/// memory reaches).
pub open spec fn capped(n: int) -> int {
    if n > usize::MAX {
        usize::MAX as int
    } else {
        n
    }
}

/// Line and column of byte position `offset` in `source`; an offset past the
/// end counts as the end.
pub fn byte_offset_to_line_col(source: &str, offset: usize) -> (r: (usize, usize))
    ensures
        ({
            let (line, column) = byte_line_col(
                source.spec_bytes(),
                if offset <= source.spec_bytes().len() {
                    offset as int
                } else {
                    source.spec_bytes().len() as int
                },
            );
            &&& r.0 as int == capped(line)
            &&& r.1 as int == capped(column)
        }),
{
    let bytes = source.as_bytes();
    let clamped = if offset <= bytes.len() {
        offset
    } else {
        bytes.len()
    };
    let mut line: usize = 1;
    let mut column: usize = 1;
    let mut i: usize = 0;
    while i < clamped
        invariant
            i <= clamped <= bytes@.len(),
            clamped <= offset,
            bytes@ == source.spec_bytes(),
            line as int == capped(byte_line_col(bytes@, i as int).0),
            column as int == capped(byte_line_col(bytes@, i as int).1),
        decreases clamped - i,
    {
        proof {
            lemma_byte_line_col_bounds(bytes@, i as int);
        }
        let b = bytes[i];
        if b == 10 {
            line = line.saturating_add(1);
            column = 1;
        } else if b < 0x80 || b >= 0xC0 {
            column = column.saturating_add(1);
        }
        i += 1;
    }
    (line, column)
}

} // verus!
