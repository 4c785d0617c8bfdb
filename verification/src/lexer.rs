use vstd::prelude::*;

use crate::error::ErrorModel;
use crate::error::JsonError;

verus! {

/// The smallest lexical unit of a JSON document. JSON numbers are carried as
/// their source lexeme, already validated against the numeric grammar.
#[derive(Debug, Clone, PartialEq)]
pub enum Token {
    Null,
    Boolean(bool),
    Number(String),
    String(String),
    LeftBrace,
    RightBrace,
    LeftBracket,
    RightBracket,
    Colon,
    Comma,
}

/// Mathematical model of [`Token`]: text payloads as character sequences.
pub enum TokenModel {
    Null,
    Boolean(bool),
    Number(Seq<char>),
    String(Seq<char>),
    LeftBrace,
    RightBrace,
    LeftBracket,
    RightBracket,
    Colon,
    Comma,
}

impl View for Token {
    type V = TokenModel;

    open spec fn view(&self) -> TokenModel {
        match self {
            Token::Null => TokenModel::Null,
            Token::Boolean(b) => TokenModel::Boolean(*b),
            Token::Number(s) => TokenModel::Number(s@),
            Token::String(s) => TokenModel::String(s@),
            Token::LeftBrace => TokenModel::LeftBrace,
            Token::RightBrace => TokenModel::RightBrace,
            Token::LeftBracket => TokenModel::LeftBracket,
            Token::RightBracket => TokenModel::RightBracket,
            Token::Colon => TokenModel::Colon,
            Token::Comma => TokenModel::Comma,
        }
    }
}

/// The display name of a token, used in error reports that name the token
/// that stood where something else was expected.
pub open spec fn spec_token_desc(t: TokenModel) -> Seq<char> {
    match t {
        TokenModel::Null => "Null"@,
        TokenModel::Boolean(b) => if b {
            "Boolean(true)"@
        } else {
            "Boolean(false)"@
        },
        TokenModel::Number(s) => "Number("@ + s + ")"@,
        TokenModel::String(s) => "String(\""@ + s + "\")"@,
        TokenModel::LeftBrace => "LeftBrace"@,
        TokenModel::RightBrace => "RightBrace"@,
        TokenModel::LeftBracket => "LeftBracket"@,
        TokenModel::RightBracket => "RightBracket"@,
        TokenModel::Colon => "Colon"@,
        TokenModel::Comma => "Comma"@,
    }
}

impl Token {
    /// The display name of this token, for error reports.
    pub fn describe(&self) -> (r: String)
        ensures
            r@ == spec_token_desc(self@),
    {
        match self {
            Token::Null => String::from_str("Null"),
            Token::Boolean(b) => {
                if *b {
                    String::from_str("Boolean(true)")
                } else {
                    String::from_str("Boolean(false)")
                }
            }
            Token::Number(s) => {
                let mut m = String::from_str("Number(");
                m.append(s.as_str());
                m.append(")");
                m
            }
            Token::String(s) => {
                let mut m = String::from_str("String(\"");
                m.append(s.as_str());
                m.append("\")");
                m
            }
            Token::LeftBrace => String::from_str("LeftBrace"),
            Token::RightBrace => String::from_str("RightBrace"),
            Token::LeftBracket => String::from_str("LeftBracket"),
            Token::RightBracket => String::from_str("RightBracket"),
            Token::Colon => String::from_str("Colon"),
            Token::Comma => String::from_str("Comma"),
        }
    }
}

/// The model of what one lexer call hands back: the token, the end of the
/// input, or the error, with text payloads as character sequences.
pub open spec fn token_result_model(r: Result<Option<Token>, JsonError>) -> Result<
    Option<TokenModel>,
    ErrorModel,
> {
    match r {
        Ok(Some(t)) => Ok(Some(t@)),
        Ok(None) => Ok(None),
        Err(e) => Err(e@),
    }
}

/// Whitespace, by the Unicode `White_Space` property (the classification the
/// lexer skips between tokens).
pub open spec fn is_ws_char(c: char) -> bool {
    let u = c as u32;
    u == 0x09 || u == 0x0A || u == 0x0B || u == 0x0C || u == 0x0D || u == 0x20 || u == 0x85 || u
        == 0xA0 || u == 0x1680 || (0x2000 <= u && u <= 0x200A) || u == 0x2028 || u == 0x2029 || u
        == 0x202F || u == 0x205F || u == 0x3000
}

/// An ASCII decimal digit.
pub open spec fn is_digit_char(c: char) -> bool {
    let u = c as u32;
    0x30 <= u && u <= 0x39
}

/// The value of a hexadecimal digit, or -1 for any other character.
pub open spec fn hex_char_value(c: char) -> int {
    let u = c as u32 as int;
    if 0x30 <= u && u <= 0x39 {
        u - 0x30
    } else if 0x41 <= u && u <= 0x46 {
        u - 0x41 + 10
    } else if 0x61 <= u && u <= 0x66 {
        u - 0x61 + 10
    } else {
        -1
    }
}

/// The code point named by four hexadecimal digits.
pub open spec fn hex4_value(h1: char, h2: char, h3: char, h4: char) -> int {
    hex_char_value(h1) * 0x1000 + hex_char_value(h2) * 0x100 + hex_char_value(h3) * 0x10
        + hex_char_value(h4)
}

/// The first position at or after `i` holding a non-whitespace character
/// (or the end of the input).
pub open spec fn spec_skip_ws(s: Seq<char>, i: int) -> int
    decreases s.len() - i,
{
    if 0 <= i < s.len() && is_ws_char(s[i]) {
        spec_skip_ws(s, i + 1)
    } else {
        i
    }
}

/// The first position at or after `i` holding a non-digit character
/// (or the end of the input).
pub open spec fn spec_scan_digits(s: Seq<char>, i: int) -> int
    decreases s.len() - i,
{
    if 0 <= i < s.len() && is_digit_char(s[i]) {
        spec_scan_digits(s, i + 1)
    } else {
        i
    }
}

/// Reading the `null` literal whose `n` stands at position `i`.
pub open spec fn spec_read_null(s: Seq<char>, i: int) -> (Result<Option<TokenModel>, ErrorModel>,
    int,
) {
    if i + 1 >= s.len() {
        (Err(ErrorModel::UnexpectedEof), i + 1)
    } else if s[i + 1] != 'u' {
        (Err(ErrorModel::UnexpectedToken(seq![s[i + 1]])), i + 2)
    } else if i + 2 >= s.len() {
        (Err(ErrorModel::UnexpectedEof), i + 2)
    } else if s[i + 2] != 'l' {
        (Err(ErrorModel::UnexpectedToken(seq![s[i + 2]])), i + 3)
    } else if i + 3 >= s.len() {
        (Err(ErrorModel::UnexpectedEof), i + 3)
    } else if s[i + 3] != 'l' {
        (Err(ErrorModel::UnexpectedToken(seq![s[i + 3]])), i + 4)
    } else {
        (Ok(Some(TokenModel::Null)), i + 4)
    }
}

/// Reading the `true` or `false` literal starting at position `i`.
pub open spec fn spec_read_boolean(s: Seq<char>, i: int) -> (Result<
    Option<TokenModel>,
    ErrorModel,
>, int) {
    if 0 <= i < s.len() && s[i] == 't' {
        if i + 1 >= s.len() {
            (Err(ErrorModel::UnexpectedEof), i + 1)
        } else if s[i + 1] != 'r' {
            (Err(ErrorModel::UnexpectedToken(seq![s[i + 1]])), i + 2)
        } else if i + 2 >= s.len() {
            (Err(ErrorModel::UnexpectedEof), i + 2)
        } else if s[i + 2] != 'u' {
            (Err(ErrorModel::UnexpectedToken(seq![s[i + 2]])), i + 3)
        } else if i + 3 >= s.len() {
            (Err(ErrorModel::UnexpectedEof), i + 3)
        } else if s[i + 3] != 'e' {
            (Err(ErrorModel::UnexpectedToken(seq![s[i + 3]])), i + 4)
        } else {
            (Ok(Some(TokenModel::Boolean(true))), i + 4)
        }
    } else if 0 <= i < s.len() && s[i] == 'f' {
        if i + 1 >= s.len() {
            (Err(ErrorModel::UnexpectedEof), i + 1)
        } else if s[i + 1] != 'a' {
            (Err(ErrorModel::UnexpectedToken(seq![s[i + 1]])), i + 2)
        } else if i + 2 >= s.len() {
            (Err(ErrorModel::UnexpectedEof), i + 2)
        } else if s[i + 2] != 'l' {
            (Err(ErrorModel::UnexpectedToken(seq![s[i + 2]])), i + 3)
        } else if i + 3 >= s.len() {
            (Err(ErrorModel::UnexpectedEof), i + 3)
        } else if s[i + 3] != 's' {
            (Err(ErrorModel::UnexpectedToken(seq![s[i + 3]])), i + 4)
        } else if i + 4 >= s.len() {
            (Err(ErrorModel::UnexpectedEof), i + 4)
        } else if s[i + 4] != 'e' {
            (Err(ErrorModel::UnexpectedToken(seq![s[i + 4]])), i + 5)
        } else {
            (Ok(Some(TokenModel::Boolean(false))), i + 5)
        }
    } else {
        (Err(ErrorModel::UnexpectedToken("Expected 'true' or 'false'"@)), i)
    }
}

/// Reading a numeric literal starting at position `i`: optional minus, an
/// integer digit run, an optional fraction, an optional exponent. Each digit
/// run must hold at least one digit. The token carries the whole lexeme.
pub open spec fn spec_read_number(s: Seq<char>, i: int) -> (Result<Option<TokenModel>, ErrorModel>,
    int,
) {
    let j1 = if s[i] == '-' {
        i + 1
    } else {
        i
    };
    let j2 = spec_scan_digits(s, j1);
    if j2 == j1 {
        (Err(ErrorModel::InvalidNumber("Expected at least one digit"@)), j1)
    } else {
        let has_frac = j2 < s.len() && s[j2] == '.';
        let j3 = if has_frac {
            spec_scan_digits(s, j2 + 1)
        } else {
            j2
        };
        if has_frac && j3 == j2 + 1 {
            (Err(ErrorModel::InvalidNumber("Expected at least one digit"@)), j2 + 1)
        } else {
            let has_exp = j3 < s.len() && (s[j3] == 'e' || s[j3] == 'E');
            if has_exp {
                let j5 = if j3 + 1 < s.len() && (s[j3 + 1] == '+' || s[j3 + 1] == '-') {
                    j3 + 2
                } else {
                    j3 + 1
                };
                let j6 = spec_scan_digits(s, j5);
                if j6 == j5 {
                    (Err(ErrorModel::InvalidNumber("Expected at least one digit"@)), j5)
                } else {
                    (Ok(Some(TokenModel::Number(s.subrange(i, j6)))), j6)
                }
            } else {
                (Ok(Some(TokenModel::Number(s.subrange(i, j3)))), j3)
            }
        }
    }
}

/// Reading the remainder of a string literal: `i` stands just behind the
/// opening quote (or behind the last decoded piece), `acc` holds the text
/// decoded so far. Stops at the first unescaped quote.
pub open spec fn spec_read_string(s: Seq<char>, i: int, acc: Seq<char>) -> (Result<
    Option<TokenModel>,
    ErrorModel,
>, int)
    decreases s.len() - i,
{
    if !(0 <= i < s.len()) {
        (Err(ErrorModel::UnexpectedEof), i)
    } else if s[i] == '"' {
        (Ok(Some(TokenModel::String(acc))), i + 1)
    } else if s[i] == '\\' {
        if i + 1 >= s.len() {
            (Err(ErrorModel::UnexpectedEof), i)
        } else {
            let e = s[i + 1];
            if e == '"' {
                spec_read_string(s, i + 2, acc.push('"'))
            } else if e == '\\' {
                spec_read_string(s, i + 2, acc.push('\\'))
            } else if e == '/' {
                spec_read_string(s, i + 2, acc.push('/'))
            } else if e == 'b' {
                spec_read_string(s, i + 2, acc.push('\u{0008}'))
            } else if e == 'f' {
                spec_read_string(s, i + 2, acc.push('\u{000C}'))
            } else if e == 'n' {
                spec_read_string(s, i + 2, acc.push('\n'))
            } else if e == 'r' {
                spec_read_string(s, i + 2, acc.push('\r'))
            } else if e == 't' {
                spec_read_string(s, i + 2, acc.push('\t'))
            } else if e == 'u' {
                if i + 6 > s.len() {
                    (Err(ErrorModel::InvalidUnicodeSequence(s.subrange(i + 2, s.len() as int))), i)
                } else {
                    let hex = s.subrange(i + 2, i + 6);
                    if hex_char_value(s[i + 2]) < 0 || hex_char_value(s[i + 3]) < 0
                        || hex_char_value(s[i + 4]) < 0 || hex_char_value(s[i + 5]) < 0 {
                        (Err(ErrorModel::InvalidUnicodeSequence(hex)), i)
                    } else {
                        let u = hex4_value(s[i + 2], s[i + 3], s[i + 4], s[i + 5]);
                        if 0xD800 <= u && u <= 0xDFFF {
                            (Err(ErrorModel::InvalidUnicodeSequence(hex)), i)
                        } else {
                            spec_read_string(s, i + 6, acc.push(u as char))
                        }
                    }
                }
            } else {
                (Err(ErrorModel::InvalidEscapeSequence(seq![e])), i)
            }
        }
    } else {
        spec_read_string(s, i + 1, acc.push(s[i]))
    }
}

/// One lexer step from position `i`: skip whitespace, then read the token
/// named by the first character, or report end of input or the offending
/// character. The returned position is where the cursor stops, for errors as
/// well as for tokens: on an unlexable character, behind the skipped
/// whitespace and before that character; inside a literal, behind the last
/// character examined; in a string or number, at the point of failure.
pub open spec fn spec_next_token(s: Seq<char>, i: int) -> (Result<Option<TokenModel>, ErrorModel>,
    int,
) {
    let j = spec_skip_ws(s, i);
    if !(0 <= j < s.len()) {
        (Ok(None), j)
    } else {
        let c = s[j];
        if c == '{' {
            (Ok(Some(TokenModel::LeftBrace)), j + 1)
        } else if c == '}' {
            (Ok(Some(TokenModel::RightBrace)), j + 1)
        } else if c == '[' {
            (Ok(Some(TokenModel::LeftBracket)), j + 1)
        } else if c == ']' {
            (Ok(Some(TokenModel::RightBracket)), j + 1)
        } else if c == ':' {
            (Ok(Some(TokenModel::Colon)), j + 1)
        } else if c == ',' {
            (Ok(Some(TokenModel::Comma)), j + 1)
        } else if c == '"' {
            spec_read_string(s, j + 1, Seq::empty())
        } else if c == 'n' {
            spec_read_null(s, j)
        } else if c == 't' || c == 'f' {
            spec_read_boolean(s, j)
        } else if c == '-' || is_digit_char(c) {
            spec_read_number(s, j)
        } else {
            (Err(ErrorModel::UnexpectedToken(seq![c])), j)
        }
    }
}

/// `spec_skip_ws` stays within the input.
pub proof fn lemma_skip_ws_bounds(s: Seq<char>, i: int)
    requires
        0 <= i <= s.len(),
    ensures
        i <= spec_skip_ws(s, i) <= s.len(),
    decreases s.len() - i,
{
    if i < s.len() && is_ws_char(s[i]) {
        lemma_skip_ws_bounds(s, i + 1);
    }
}

/// `spec_scan_digits` stays within the input.
pub proof fn lemma_scan_digits_bounds(s: Seq<char>, i: int)
    requires
        0 <= i <= s.len(),
    ensures
        i <= spec_scan_digits(s, i) <= s.len(),
    decreases s.len() - i,
{
    if i < s.len() && is_digit_char(s[i]) {
        lemma_scan_digits_bounds(s, i + 1);
    }
}

/// A successfully read string ends within the input, behind its last piece.
pub proof fn lemma_read_string_bounds(s: Seq<char>, i: int, acc: Seq<char>)
    requires
        0 <= i <= s.len(),
    ensures
        spec_read_string(s, i, acc).0 is Ok ==> i < spec_read_string(s, i, acc).1 <= s.len(),
    decreases s.len() - i,
{
    if 0 <= i < s.len() && s[i] != '"' {
        if s[i] == '\\' {
            if i + 1 < s.len() {
                let e = s[i + 1];
                if e == '"' || e == '\\' || e == '/' || e == 'b' || e == 'f' || e == 'n' || e == 'r'
                    || e == 't' {
                    lemma_read_string_bounds(s, i + 2, acc.push(e));
                    assert(spec_read_string(s, i + 2, acc.push('"')).1 == spec_read_string(
                        s,
                        i + 2,
                        acc.push(e),
                    ).1) by {
                        lemma_read_string_pos_ignores_acc(s, i + 2, acc.push('"'), acc.push(e));
                    }
                    lemma_read_string_bounds(s, i + 2, acc.push('"'));
                    lemma_read_string_bounds(s, i + 2, acc.push('\\'));
                    lemma_read_string_bounds(s, i + 2, acc.push('/'));
                    lemma_read_string_bounds(s, i + 2, acc.push('\u{0008}'));
                    lemma_read_string_bounds(s, i + 2, acc.push('\u{000C}'));
                    lemma_read_string_bounds(s, i + 2, acc.push('\n'));
                    lemma_read_string_bounds(s, i + 2, acc.push('\r'));
                    lemma_read_string_bounds(s, i + 2, acc.push('\t'));
                } else if e == 'u' {
                    if i + 6 <= s.len() {
                        let u = hex4_value(s[i + 2], s[i + 3], s[i + 4], s[i + 5]);
                        lemma_read_string_bounds(s, i + 6, acc.push(u as char));
                    }
                }
            }
        } else {
            lemma_read_string_bounds(s, i + 1, acc.push(s[i]));
        }
    }
}

/// The final position of a string read does not depend on the accumulator.
proof fn lemma_read_string_pos_ignores_acc(s: Seq<char>, i: int, acc1: Seq<char>, acc2: Seq<char>)
    ensures
        spec_read_string(s, i, acc1).1 == spec_read_string(s, i, acc2).1,
        spec_read_string(s, i, acc1).0 is Ok <==> spec_read_string(s, i, acc2).0 is Ok,
    decreases s.len() - i,
{
    if 0 <= i < s.len() && s[i] != '"' {
        if s[i] == '\\' {
            if i + 1 < s.len() {
                let e = s[i + 1];
                if e == '"' {
                    lemma_read_string_pos_ignores_acc(s, i + 2, acc1.push('"'), acc2.push('"'));
                } else if e == '\\' {
                    lemma_read_string_pos_ignores_acc(s, i + 2, acc1.push('\\'), acc2.push('\\'));
                } else if e == '/' {
                    lemma_read_string_pos_ignores_acc(s, i + 2, acc1.push('/'), acc2.push('/'));
                } else if e == 'b' {
                    lemma_read_string_pos_ignores_acc(
                        s,
                        i + 2,
                        acc1.push('\u{0008}'),
                        acc2.push('\u{0008}'),
                    );
                } else if e == 'f' {
                    lemma_read_string_pos_ignores_acc(
                        s,
                        i + 2,
                        acc1.push('\u{000C}'),
                        acc2.push('\u{000C}'),
                    );
                } else if e == 'n' {
                    lemma_read_string_pos_ignores_acc(s, i + 2, acc1.push('\n'), acc2.push('\n'));
                } else if e == 'r' {
                    lemma_read_string_pos_ignores_acc(s, i + 2, acc1.push('\r'), acc2.push('\r'));
                } else if e == 't' {
                    lemma_read_string_pos_ignores_acc(s, i + 2, acc1.push('\t'), acc2.push('\t'));
                } else if e == 'u' {
                    if i + 6 <= s.len() {
                        let u = hex4_value(s[i + 2], s[i + 3], s[i + 4], s[i + 5]);
                        lemma_read_string_pos_ignores_acc(
                            s,
                            i + 6,
                            acc1.push(u as char),
                            acc2.push(u as char),
                        );
                    }
                }
            }
        } else {
            lemma_read_string_pos_ignores_acc(s, i + 1, acc1.push(s[i]), acc2.push(s[i]));
        }
    }
}

/// One lexer step stays within the input and, when it yields a token,
/// consumes at least one character.
pub proof fn lemma_next_token_bounds(s: Seq<char>, i: int)
    requires
        0 <= i <= s.len(),
    ensures
        spec_next_token(s, i).0 matches Ok(Some(_)) ==> i < spec_next_token(s, i).1 <= s.len(),
        spec_next_token(s, i).0 matches Ok(None) ==> i <= spec_next_token(s, i).1 <= s.len(),
{
    lemma_skip_ws_bounds(s, i);
    let j = spec_skip_ws(s, i);
    if 0 <= j < s.len() {
        let c = s[j];
        if c == '"' {
            lemma_read_string_bounds(s, j + 1, Seq::empty());
        } else if c == '-' || is_digit_char(c) {
            let j1 = if s[j] == '-' {
                j + 1
            } else {
                j
            };
            lemma_scan_digits_bounds(s, j1);
            let j2 = spec_scan_digits(s, j1);
            if j2 != j1 {
                let has_frac = j2 < s.len() && s[j2] == '.';
                if has_frac {
                    lemma_scan_digits_bounds(s, j2 + 1);
                }
                let j3 = if has_frac {
                    spec_scan_digits(s, j2 + 1)
                } else {
                    j2
                };
                if !(has_frac && j3 == j2 + 1) {
                    let has_exp = j3 < s.len() && (s[j3] == 'e' || s[j3] == 'E');
                    if has_exp {
                        let j5 = if j3 + 1 < s.len() && (s[j3 + 1] == '+' || s[j3 + 1] == '-') {
                            j3 + 2
                        } else {
                            j3 + 1
                        };
                        lemma_scan_digits_bounds(s, j5);
                    }
                }
            }
        }
    }
}

/// Relies on `String::push`: appends the given character at the end.
#[verifier::external_body]
fn push_char(s: &mut String, c: char)
    ensures
        final(s)@ == old(s)@.push(c),
{
    s.push(c);
}

/// Relies on `char::from_u32`: yields the character with the given code point
/// exactly when that code point is a Unicode scalar value, that is, neither a
/// surrogate nor above the maximum code point.
#[verifier::external_body]
fn char_from_u32(u: u32) -> (r: Option<char>)
    ensures
        r == (if u < 0xD800 || (0xE000 <= u && u <= 0x10FFFF) {
            Some(u as char)
        } else {
            None::<char>
        }),
{
    char::from_u32(u)
}

/// A one-character string.
fn char_to_string(c: char) -> (r: String)
    ensures
        r@ == seq![c],
{
    let mut s = String::new();
    push_char(&mut s, c);
    proof {
        assert(s@ =~= seq![c]);
    }
    s
}

/// Whether `c` counts as whitespace between tokens.
fn char_is_ws(c: char) -> (r: bool)
    ensures
        r == is_ws_char(c),
{
    let u = c as u32;
    u == 0x09 || u == 0x0A || u == 0x0B || u == 0x0C || u == 0x0D || u == 0x20 || u == 0x85 || u
        == 0xA0 || u == 0x1680 || (0x2000 <= u && u <= 0x200A) || u == 0x2028 || u == 0x2029 || u
        == 0x202F || u == 0x205F || u == 0x3000
}

/// Whether `c` is an ASCII decimal digit.
fn char_is_digit(c: char) -> (r: bool)
    ensures
        r == is_digit_char(c),
{
    let u = c as u32;
    0x30 <= u && u <= 0x39
}

/// The value of a hexadecimal digit, if `c` is one.
fn char_hex_value(c: char) -> (r: Option<u32>)
    ensures
        r matches Some(v) ==> v == hex_char_value(c),
        r is Some <==> hex_char_value(c) >= 0,
{
    let u = c as u32;
    if 0x30 <= u && u <= 0x39 {
        Some(u - 0x30)
    } else if 0x41 <= u && u <= 0x46 {
        Some(u - 0x41 + 10)
    } else if 0x61 <= u && u <= 0x66 {
        Some(u - 0x61 + 10)
    } else {
        None
    }
}

/// The character-level tokenizer: a cursor over the input text, advanced one
/// token per call to [`Lexer::next_token`].
pub struct Lexer {
    input: Vec<char>,
    pos: usize,
}

impl Lexer {
    /// The input text.
    pub closed spec fn chars(&self) -> Seq<char> {
        self.input@
    }

    /// The current cursor position.
    pub closed spec fn cursor(&self) -> int {
        self.pos as int
    }

    /// The cursor stays within the input.
    pub open spec fn wf(&self) -> bool {
        0 <= self.cursor() <= self.chars().len()
    }

    /// A fresh lexer at the start of `input`.
    pub fn new(input: &str) -> (lx: Lexer)
        ensures
            lx.wf(),
            lx.chars() == input@,
            lx.cursor() == 0,
    {
        let n = input.unicode_len();
        let mut v: Vec<char> = Vec::new();
        let mut i: usize = 0;
        while i < n
            invariant
                n == input@.len(),
                0 <= i <= n,
                v@ == input@.subrange(0, i as int),
            decreases n - i,
        {
            let c = input.get_char(i);
            v.push(c);
            proof {
                assert(v@ =~= input@.subrange(0, i + 1 as int));
            }
            i = i + 1;
        }
        proof {
            assert(v@ =~= input@);
        }
        Lexer { input: v, pos: 0 }
    }

    /// Moves the cursor past any whitespace.
    fn skip_whitespace(&mut self)
        requires
            old(self).wf(),
        ensures
            final (self).wf(),
            final (self).chars() == old(self).chars(),
            final (self).cursor() == spec_skip_ws(old(self).chars(), old(self).cursor()),
    {
        let ghost s = self.chars();
        let ghost i0 = self.cursor();
        while self.pos < self.input.len() && char_is_ws(self.input[self.pos])
            invariant
                self.wf(),
                self.chars() == s,
                spec_skip_ws(s, i0) == spec_skip_ws(s, self.cursor()),
            decreases self.chars().len() - self.cursor(),
        {
            self.pos = self.pos + 1;
        }
    }

    /// Reads the next token, or reports end of input or the lexical error.
    pub fn next_token(&mut self) -> (r: Result<Option<Token>, JsonError>)
        requires
            old(self).wf(),
        ensures
            final (self).wf(),
            final (self).chars() == old(self).chars(),
            token_result_model(r) == spec_next_token(old(self).chars(), old(self).cursor()).0,
            final (self).cursor() == spec_next_token(old(self).chars(), old(self).cursor()).1,
    {
        self.skip_whitespace();
        if self.pos >= self.input.len() {
            return Ok(None);
        }
        let c = self.input[self.pos];
        if c == '{' {
            self.pos = self.pos + 1;
            Ok(Some(Token::LeftBrace))
        } else if c == '}' {
            self.pos = self.pos + 1;
            Ok(Some(Token::RightBrace))
        } else if c == '[' {
            self.pos = self.pos + 1;
            Ok(Some(Token::LeftBracket))
        } else if c == ']' {
            self.pos = self.pos + 1;
            Ok(Some(Token::RightBracket))
        } else if c == ':' {
            self.pos = self.pos + 1;
            Ok(Some(Token::Colon))
        } else if c == ',' {
            self.pos = self.pos + 1;
            Ok(Some(Token::Comma))
        } else if c == '"' {
            self.pos = self.pos + 1;
            self.read_string()
        } else if c == 'n' {
            self.read_null()
        } else if c == 't' || c == 'f' {
            self.read_boolean()
        } else if c == '-' || char_is_digit(c) {
            self.read_number()
        } else {
            Err(JsonError::UnexpectedToken(char_to_string(c)))
        }
    }

    /// Reads the remainder of a string literal; the cursor stands just behind
    /// the opening quote.
    #[verifier::loop_isolation(false)]
    fn read_string(&mut self) -> (r: Result<Option<Token>, JsonError>)
        requires
            old(self).wf(),
        ensures
            final (self).wf(),
            final (self).chars() == old(self).chars(),
            ({
                let (res, p) = spec_read_string(
                    old(self).chars(),
                    old(self).cursor(),
                    Seq::empty(),
                );
                token_result_model(r) == res && final (self).cursor() == p
            }),
    {
        let ghost s = self.chars();
        let ghost i0 = self.cursor();
        let mut string = String::new();
        loop
            invariant
                self.wf(),
                self.chars() == s,
                i0 <= self.cursor(),
                spec_read_string(s, i0, Seq::empty()) == spec_read_string(
                    s,
                    self.cursor(),
                    string@,
                ),
            decreases self.chars().len() - self.cursor(),
        {
            if self.pos >= self.input.len() {
                return Err(JsonError::UnexpectedEof);
            }
            let c = self.input[self.pos];
            if c == '"' {
                self.pos = self.pos + 1;
                return Ok(Some(Token::String(string)));
            } else if c == '\\' {
                if self.pos + 1 >= self.input.len() {
                    return Err(JsonError::UnexpectedEof);
                }
                let e = self.input[self.pos + 1];
                if e == '"' {
                    push_char(&mut string, '"');
                    self.pos = self.pos + 2;
                } else if e == '\\' {
                    push_char(&mut string, '\\');
                    self.pos = self.pos + 2;
                } else if e == '/' {
                    push_char(&mut string, '/');
                    self.pos = self.pos + 2;
                } else if e == 'b' {
                    push_char(&mut string, '\u{0008}');
                    self.pos = self.pos + 2;
                } else if e == 'f' {
                    push_char(&mut string, '\u{000C}');
                    self.pos = self.pos + 2;
                } else if e == 'n' {
                    push_char(&mut string, '\n');
                    self.pos = self.pos + 2;
                } else if e == 'r' {
                    push_char(&mut string, '\r');
                    self.pos = self.pos + 2;
                } else if e == 't' {
                    push_char(&mut string, '\t');
                    self.pos = self.pos + 2;
                } else if e == 'u' {
                    if self.input.len() - self.pos < 6 {
                        // Fewer than four characters follow `\u`: report the
                        // ones that are there, as the incomplete sequence.
                        let mut code_point = String::new();
                        let mut k: usize = self.pos + 2;
                        while k < self.input.len()
                            invariant
                                self.wf(),
                                self.chars() == s,
                                self.cursor() + 2 <= k <= self.chars().len(),
                                code_point@ == s.subrange(self.cursor() + 2, k as int),
                            decreases self.chars().len() - k,
                        {
                            push_char(&mut code_point, self.input[k]);
                            proof {
                                assert(code_point@ =~= s.subrange(self.cursor() + 2, k + 1 as int));
                            }
                            k = k + 1;
                        }
                        return Err(JsonError::InvalidUnicodeSequence(code_point));
                    }
                    let h1 = self.input[self.pos + 2];
                    let h2 = self.input[self.pos + 3];
                    let h3 = self.input[self.pos + 4];
                    let h4 = self.input[self.pos + 5];
                    let v1 = char_hex_value(h1);
                    let v2 = char_hex_value(h2);
                    let v3 = char_hex_value(h3);
                    let v4 = char_hex_value(h4);
                    match (v1, v2, v3, v4) {
                        (Some(a), Some(b), Some(cc), Some(d)) => {
                            let u = a * 0x1000 + b * 0x100 + cc * 0x10 + d;
                            match char_from_u32(u) {
                                Some(decoded) => {
                                    push_char(&mut string, decoded);
                                    self.pos = self.pos + 6;
                                }
                                None => {
                                    proof {
                                        assert(seq![h1, h2, h3, h4] =~= s.subrange(
                                            self.cursor() + 2,
                                            self.cursor() + 6,
                                        ));
                                    }
                                    return Err(
                                        JsonError::InvalidUnicodeSequence(
                                            self.four_chars(h1, h2, h3, h4),
                                        ),
                                    );
                                }
                            }
                        }
                        _ => {
                            proof {
                                assert(seq![h1, h2, h3, h4] =~= s.subrange(
                                    self.cursor() + 2,
                                    self.cursor() + 6,
                                ));
                            }
                            return Err(
                                JsonError::InvalidUnicodeSequence(self.four_chars(h1, h2, h3, h4)),
                            );
                        }
                    }
                } else {
                    return Err(JsonError::InvalidEscapeSequence(char_to_string(e)));
                }
            } else {
                push_char(&mut string, c);
                self.pos = self.pos + 1;
            }
        }
    }

    /// The four characters behind `\u`, as a string, for an error report.
    fn four_chars(&self, h1: char, h2: char, h3: char, h4: char) -> (r: String)
        ensures
            r@ == seq![h1, h2, h3, h4],
    {
        let mut s = String::new();
        push_char(&mut s, h1);
        push_char(&mut s, h2);
        push_char(&mut s, h3);
        push_char(&mut s, h4);
        proof {
            assert(s@ =~= seq![h1, h2, h3, h4]);
        }
        s
    }

    /// Reads the `null` literal; the cursor stands on its `n`.
    fn read_null(&mut self) -> (r: Result<Option<Token>, JsonError>)
        requires
            old(self).wf(),
            old(self).cursor() < old(self).chars().len(),
        ensures
            final (self).wf(),
            final (self).chars() == old(self).chars(),
            ({
                let (res, p) = spec_read_null(old(self).chars(), old(self).cursor());
                token_result_model(r) == res && final (self).cursor() == p
            }),
    {
        let n = self.input.len();
        self.pos = self.pos + 1;
        if self.pos >= n {
            return Err(JsonError::UnexpectedEof);
        }
        let c1 = self.input[self.pos];
        self.pos = self.pos + 1;
        if c1 != 'u' {
            return Err(JsonError::UnexpectedToken(char_to_string(c1)));
        }
        if self.pos >= n {
            return Err(JsonError::UnexpectedEof);
        }
        let c2 = self.input[self.pos];
        self.pos = self.pos + 1;
        if c2 != 'l' {
            return Err(JsonError::UnexpectedToken(char_to_string(c2)));
        }
        if self.pos >= n {
            return Err(JsonError::UnexpectedEof);
        }
        let c3 = self.input[self.pos];
        self.pos = self.pos + 1;
        if c3 != 'l' {
            return Err(JsonError::UnexpectedToken(char_to_string(c3)));
        }
        Ok(Some(Token::Null))
    }

    /// Reads the `true` or `false` literal; the cursor stands on its first
    /// character.
    fn read_boolean(&mut self) -> (r: Result<Option<Token>, JsonError>)
        requires
            old(self).wf(),
            old(self).cursor() < old(self).chars().len(),
        ensures
            final (self).wf(),
            final (self).chars() == old(self).chars(),
            ({
                let (res, p) = spec_read_boolean(old(self).chars(), old(self).cursor());
                token_result_model(r) == res && final (self).cursor() == p
            }),
    {
        let n = self.input.len();
        let first = self.input[self.pos];
        if first == 't' {
            self.pos = self.pos + 1;
            if self.pos >= n {
                return Err(JsonError::UnexpectedEof);
            }
            let c1 = self.input[self.pos];
            self.pos = self.pos + 1;
            if c1 != 'r' {
                return Err(JsonError::UnexpectedToken(char_to_string(c1)));
            }
            if self.pos >= n {
                return Err(JsonError::UnexpectedEof);
            }
            let c2 = self.input[self.pos];
            self.pos = self.pos + 1;
            if c2 != 'u' {
                return Err(JsonError::UnexpectedToken(char_to_string(c2)));
            }
            if self.pos >= n {
                return Err(JsonError::UnexpectedEof);
            }
            let c3 = self.input[self.pos];
            self.pos = self.pos + 1;
            if c3 != 'e' {
                return Err(JsonError::UnexpectedToken(char_to_string(c3)));
            }
            Ok(Some(Token::Boolean(true)))
        } else if first == 'f' {
            self.pos = self.pos + 1;
            if self.pos >= n {
                return Err(JsonError::UnexpectedEof);
            }
            let c1 = self.input[self.pos];
            self.pos = self.pos + 1;
            if c1 != 'a' {
                return Err(JsonError::UnexpectedToken(char_to_string(c1)));
            }
            if self.pos >= n {
                return Err(JsonError::UnexpectedEof);
            }
            let c2 = self.input[self.pos];
            self.pos = self.pos + 1;
            if c2 != 'l' {
                return Err(JsonError::UnexpectedToken(char_to_string(c2)));
            }
            if self.pos >= n {
                return Err(JsonError::UnexpectedEof);
            }
            let c3 = self.input[self.pos];
            self.pos = self.pos + 1;
            if c3 != 's' {
                return Err(JsonError::UnexpectedToken(char_to_string(c3)));
            }
            if self.pos >= n {
                return Err(JsonError::UnexpectedEof);
            }
            let c4 = self.input[self.pos];
            self.pos = self.pos + 1;
            if c4 != 'e' {
                return Err(JsonError::UnexpectedToken(char_to_string(c4)));
            }
            Ok(Some(Token::Boolean(false)))
        } else {
            Err(JsonError::UnexpectedToken(String::from_str("Expected 'true' or 'false'")))
        }
    }

    /// Reads a numeric literal; the cursor stands on its first character.
    #[verifier::rlimit(60)]
    fn read_number(&mut self) -> (r: Result<Option<Token>, JsonError>)
        requires
            old(self).wf(),
            old(self).cursor() < old(self).chars().len(),
        ensures
            final (self).wf(),
            final (self).chars() == old(self).chars(),
            ({
                let (res, p) = spec_read_number(old(self).chars(), old(self).cursor());
                token_result_model(r) == res && final (self).cursor() == p
            }),
    {
        let ghost s = self.chars();
        let ghost start = self.cursor();
        let n = self.input.len();
        let mut number_str = String::new();

        if self.input[self.pos] == '-' {
            push_char(&mut number_str, '-');
            self.pos = self.pos + 1;
        }
        let ghost j1 = self.cursor();
        match self.read_digits(&mut number_str) {
            Ok(()) => {}
            Err(e) => {
                return Err(e);
            }
        }
        if self.pos < n && self.input[self.pos] == '.' {
            push_char(&mut number_str, '.');
            self.pos = self.pos + 1;
            match self.read_digits(&mut number_str) {
                Ok(()) => {}
                Err(e) => {
                    return Err(e);
                }
            }
        }
        if self.pos < n && (self.input[self.pos] == 'e' || self.input[self.pos]
            == 'E') {
            let exp_mark = self.input[self.pos];
            push_char(&mut number_str, exp_mark);
            self.pos = self.pos + 1;
            if self.pos < n && (self.input[self.pos] == '+' || self.input[self.pos]
                == '-') {
                let sign = self.input[self.pos];
                push_char(&mut number_str, sign);
                self.pos = self.pos + 1;
            }
            match self.read_digits(&mut number_str) {
                Ok(()) => {}
                Err(e) => {
                    return Err(e);
                }
            }
        }
        proof {
            assert(number_str@ =~= s.subrange(start, self.cursor()));
        }
        Ok(Some(Token::Number(number_str)))
    }

    /// Appends the digit run at the cursor to `number_str`; an empty run is
    /// an invalid-number error.
    #[verifier::loop_isolation(false)]
    fn read_digits(&mut self, number_str: &mut String) -> (r: Result<(), JsonError>)
        requires
            old(self).wf(),
        ensures
            final (self).wf(),
            final (self).chars() == old(self).chars(),
            ({
                let end = spec_scan_digits(old(self).chars(), old(self).cursor());
                match r {
                    Ok(()) => end > old(self).cursor() && final (self).cursor() == end && final (
                        number_str
                    )@ == old(number_str)@ + old(self).chars().subrange(old(self).cursor(), end),
                    Err(e) => e@ == ErrorModel::InvalidNumber("Expected at least one digit"@) && end
                        == old(self).cursor() && final (self).cursor() == old(self).cursor()
                        && final (number_str)@ == old(number_str)@,
                }
            }),
    {
        let ghost s = self.chars();
        let ghost i0 = self.cursor();
        let ghost acc0 = number_str@;
        let mut has_digit = false;
        while self.pos < self.input.len() && char_is_digit(self.input[self.pos])
            invariant
                self.wf(),
                self.chars() == s,
                i0 <= self.cursor(),
                has_digit <==> self.cursor() > i0,
                spec_scan_digits(s, i0) == spec_scan_digits(s, self.cursor()),
                number_str@ == acc0 + s.subrange(i0, self.cursor()),
            decreases self.chars().len() - self.cursor(),
        {
            let c = self.input[self.pos];
            has_digit = true;
            push_char(number_str, c);
            self.pos = self.pos + 1;
            proof {
                assert(s.subrange(i0, self.cursor()) =~= s.subrange(i0, self.cursor() - 1).push(
                    c,
                ));
                assert(number_str@ =~= acc0 + s.subrange(i0, self.cursor()));
            }
        }
        if !has_digit {
            return Err(JsonError::InvalidNumber(String::from_str("Expected at least one digit")));
        }
        Ok(())
    }
}

} // verus!
