use vstd::prelude::*;

use crate::error::ErrorModel;
use crate::json::obj_insert;
use crate::json::obj_lookup;
use crate::json::ValueModel;
use crate::lexer::hex4_value;
use crate::lexer::hex_char_value;
use crate::lexer::is_digit_char;
use crate::lexer::is_ws_char;
use crate::lexer::lemma_next_token_bounds;
use crate::lexer::lemma_scan_digits_bounds;
use crate::lexer::lemma_skip_ws_bounds;
use crate::lexer::spec_next_token;
use crate::lexer::spec_read_boolean;
use crate::lexer::spec_read_null;
use crate::lexer::spec_read_number;
use crate::lexer::spec_read_string;
use crate::lexer::spec_scan_digits;
use crate::lexer::spec_skip_ws;
use crate::lexer::spec_token_desc;
use crate::lexer::TokenModel;
use crate::parser::spec_cur;
use crate::parser::spec_parse_elems;
use crate::parser::spec_parse_json;
use crate::parser::spec_parse_members;
use crate::parser::spec_parse_result;
use crate::parser::spec_parse_value;
use crate::parser::spec_tokenize;
use crate::parser::spec_tokens_from;
use crate::parser::TokensEnd;

verus! {

// ---------------------------------------------------------------------------
// Whitespace between tokens is insignificant.
// ---------------------------------------------------------------------------
/// Skipping whitespace from anywhere inside a whitespace run ends where
/// skipping from the run's end does.
proof fn lemma_skip_ws_join(s: Seq<char>, i: int, j: int)
    requires
        0 <= i <= j <= s.len(),
        forall|m: int| i <= m < j ==> is_ws_char(s[m]),
    ensures
        spec_skip_ws(s, i) == spec_skip_ws(s, j),
    decreases j - i,
{
    if i < j {
        lemma_skip_ws_join(s, i + 1, j);
    }
}

/// The token found from anywhere inside a whitespace run is the token found
/// behind the run: leading whitespace never changes what the lexer reads.
pub proof fn lemma_ws_before_token_skipped(s: Seq<char>, i: int, j: int)
    requires
        0 <= i <= j <= s.len(),
        forall|m: int| i <= m < j ==> is_ws_char(s[m]),
    ensures
        spec_next_token(s, i) == spec_next_token(s, j),
{
    lemma_skip_ws_join(s, i, j);
}

/// Parsing is a function of the token stream alone: two inputs that lex to
/// the same tokens, ending the same way, parse to the same result. Since
/// whitespace between tokens only moves token boundaries and never reaches
/// the token stream, parsing is invariant to its presence or absence.
pub proof fn lemma_parse_depends_only_on_tokens(s1: Seq<char>, s2: Seq<char>)
    requires
        spec_tokenize(s1) == spec_tokenize(s2),
    ensures
        spec_parse_json(s1) == spec_parse_json(s2),
{
}

/// Skipping whitespace commutes with dropping a fixed prefix.
proof fn lemma_skip_ws_shift(p: Seq<char>, s: Seq<char>, i: int)
    requires
        0 <= i <= s.len(),
    ensures
        spec_skip_ws(p + s, p.len() + i) == p.len() + spec_skip_ws(s, i),
    decreases s.len() - i,
{
    let t = p + s;
    if i < s.len() {
        assert(t[p.len() + i] == s[i]);
        if is_ws_char(s[i]) {
            lemma_skip_ws_shift(p, s, i + 1);
        }
    }
}

/// Scanning digits commutes with dropping a fixed prefix.
proof fn lemma_scan_digits_shift(p: Seq<char>, s: Seq<char>, i: int)
    requires
        0 <= i <= s.len(),
    ensures
        spec_scan_digits(p + s, p.len() + i) == p.len() + spec_scan_digits(s, i),
    decreases s.len() - i,
{
    let t = p + s;
    if i < s.len() {
        assert(t[p.len() + i] == s[i]);
        if is_digit_char(s[i]) {
            lemma_scan_digits_shift(p, s, i + 1);
        }
    }
}

/// Reading the `null` literal commutes with dropping a fixed prefix.
proof fn lemma_read_null_shift(p: Seq<char>, s: Seq<char>, i: int)
    requires
        0 <= i < s.len(),
    ensures
        spec_read_null(p + s, p.len() + i).0 == spec_read_null(s, i).0,
        spec_read_null(p + s, p.len() + i).1 == p.len() + spec_read_null(s, i).1,
{
    let t = p + s;
    if i + 1 < s.len() {
        assert(t[p.len() + i + 1] == s[i + 1]);
    }
    if i + 2 < s.len() {
        assert(t[p.len() + i + 2] == s[i + 2]);
    }
    if i + 3 < s.len() {
        assert(t[p.len() + i + 3] == s[i + 3]);
    }
}

/// Reading a boolean literal commutes with dropping a fixed prefix.
proof fn lemma_read_boolean_shift(p: Seq<char>, s: Seq<char>, i: int)
    requires
        0 <= i < s.len(),
    ensures
        spec_read_boolean(p + s, p.len() + i).0 == spec_read_boolean(s, i).0,
        spec_read_boolean(p + s, p.len() + i).1 == p.len() + spec_read_boolean(s, i).1,
{
    let t = p + s;
    assert(t[p.len() + i] == s[i]);
    if i + 1 < s.len() {
        assert(t[p.len() + i + 1] == s[i + 1]);
    }
    if i + 2 < s.len() {
        assert(t[p.len() + i + 2] == s[i + 2]);
    }
    if i + 3 < s.len() {
        assert(t[p.len() + i + 3] == s[i + 3]);
    }
    if i + 4 < s.len() {
        assert(t[p.len() + i + 4] == s[i + 4]);
    }
}

/// Reading a numeric literal commutes with dropping a fixed prefix.
proof fn lemma_read_number_shift(p: Seq<char>, s: Seq<char>, i: int)
    requires
        0 <= i < s.len(),
    ensures
        spec_read_number(p + s, p.len() + i).0 == spec_read_number(s, i).0,
        spec_read_number(p + s, p.len() + i).1 == p.len() + spec_read_number(s, i).1,
{
    let t = p + s;
    let pl = p.len() as int;
    assert(t[pl + i] == s[i]);
    let j1: int = if s[i] == '-' {
        i + 1
    } else {
        i
    };
    lemma_scan_digits_shift(p, s, j1);
    let j2 = spec_scan_digits(s, j1);
    lemma_scan_digits_bounds(s, j1);
    if j2 < s.len() {
        assert(t[pl + j2] == s[j2]);
    }
    if j2 < s.len() && s[j2] == '.' {
        lemma_scan_digits_shift(p, s, j2 + 1);
        lemma_scan_digits_bounds(s, j2 + 1);
    }
    let j3: int = if j2 < s.len() && s[j2] == '.' {
        spec_scan_digits(s, j2 + 1)
    } else {
        j2
    };
    if j3 < s.len() {
        assert(t[pl + j3] == s[j3]);
        if j3 + 1 < s.len() {
            assert(t[pl + j3 + 1] == s[j3 + 1]);
        }
        if s[j3] == 'e' || s[j3] == 'E' {
            let j5: int = if j3 + 1 < s.len() && (s[j3 + 1] == '+' || s[j3 + 1] == '-') {
                j3 + 2
            } else {
                j3 + 1
            };
            lemma_scan_digits_shift(p, s, j5);
            lemma_scan_digits_bounds(s, j5);
            let j6 = spec_scan_digits(s, j5);
            assert(t.subrange(pl + i, pl + j6) =~= s.subrange(i, j6));
        } else {
            assert(t.subrange(pl + i, pl + j3) =~= s.subrange(i, j3));
        }
    } else {
        assert(t.subrange(pl + i, pl + j3) =~= s.subrange(i, j3));
    }
}

/// Reading a string literal commutes with dropping a fixed prefix.
proof fn lemma_read_string_shift(p: Seq<char>, s: Seq<char>, i: int, acc: Seq<char>)
    requires
        0 <= i <= s.len(),
    ensures
        spec_read_string(p + s, p.len() + i, acc).0 == spec_read_string(s, i, acc).0,
        spec_read_string(p + s, p.len() + i, acc).1 == p.len() + spec_read_string(s, i, acc).1,
    decreases s.len() - i,
{
    let t = p + s;
    let pl = p.len() as int;
    if i < s.len() {
        assert(t[pl + i] == s[i]);
        if s[i] != '"' && s[i] == '\\' && i + 1 < s.len() {
            assert(t[pl + i + 1] == s[i + 1]);
            let e = s[i + 1];
            if e == '"' {
                lemma_read_string_shift(p, s, i + 2, acc.push('"'));
            } else if e == '\\' {
                lemma_read_string_shift(p, s, i + 2, acc.push('\\'));
            } else if e == '/' {
                lemma_read_string_shift(p, s, i + 2, acc.push('/'));
            } else if e == 'b' {
                lemma_read_string_shift(p, s, i + 2, acc.push('\u{0008}'));
            } else if e == 'f' {
                lemma_read_string_shift(p, s, i + 2, acc.push('\u{000C}'));
            } else if e == 'n' {
                lemma_read_string_shift(p, s, i + 2, acc.push('\n'));
            } else if e == 'r' {
                lemma_read_string_shift(p, s, i + 2, acc.push('\r'));
            } else if e == 't' {
                lemma_read_string_shift(p, s, i + 2, acc.push('\t'));
            } else if e == 'u' {
                if i + 6 > s.len() {
                    assert(t.subrange(pl + i + 2, t.len() as int) =~= s.subrange(
                        i + 2,
                        s.len() as int,
                    ));
                } else {
                    assert(t[pl + i + 2] == s[i + 2]);
                    assert(t[pl + i + 3] == s[i + 3]);
                    assert(t[pl + i + 4] == s[i + 4]);
                    assert(t[pl + i + 5] == s[i + 5]);
                    assert(t.subrange(pl + i + 2, pl + i + 6) =~= s.subrange(i + 2, i + 6));
                    let u = hex4_value(s[i + 2], s[i + 3], s[i + 4], s[i + 5]);
                    if hex_char_value(s[i + 2]) >= 0 && hex_char_value(s[i + 3]) >= 0
                        && hex_char_value(s[i + 4]) >= 0 && hex_char_value(s[i + 5]) >= 0 && !(
                    0xD800 <= u && u <= 0xDFFF) {
                        lemma_read_string_shift(p, s, i + 6, acc.push(u as char));
                    }
                }
            }
        } else if s[i] != '"' && s[i] != '\\' {
            lemma_read_string_shift(p, s, i + 1, acc.push(s[i]));
        }
    }
}

/// One lexer step commutes with dropping a fixed prefix: the same token or
/// error, at the shifted position.
proof fn lemma_next_token_shift(p: Seq<char>, s: Seq<char>, i: int)
    requires
        0 <= i <= s.len(),
    ensures
        spec_next_token(p + s, p.len() + i).0 == spec_next_token(s, i).0,
        spec_next_token(p + s, p.len() + i).1 == p.len() + spec_next_token(s, i).1,
{
    let t = p + s;
    lemma_skip_ws_shift(p, s, i);
    lemma_skip_ws_bounds(s, i);
    let j = spec_skip_ws(s, i);
    if j < s.len() {
        assert(t[p.len() + j] == s[j]);
        let c = s[j];
        if c == '"' {
            lemma_read_string_shift(p, s, j + 1, Seq::empty());
        } else if c == 'n' {
            lemma_read_null_shift(p, s, j);
        } else if c == 't' || c == 'f' {
            lemma_read_boolean_shift(p, s, j);
        } else if c == '-' || is_digit_char(c) {
            lemma_read_number_shift(p, s, j);
        }
    }
}

/// The token stream found behind a fixed prefix is the token stream of the
/// text without the prefix.
proof fn lemma_tokens_from_shift(p: Seq<char>, s: Seq<char>, i: int)
    requires
        0 <= i <= s.len(),
    ensures
        spec_tokens_from(p + s, p.len() + i) == spec_tokens_from(s, i),
    decreases s.len() - i,
{
    lemma_next_token_shift(p, s, i);
    lemma_next_token_bounds(s, i);
    let (r, j) = spec_next_token(s, i);
    match r {
        Ok(Some(_)) => {
            lemma_tokens_from_shift(p, s, j);
        }
        _ => {}
    }
}

/// Whitespace before the document is insignificant: any run of whitespace
/// characters in front of the input leaves the whole parse unchanged.
pub proof fn lemma_leading_ws_ignored(w: Seq<char>, s: Seq<char>)
    requires
        forall|m: int| 0 <= m < w.len() ==> is_ws_char(w[m]),
    ensures
        spec_parse_json(w + s) == spec_parse_json(s),
{
    let t = w + s;
    assert forall|m: int| 0 <= m < w.len() implies is_ws_char(t[m]) by {
        assert(t[m] == w[m]);
    }
    lemma_ws_before_token_skipped(t, 0, w.len() as int);
    lemma_next_token_shift(w, s, 0);
    lemma_next_token_bounds(s, 0);
    let (r, j) = spec_next_token(s, 0);
    assert(spec_next_token(t, 0).0 == r);
    assert(spec_next_token(t, 0).1 == w.len() + j);
    match r {
        Ok(Some(_)) => {
            lemma_tokens_from_shift(w, s, j);
            assert(spec_tokenize(t) == spec_tokenize(s));
        }
        _ => {
            assert(spec_tokenize(t) == spec_tokenize(s));
        }
    }
    lemma_parse_depends_only_on_tokens(t, s);
}

// ---------------------------------------------------------------------------
// Repeated object keys keep the value of the last occurrence.
// ---------------------------------------------------------------------------
/// Inserting a repeated key twice leaves only the later value: what the
/// object yields for that key after both inserts is the second value.
pub proof fn lemma_repeated_key_keeps_last(
    pairs: Seq<(Seq<char>, ValueModel)>,
    key: Seq<char>,
    first: ValueModel,
    second: ValueModel,
)
    ensures
        obj_lookup(obj_insert(obj_insert(pairs, key, first), key, second), key) == Some(second),
{
    crate::json::lemma_obj_insert_last_wins(obj_insert(pairs, key, first), key, second);
}

// ---------------------------------------------------------------------------
// The three JSON literals parse to exactly their value.
// ---------------------------------------------------------------------------
/// `null`, `true` and `false` parse to the corresponding leaf values.
pub proof fn lemma_literals_parse()
    ensures
        spec_parse_json("null"@) == Ok::<ValueModel, ErrorModel>(ValueModel::Null),
        spec_parse_json("true"@) == Ok::<ValueModel, ErrorModel>(ValueModel::Boolean(true)),
        spec_parse_json("false"@) == Ok::<ValueModel, ErrorModel>(ValueModel::Boolean(false)),
{
    reveal_strlit("null");
    reveal_strlit("true");
    reveal_strlit("false");
    let n = "null"@;
    assert(spec_next_token(n, 0) == (
        Ok::<Option<TokenModel>, ErrorModel>(Some(TokenModel::Null)),
        4int,
    ));
    assert(spec_next_token(n, 4).0 == Ok::<Option<TokenModel>, ErrorModel>(None));
    assert(spec_tokens_from(n, 4) == (Seq::<TokenModel>::empty(), TokensEnd::Done));
    assert(spec_tokenize(n).0 =~= seq![TokenModel::Null]);
    assert(spec_tokenize(n).1 == TokensEnd::Done);
    assert(spec_parse_json(n) == Ok::<ValueModel, ErrorModel>(ValueModel::Null));

    let t = "true"@;
    assert(spec_next_token(t, 0) == (
        Ok::<Option<TokenModel>, ErrorModel>(Some(TokenModel::Boolean(true))),
        4int,
    ));
    assert(spec_next_token(t, 4).0 == Ok::<Option<TokenModel>, ErrorModel>(None));
    assert(spec_tokens_from(t, 4) == (Seq::<TokenModel>::empty(), TokensEnd::Done));
    assert(spec_tokenize(t).0 =~= seq![TokenModel::Boolean(true)]);
    assert(spec_tokenize(t).1 == TokensEnd::Done);
    assert(spec_parse_json(t) == Ok::<ValueModel, ErrorModel>(ValueModel::Boolean(true)));

    let f = "false"@;
    assert(spec_next_token(f, 0) == (
        Ok::<Option<TokenModel>, ErrorModel>(Some(TokenModel::Boolean(false))),
        5int,
    ));
    assert(spec_next_token(f, 5).0 == Ok::<Option<TokenModel>, ErrorModel>(None));
    assert(spec_tokens_from(f, 5) == (Seq::<TokenModel>::empty(), TokensEnd::Done));
    assert(spec_tokenize(f).0 =~= seq![TokenModel::Boolean(false)]);
    assert(spec_tokenize(f).1 == TokensEnd::Done);
    assert(spec_parse_json(f) == Ok::<ValueModel, ErrorModel>(ValueModel::Boolean(false)));
}

// ---------------------------------------------------------------------------
// Empty containers.
// ---------------------------------------------------------------------------
/// `{` directly followed by `}` parses to an object with no members, and `[`
/// directly followed by `]` to an array with no elements — whatever
/// whitespace stood around the tokens.
pub proof fn lemma_empty_containers_parse()
    ensures
        spec_parse_result(seq![TokenModel::LeftBrace, TokenModel::RightBrace], TokensEnd::Done)
            == Ok::<ValueModel, ErrorModel>(ValueModel::Object(Seq::empty())),
        spec_parse_result(
            seq![TokenModel::LeftBracket, TokenModel::RightBracket],
            TokensEnd::Done,
        ) == Ok::<ValueModel, ErrorModel>(ValueModel::Array(Seq::empty())),
{
}

// ---------------------------------------------------------------------------
// Trailing commas are rejected.
// ---------------------------------------------------------------------------
/// A comma directly before the closing bracket fails, for any array element
/// and whatever the stream's ending.
pub proof fn lemma_array_trailing_comma_rejected(n: Seq<char>, end: TokensEnd)
    ensures
        spec_parse_result(
            seq![
                TokenModel::LeftBracket,
                TokenModel::Number(n),
                TokenModel::Comma,
                TokenModel::RightBracket,
            ],
            end,
        ) == Err::<ValueModel, ErrorModel>(
            ErrorModel::UnexpectedToken("Trailing comma in array"@),
        ),
{
    let ts = seq![
        TokenModel::LeftBracket,
        TokenModel::Number(n),
        TokenModel::Comma,
        TokenModel::RightBracket,
    ];
    assert(spec_parse_value(ts, end, 1) == (
        Ok::<ValueModel, ErrorModel>(ValueModel::Number(n)),
        2int,
    ));
    assert(spec_parse_value(ts, end, 0).0 == Err::<ValueModel, ErrorModel>(
        ErrorModel::UnexpectedToken("Trailing comma in array"@),
    ));
}

/// A comma directly before the closing brace fails, for any member and
/// whatever the stream's ending.
pub proof fn lemma_object_trailing_comma_rejected(
    key: Seq<char>,
    n: Seq<char>,
    end: TokensEnd,
)
    ensures
        spec_parse_result(
            seq![
                TokenModel::LeftBrace,
                TokenModel::String(key),
                TokenModel::Colon,
                TokenModel::Number(n),
                TokenModel::Comma,
                TokenModel::RightBrace,
            ],
            end,
        ) == Err::<ValueModel, ErrorModel>(
            ErrorModel::UnexpectedToken("Trailing comma in object"@),
        ),
{
    let ts = seq![
        TokenModel::LeftBrace,
        TokenModel::String(key),
        TokenModel::Colon,
        TokenModel::Number(n),
        TokenModel::Comma,
        TokenModel::RightBrace,
    ];
    assert(spec_parse_value(ts, end, 3) == (
        Ok::<ValueModel, ErrorModel>(ValueModel::Number(n)),
        4int,
    ));
    assert(spec_parse_value(ts, end, 0).0 == Err::<ValueModel, ErrorModel>(
        ErrorModel::UnexpectedToken("Trailing comma in object"@),
    ));
}

/// Anywhere inside an array — whatever elements came before — an element
/// followed by a comma that stands directly before the closing bracket
/// fails: JSON forbids trailing commas.
pub proof fn lemma_elems_trailing_comma_general(
    ts: Seq<TokenModel>,
    end: TokensEnd,
    k: int,
    acc: Seq<ValueModel>,
)
    requires
        ({
            let (vr, kv) = spec_parse_value(ts, end, k);
            &&& vr is Ok
            &&& k < kv <= ts.len()
            &&& spec_cur(ts, kv) == Some(TokenModel::Comma)
            &&& spec_cur(ts, kv + 1) == Some(TokenModel::RightBracket)
        }),
    ensures
        spec_parse_elems(ts, end, k, acc).0 == Err::<ValueModel, ErrorModel>(
            ErrorModel::UnexpectedToken("Trailing comma in array"@),
        ),
{
}

/// Anywhere inside an object — whatever members came before — a member
/// followed by a comma that stands directly before the closing brace fails:
/// JSON forbids trailing commas.
pub proof fn lemma_members_trailing_comma_general(
    ts: Seq<TokenModel>,
    end: TokensEnd,
    k: int,
    acc: Seq<(Seq<char>, ValueModel)>,
    key: Seq<char>,
)
    requires
        spec_cur(ts, k) == Some(TokenModel::String(key)),
        spec_cur(ts, k + 1) == Some(TokenModel::Colon),
        ({
            let (vr, kv) = spec_parse_value(ts, end, k + 2);
            &&& vr is Ok
            &&& k + 2 <= kv <= ts.len()
            &&& spec_cur(ts, kv) == Some(TokenModel::Comma)
            &&& spec_cur(ts, kv + 1) == Some(TokenModel::RightBrace)
        }),
    ensures
        spec_parse_members(ts, end, k, acc).0 == Err::<ValueModel, ErrorModel>(
            ErrorModel::UnexpectedToken("Trailing comma in object"@),
        ),
{
}

// ---------------------------------------------------------------------------
// Unterminated structures fail with an end-of-input error.
// ---------------------------------------------------------------------------
/// An opening brace with nothing behind it fails with the end-of-input
/// error.
pub proof fn lemma_lone_brace_rejected()
    ensures
        spec_parse_result(seq![TokenModel::LeftBrace], TokensEnd::Done) == Err::<
            ValueModel,
            ErrorModel,
        >(ErrorModel::UnexpectedEof),
{
}

/// A string missing its closing quote fails with an end-of-input error
/// (shown for remaining text free of quotes and backslashes).
pub proof fn lemma_unterminated_string_rejected(s: Seq<char>, i: int, acc: Seq<char>)
    requires
        0 <= i <= s.len(),
        forall|m: int| i <= m < s.len() ==> s[m] != '"' && s[m] != '\\',
    ensures
        spec_read_string(s, i, acc).0 == Err::<Option<TokenModel>, ErrorModel>(
            ErrorModel::UnexpectedEof,
        ),
    decreases s.len() - i,
{
    if i < s.len() {
        lemma_unterminated_string_rejected(s, i + 1, acc.push(s[i]));
    }
}

// ---------------------------------------------------------------------------
// A missing colon between key and value is rejected.
// ---------------------------------------------------------------------------
/// A key directly followed by another string (no colon between them) fails
/// with an unexpected-token error naming the expectation.
pub proof fn lemma_missing_colon_rejected(key: Seq<char>, val: Seq<char>, end: TokensEnd)
    ensures
        spec_parse_result(
            seq![
                TokenModel::LeftBrace,
                TokenModel::String(key),
                TokenModel::String(val),
                TokenModel::RightBrace,
            ],
            end,
        ) == Err::<ValueModel, ErrorModel>(
            ErrorModel::UnexpectedToken(
                "Expected ':', got "@ + spec_token_desc(TokenModel::String(val)),
            ),
        ),
{
}

/// Anywhere inside an object, a key whose next token is anything but a
/// colon fails with an unexpected-token error naming the expectation and
/// the token found.
pub proof fn lemma_missing_colon_general(
    ts: Seq<TokenModel>,
    end: TokensEnd,
    k: int,
    acc: Seq<(Seq<char>, ValueModel)>,
    key: Seq<char>,
    t: TokenModel,
)
    requires
        spec_cur(ts, k) == Some(TokenModel::String(key)),
        spec_cur(ts, k + 1) == Some(t),
        !(t matches TokenModel::Colon),
    ensures
        spec_parse_members(ts, end, k, acc).0 == Err::<ValueModel, ErrorModel>(
            ErrorModel::UnexpectedToken("Expected ':', got "@ + spec_token_desc(t)),
        ),
{
}

/// Where the token stream ends while a value, an object key, or the rest of
/// a member list was still expected, the parse fails with the end-of-input
/// error.
pub proof fn lemma_eof_mid_structure_rejected(
    ts: Seq<TokenModel>,
    end: TokensEnd,
    k: int,
    members: Seq<(Seq<char>, ValueModel)>,
    elems: Seq<ValueModel>,
)
    requires
        spec_cur(ts, k) is None,
    ensures
        spec_parse_value(ts, end, k).0 == Err::<ValueModel, ErrorModel>(ErrorModel::UnexpectedEof),
        spec_parse_members(ts, end, k, members).0 == Err::<ValueModel, ErrorModel>(
            ErrorModel::UnexpectedEof,
        ),
        spec_parse_elems(ts, end, k, elems).0 == Err::<ValueModel, ErrorModel>(
            ErrorModel::UnexpectedEof,
        ),
{
}

// ---------------------------------------------------------------------------
// Trailing content after a complete value is rejected.
// ---------------------------------------------------------------------------
/// Whenever one value parses and a token remains behind it, the whole parse
/// fails, expecting the end of the input.
pub proof fn lemma_trailing_content_rejected(ts: Seq<TokenModel>, end: TokensEnd)
    requires
        spec_parse_value(ts, end, 0).0 is Ok,
        spec_cur(ts, spec_parse_value(ts, end, 0).1) is Some,
    ensures
        spec_parse_result(ts, end) == Err::<ValueModel, ErrorModel>(
            ErrorModel::UnexpectedToken("Expected end of input"@),
        ),
{
    assert(ts.len() > 0);
}

// ---------------------------------------------------------------------------
// The escape sequences decode to their characters.
// ---------------------------------------------------------------------------
/// Each of the six simple escapes (and the two self-escapes) decodes to its
/// character: the string read continues with exactly that character
/// appended.
pub proof fn lemma_simple_escape_decodes(s: Seq<char>, i: int, acc: Seq<char>, e: char, d: char)
    requires
        0 <= i,
        i + 1 < s.len(),
        s[i] == '\\',
        s[i + 1] == e,
        (e == '"' && d == '"') || (e == '\\' && d == '\\') || (e == '/' && d == '/') || (e == 'b'
            && d == '\u{0008}') || (e == 'f' && d == '\u{000C}') || (e == 'n' && d == '\n') || (e
            == 'r' && d == '\r') || (e == 't' && d == '\t'),
    ensures
        spec_read_string(s, i, acc) == spec_read_string(s, i + 2, acc.push(d)),
{
}

/// A `\uXXXX` escape whose four hex digits name a Unicode scalar value
/// decodes to the character with that code point.
pub proof fn lemma_unicode_escape_decodes(s: Seq<char>, i: int, acc: Seq<char>)
    requires
        0 <= i,
        i + 6 <= s.len(),
        s[i] == '\\',
        s[i + 1] == 'u',
        hex_char_value(s[i + 2]) >= 0,
        hex_char_value(s[i + 3]) >= 0,
        hex_char_value(s[i + 4]) >= 0,
        hex_char_value(s[i + 5]) >= 0,
        !(0xD800 <= hex4_value(s[i + 2], s[i + 3], s[i + 4], s[i + 5]) <= 0xDFFF),
    ensures
        spec_read_string(s, i, acc) == spec_read_string(
            s,
            i + 6,
            acc.push(hex4_value(s[i + 2], s[i + 3], s[i + 4], s[i + 5]) as char),
        ),
{
}

// ---------------------------------------------------------------------------
// Numeric lexemes parse to a Number carrying exactly the source text.
// ---------------------------------------------------------------------------
/// A nonempty digit run from `i` to `j`.
pub open spec fn all_digits(s: Seq<char>, i: int, j: int) -> bool {
    i < j && forall|m: int| i <= m < j ==> is_digit_char(s[m])
}

/// `s` matches the decimal number grammar: an optional minus, an integer
/// digit run, an optional fraction, an optional exponent with an optional
/// sign — every digit run nonempty. `a` and `b` are the ends of the integer
/// and fraction parts.
pub open spec fn is_number_lexeme_at(s: Seq<char>, a: int, b: int) -> bool {
    let start: int = if s.len() > 0 && s[0] == '-' {
        1
    } else {
        0
    };
    &&& all_digits(s, start, a)
    &&& a <= b <= s.len()
    &&& (a == b || (b > a + 1 && s[a] == '.' && all_digits(s, a + 1, b)))
    &&& (b == s.len() || ((s[b] == 'e' || s[b] == 'E') && {
        let c: int = if b + 1 < s.len() && (s[b + 1] == '+' || s[b + 1] == '-') {
            b + 2
        } else {
            b + 1
        };
        all_digits(s, c, s.len() as int)
    }))
}

/// `s` matches the decimal number grammar.
pub open spec fn is_number_lexeme(s: Seq<char>) -> bool {
    exists|a: int, b: int| is_number_lexeme_at(s, a, b)
}

/// Scanning digits runs exactly to the end of a maximal digit run.
proof fn lemma_scan_digits_exact(s: Seq<char>, i: int, j: int)
    requires
        0 <= i <= j <= s.len(),
        forall|m: int| i <= m < j ==> is_digit_char(s[m]),
        j == s.len() || !is_digit_char(s[j]),
    ensures
        spec_scan_digits(s, i) == j,
    decreases j - i,
{
    if i < j {
        lemma_scan_digits_exact(s, i + 1, j);
    }
}

/// A whole input matching the number grammar parses to a Number whose lexeme
/// is the input, character for character. Reading that Number as a
/// double-precision float is then precisely the standard parse of the source
/// text.
#[verifier::rlimit(100)]
pub proof fn lemma_number_parses_to_its_lexeme(s: Seq<char>)
    requires
        is_number_lexeme(s),
    ensures
        spec_parse_json(s) == Ok::<ValueModel, ErrorModel>(ValueModel::Number(s)),
{
    let (a, b) = choose|a: int, b: int| is_number_lexeme_at(s, a, b);
    let start: int = if s.len() > 0 && s[0] == '-' {
        1
    } else {
        0
    };
    let len = s.len() as int;
    // The first character is a minus or a digit, and not whitespace.
    assert(start < a);
    assert(s[0] == '-' || is_digit_char(s[0]));
    assert(!is_ws_char(s[0]));
    assert(spec_skip_ws(s, 0) == 0);
    // The integer digit run ends exactly at `a`.
    if a == b {
        if b < len {
            assert(!is_digit_char(s[b]));
        }
    } else {
        assert(s[a] == '.');
        assert(!is_digit_char(s[a]));
    }
    lemma_scan_digits_exact(s, start, a);
    // The fraction's digit run, if any, ends exactly at `b`.
    if a != b {
        if b < len {
            assert(!is_digit_char(s[b]));
        }
        lemma_scan_digits_exact(s, a + 1, b);
    }
    // The exponent's digit run, if any, ends at the end of the input.
    if b < len {
        let c: int = if b + 1 < len && (s[b + 1] == '+' || s[b + 1] == '-') {
            b + 2
        } else {
            b + 1
        };
        lemma_scan_digits_exact(s, c, len);
    }
    assert(spec_read_number(s, 0) == (
        Ok::<Option<TokenModel>, ErrorModel>(Some(TokenModel::Number(s.subrange(0, len)))),
        len,
    ));
    assert(s.subrange(0, len) =~= s);
    assert(spec_next_token(s, 0) == (
        Ok::<Option<TokenModel>, ErrorModel>(Some(TokenModel::Number(s))),
        len,
    ));
    assert(spec_next_token(s, len).0 == Ok::<Option<TokenModel>, ErrorModel>(None));
    assert(spec_tokens_from(s, len) == (Seq::<TokenModel>::empty(), TokensEnd::Done));
    assert(spec_tokenize(s).0 =~= seq![TokenModel::Number(s)]);
    assert(spec_tokenize(s).1 == TokensEnd::Done);
}

} // verus!
