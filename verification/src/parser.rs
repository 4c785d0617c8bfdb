use vstd::prelude::*;

use crate::error::ErrorModel;
use crate::error::JsonError;
use crate::json::array_model;
use crate::json::lemma_array_model_points;
use crate::json::obj_insert;
use crate::json::JsonObject;
use crate::json::JsonValue;
use crate::json::ValueModel;
use crate::json::value_model;
use crate::lexer::spec_next_token;
use crate::lexer::spec_token_desc;
use crate::lexer::lemma_next_token_bounds;
use crate::lexer::Lexer;
use crate::lexer::Token;
use crate::lexer::TokenModel;

verus! {

/// How the token stream of an input ends: cleanly at the end of the text, or
/// at the first lexical error.
pub enum TokensEnd {
    Done,
    Failed(ErrorModel),
}

/// The tokens found from position `i` on, up to the end of the input or up to
/// (not including) the first lexical error.
pub open spec fn spec_tokens_from(s: Seq<char>, i: int) -> (Seq<TokenModel>, TokensEnd)
    decreases s.len() - i,
    when 0 <= i <= s.len()
{
    let (r, j) = spec_next_token(s, i);
    match r {
        Err(e) => (Seq::empty(), TokensEnd::Failed(e)),
        Ok(None) => (Seq::empty(), TokensEnd::Done),
        Ok(Some(t)) => {
            proof {
                lemma_next_token_bounds(s, i);
            }
            let (rest, end) = spec_tokens_from(s, j);
            (seq![t] + rest, end)
        }
    }
}

/// The whole token stream of an input.
pub open spec fn spec_tokenize(s: Seq<char>) -> (Seq<TokenModel>, TokensEnd) {
    spec_tokens_from(s, 0)
}

/// The parser's lookahead after `k` tokens have been consumed: token `k`, or
/// nothing at the end of the stream.
pub open spec fn spec_cur(ts: Seq<TokenModel>, k: int) -> Option<TokenModel> {
    if 0 <= k < ts.len() {
        Some(ts[k])
    } else {
        None
    }
}

/// Advancing the lookahead from token `k` to token `k + 1`: fetching past the
/// end of the stream surfaces the lexical error the stream ended in, if any.
pub open spec fn spec_advance(ts: Seq<TokenModel>, end: TokensEnd, k: int) -> Result<
    int,
    ErrorModel,
> {
    if k + 1 < ts.len() {
        Ok(k + 1)
    } else {
        match end {
            TokensEnd::Done => Ok(k + 1),
            TokensEnd::Failed(e) => Err(e),
        }
    }
}

/// A leaf value: the current token becomes `v` and the lookahead advances.
pub open spec fn spec_leaf(
    v: ValueModel,
    ts: Seq<TokenModel>,
    end: TokensEnd,
    k: int,
) -> (Result<ValueModel, ErrorModel>, int) {
    match spec_advance(ts, end, k) {
        Err(e) => (Err(e), k),
        Ok(k2) => (Ok(v), k2),
    }
}

/// Parsing one value whose first token is the lookahead `k`. Yields the value
/// and the index of the new lookahead; the index is meaningful only on
/// success, an error aborts the whole parse.
pub open spec fn spec_parse_value(ts: Seq<TokenModel>, end: TokensEnd, k: int) -> (Result<
    ValueModel,
    ErrorModel,
>, int)
    decreases ts.len() - k, 2int,
{
    match spec_cur(ts, k) {
        None => (Err(ErrorModel::UnexpectedEof), k),
        Some(t) => match t {
            TokenModel::Null => spec_leaf(ValueModel::Null, ts, end, k),
            TokenModel::Boolean(b) => spec_leaf(ValueModel::Boolean(b), ts, end, k),
            TokenModel::Number(n) => spec_leaf(ValueModel::Number(n), ts, end, k),
            TokenModel::String(text) => spec_leaf(ValueModel::String(text), ts, end, k),
            TokenModel::LeftBrace => match spec_advance(ts, end, k) {
                Err(e) => (Err(e), k),
                Ok(k2) => spec_parse_object_from(ts, end, k2),
            },
            TokenModel::LeftBracket => match spec_advance(ts, end, k) {
                Err(e) => (Err(e), k),
                Ok(k2) => spec_parse_array_from(ts, end, k2),
            },
            _ => (Err(ErrorModel::UnexpectedToken(spec_token_desc(t))), k),
        },
    }
}

/// Parsing an object whose opening brace has just been consumed: either the
/// closing brace at once (an empty object), or its members.
pub open spec fn spec_parse_object_from(ts: Seq<TokenModel>, end: TokensEnd, k: int) -> (Result<
    ValueModel,
    ErrorModel,
>, int)
    decreases ts.len() - k, 4int,
{
    if spec_cur(ts, k) == Some(TokenModel::RightBrace) {
        spec_leaf(ValueModel::Object(Seq::empty()), ts, end, k)
    } else {
        spec_parse_members(ts, end, k, Seq::empty())
    }
}

/// Parsing the members of an object from its first key on: a string key, a
/// colon, a value, then a comma (not directly before the closing brace) or
/// the closing brace.
pub open spec fn spec_parse_members(
    ts: Seq<TokenModel>,
    end: TokensEnd,
    k: int,
    acc: Seq<(Seq<char>, ValueModel)>,
) -> (Result<ValueModel, ErrorModel>, int)
    decreases ts.len() - k, 3int,
{
    match spec_cur(ts, k) {
        None => (Err(ErrorModel::UnexpectedEof), k),
        Some(key_tok) => match key_tok {
            TokenModel::String(key) => match spec_advance(ts, end, k) {
                Err(e) => (Err(e), k),
                Ok(k2) => match spec_cur(ts, k2) {
                    None => (Err(ErrorModel::UnexpectedEof), k2),
                    Some(TokenModel::Colon) => match spec_advance(ts, end, k2) {
                        Err(e) => (Err(e), k2),
                        Ok(k3) => {
                            let (vr, kv) = spec_parse_value(ts, end, k3);
                            match vr {
                                Err(e) => (Err(e), kv),
                                Ok(v) => {
                                    let acc2 = obj_insert(acc, key, v);
                                    // Parsing a value always moves the lookahead
                                    // forward; this floor only lets the recursion's
                                    // decreases measure see that directly.
                                    let k4 = if k3 <= kv <= ts.len() {
                                        kv
                                    } else {
                                        k3
                                    };
                                    match spec_cur(ts, k4) {
                                        None => (Err(ErrorModel::UnexpectedEof), k4),
                                        Some(TokenModel::Comma) => match spec_advance(
                                            ts,
                                            end,
                                            k4,
                                        ) {
                                            Err(e) => (Err(e), k4),
                                            Ok(k5) => {
                                                if spec_cur(ts, k5) == Some(
                                                    TokenModel::RightBrace,
                                                ) {
                                                    (
                                                        Err(
                                                            ErrorModel::UnexpectedToken(
                                                                "Trailing comma in object"@,
                                                            ),
                                                        ),
                                                        k5,
                                                    )
                                                } else {
                                                    spec_parse_members(ts, end, k5, acc2)
                                                }
                                            }
                                        },
                                        Some(TokenModel::RightBrace) => match spec_advance(
                                            ts,
                                            end,
                                            k4,
                                        ) {
                                            Err(e) => (Err(e), k4),
                                            Ok(k5) => (Ok(ValueModel::Object(acc2)), k5),
                                        },
                                        Some(t) => (
                                            Err(
                                                ErrorModel::UnexpectedToken(
                                                    "Expected ',' or '}', got "@ + spec_token_desc(
                                                        t,
                                                    ),
                                                ),
                                            ),
                                            k4,
                                        ),
                                    }
                                }
                            }
                        }
                    },
                    Some(t) => (
                        Err(
                            ErrorModel::UnexpectedToken("Expected ':', got "@ + spec_token_desc(t)),
                        ),
                        k2,
                    ),
                },
            },
            _ => (
                Err(
                    ErrorModel::UnexpectedToken(
                        "Expected string key, got "@ + spec_token_desc(key_tok),
                    ),
                ),
                k,
            ),
        },
    }
}

/// Parsing an array whose opening bracket has just been consumed: either the
/// closing bracket at once (an empty array), or its elements.
pub open spec fn spec_parse_array_from(ts: Seq<TokenModel>, end: TokensEnd, k: int) -> (Result<
    ValueModel,
    ErrorModel,
>, int)
    decreases ts.len() - k, 4int,
{
    if spec_cur(ts, k) == Some(TokenModel::RightBracket) {
        spec_leaf(ValueModel::Array(Seq::empty()), ts, end, k)
    } else {
        spec_parse_elems(ts, end, k, Seq::empty())
    }
}

/// Parsing the elements of an array from its first element on: a value, then
/// a comma (not directly before the closing bracket) or the closing bracket.
pub open spec fn spec_parse_elems(
    ts: Seq<TokenModel>,
    end: TokensEnd,
    k: int,
    acc: Seq<ValueModel>,
) -> (Result<ValueModel, ErrorModel>, int)
    decreases ts.len() - k, 3int,
{
    let (vr, kv) = spec_parse_value(ts, end, k);
    match vr {
        Err(e) => (Err(e), kv),
        Ok(v) => {
            let acc2 = acc.push(v);
            // Parsing a value always moves the lookahead forward; this floor
            // only lets the recursion's decreases measure see that directly.
            let k2 = if k < kv <= ts.len() {
                kv
            } else {
                k + 1
            };
            match spec_cur(ts, k2) {
                None => (Err(ErrorModel::UnexpectedEof), k2),
                Some(TokenModel::Comma) => match spec_advance(ts, end, k2) {
                    Err(e) => (Err(e), k2),
                    Ok(k3) => {
                        if spec_cur(ts, k3) == Some(TokenModel::RightBracket) {
                            (Err(ErrorModel::UnexpectedToken("Trailing comma in array"@)), k3)
                        } else {
                            spec_parse_elems(ts, end, k3, acc2)
                        }
                    }
                },
                Some(TokenModel::RightBracket) => match spec_advance(ts, end, k2) {
                    Err(e) => (Err(e), k2),
                    Ok(k3) => (Ok(ValueModel::Array(acc2)), k3),
                },
                Some(t) => (
                    Err(
                        ErrorModel::UnexpectedToken(
                            "Expected ',' or ']', got "@ + spec_token_desc(t),
                        ),
                    ),
                    k2,
                ),
            }
        }
    }
}

/// Parsing a whole token stream: prime the lookahead, parse one value, and
/// demand that nothing follows it.
pub open spec fn spec_parse_result(ts: Seq<TokenModel>, end: TokensEnd) -> Result<
    ValueModel,
    ErrorModel,
> {
    match spec_advance(ts, end, -1) {
        Err(e) => Err(e),
        Ok(_) => {
            let (vr, k) = spec_parse_value(ts, end, 0);
            match vr {
                Err(e) => Err(e),
                Ok(v) => if spec_cur(ts, k) is Some {
                    Err(ErrorModel::UnexpectedToken("Expected end of input"@))
                } else {
                    Ok(v)
                },
            }
        }
    }
}

/// What parsing an input text yields: the model of the value tree that
/// [`parse_json`] returns, or the model of the error it returns. The result
/// is a function of the token stream alone.
pub open spec fn spec_parse_json(s: Seq<char>) -> Result<ValueModel, ErrorModel> {
    let (ts, end) = spec_tokenize(s);
    spec_parse_result(ts, end)
}

/// The model of a parse result: the value tree's model on success, the
/// error's model on failure.
pub open spec fn parse_result_model(r: Result<JsonValue, JsonError>) -> Result<
    ValueModel,
    ErrorModel,
> {
    match r {
        Ok(v) => Ok(value_model(v)),
        Err(e) => Err(e@),
    }
}

/// The token-level parser: owns the lexer and one token of lookahead.
pub struct Parser {
    lexer: Lexer,
    current_token: Option<Token>,
    consumed: Ghost<int>,
}

impl Parser {
    /// The input text.
    pub closed spec fn input(&self) -> Seq<char> {
        self.lexer.chars()
    }

    /// How many tokens have been consumed; the lookahead is token `k`.
    pub closed spec fn k(&self) -> int {
        self.consumed@
    }

    /// The lexer's cursor position in the input text.
    pub closed spec fn cursor(&self) -> int {
        self.lexer.cursor()
    }

    /// The model of the lookahead token.
    pub closed spec fn cur_model(&self) -> Option<TokenModel> {
        match self.current_token {
            Some(t) => Some(t@),
            None => None,
        }
    }

    /// The parser state is consistent with the token stream of its input:
    /// the lookahead is token `k`, and the lexer stands ready to produce the
    /// tokens after it.
    pub closed spec fn inv(&self) -> bool {
        let (ts, end) = spec_tokenize(self.input());
        &&& self.lexer.wf()
        &&& 0 <= self.k() <= ts.len()
        &&& self.cur_model() == spec_cur(ts, self.k())
        &&& (self.k() < ts.len() ==> spec_tokens_from(self.input(), self.cursor()) == (
            ts.skip(self.k() + 1),
            end,
        ))
        &&& (self.k() == ts.len() ==> end == TokensEnd::Done)
    }

    /// Primes the lookahead with the first token.
    fn new(input: &str) -> (r: Result<Parser, JsonError>)
        ensures
            ({
                let (ts, end) = spec_tokenize(input@);
                match r {
                    Ok(p) => p.inv() && p.input() == input@ && p.k() == 0 && spec_advance(
                        ts,
                        end,
                        -1,
                    ) == Ok::<int, ErrorModel>(0),
                    Err(e) => spec_advance(ts, end, -1) == Err::<int, ErrorModel>(e@),
                }
            }),
    {
        let mut lexer = Lexer::new(input);
        let ghost s = input@;
        let ghost ts = spec_tokenize(s).0;
        let ghost end = spec_tokenize(s).1;
        match lexer.next_token() {
            Ok(tok) => {
                let p = Parser { lexer, current_token: tok, consumed: Ghost(0) };
                proof {
                    match &p.current_token {
                        Some(t) => {
                            assert(ts == seq![t@] + spec_tokens_from(s, p.cursor()).0);
                            assert(ts[0] == t@);
                            assert(ts.skip(1) =~= spec_tokens_from(s, p.cursor()).0);
                        }
                        None => {
                            assert(ts.len() == 0);
                        }
                    }
                }
                Ok(p)
            }
            Err(e) => {
                proof {
                    assert(ts.len() == 0);
                }
                Err(e)
            }
        }
    }

    /// Replaces the lookahead with the next token from the lexer.
    fn advance_token(&mut self) -> (r: Result<(), JsonError>)
        requires
            old(self).inv(),
            old(self).k() < spec_tokenize(old(self).input()).0.len(),
        ensures
            ({
                let (ts, end) = spec_tokenize(old(self).input());
                match r {
                    Ok(_) => {
                        &&& final (self).inv()
                        &&& final (self).input() == old(self).input()
                        &&& final (self).k() == old(self).k() + 1
                        &&& spec_advance(ts, end, old(self).k()) == Ok::<int, ErrorModel>(
                            old(self).k() + 1,
                        )
                        &&& final (self).cursor() >= old(self).cursor()
                        &&& (final (self).cur_model() is Some ==> final (self).cursor() > old(
                            self,
                        ).cursor())
                    },
                    Err(e) => spec_advance(ts, end, old(self).k()) == Err::<int, ErrorModel>(e@),
                }
            }),
    {
        let ghost s = self.lexer.chars();
        let ghost k0 = self.consumed@;
        let ghost ts = spec_tokenize(s).0;
        let ghost end = spec_tokenize(s).1;
        let ghost c0 = self.lexer.cursor();
        proof {
            lemma_next_token_bounds(s, c0);
        }
        match self.lexer.next_token() {
            Ok(tok) => {
                self.current_token = tok;
                self.consumed = Ghost(k0 + 1);
                proof {
                    match &self.current_token {
                        Some(t) => {
                            assert(ts.skip(k0 + 1) == seq![t@] + spec_tokens_from(
                                s,
                                self.cursor(),
                            ).0);
                            assert(ts.skip(k0 + 1).len() >= 1);
                            assert(k0 + 1 < ts.len());
                            assert(ts[k0 + 1] == ts.skip(k0 + 1)[0]);
                            assert(ts.skip(k0 + 2) =~= ts.skip(k0 + 1).skip(1));
                            assert(ts.skip(k0 + 1).skip(1) =~= spec_tokens_from(
                                s,
                                self.cursor(),
                            ).0);
                        }
                        None => {
                            assert(ts.skip(k0 + 1).len() == 0);
                            assert(k0 + 1 == ts.len());
                        }
                    }
                }
                Ok(())
            }
            Err(e) => {
                proof {
                    assert(ts.skip(k0 + 1).len() == 0);
                    assert(k0 + 1 == ts.len());
                }
                Err(e)
            }
        }
    }

    /// Parses one value starting at the lookahead token.
    #[verifier::loop_isolation(false)]
    fn parse_value(&mut self) -> (r: Result<JsonValue, JsonError>)
        requires
            old(self).inv(),
        ensures
            ({
                let (ts, end) = spec_tokenize(old(self).input());
                let (vr, kv) = spec_parse_value(ts, end, old(self).k());
                match r {
                    Ok(v) => {
                        &&& vr == Ok::<ValueModel, ErrorModel>(value_model(v))
                        &&& final (self).inv()
                        &&& final (self).input() == old(self).input()
                        &&& final (self).k() == kv
                        &&& old(self).k() < kv
                        &&& final (self).cursor() >= old(self).cursor()
                    },
                    Err(e) => vr == Err::<ValueModel, ErrorModel>(e@),
                }
            }),
        decreases spec_tokenize(old(self).input()).0.len() - old(self).k(), 2int,
    {
        match &self.current_token {
            Some(Token::Null) => match self.advance_token() {
                Ok(_) => Ok(JsonValue::Null),
                Err(e) => Err(e),
            },
            Some(Token::Boolean(b)) => {
                let bv = *b;
                match self.advance_token() {
                    Ok(_) => Ok(JsonValue::Boolean(bv)),
                    Err(e) => Err(e),
                }
            }
            Some(Token::Number(n)) => {
                let nv = n.clone();
                match self.advance_token() {
                    Ok(_) => Ok(JsonValue::Number(nv)),
                    Err(e) => Err(e),
                }
            }
            Some(Token::String(text)) => {
                let tv = text.clone();
                match self.advance_token() {
                    Ok(_) => Ok(JsonValue::String(tv)),
                    Err(e) => Err(e),
                }
            }
            Some(Token::LeftBrace) => self.parse_object(),
            Some(Token::LeftBracket) => self.parse_array(),
            Some(token) => Err(JsonError::UnexpectedToken(token.describe())),
            None => Err(JsonError::UnexpectedEof),
        }
    }

    /// Parses an object; the lookahead is its opening brace.
    #[verifier::loop_isolation(false)]
    fn parse_object(&mut self) -> (r: Result<JsonValue, JsonError>)
        requires
            old(self).inv(),
            old(self).cur_model() == Some(TokenModel::LeftBrace),
        ensures
            ({
                let (ts, end) = spec_tokenize(old(self).input());
                let (vr, kv) = spec_parse_value(ts, end, old(self).k());
                match r {
                    Ok(v) => {
                        &&& vr == Ok::<ValueModel, ErrorModel>(value_model(v))
                        &&& final (self).inv()
                        &&& final (self).input() == old(self).input()
                        &&& final (self).k() == kv
                        &&& old(self).k() < kv
                        &&& final (self).cursor() >= old(self).cursor()
                    },
                    Err(e) => vr == Err::<ValueModel, ErrorModel>(e@),
                }
            }),
        decreases spec_tokenize(old(self).input()).0.len() - old(self).k(), 1int,
    {
        let ghost s = self.input();
        let ghost ts = spec_tokenize(s).0;
        let ghost end = spec_tokenize(s).1;
        let ghost k0 = self.k();
        let ghost c0 = self.cursor();

        // Consume the opening brace.
        match self.advance_token() {
            Ok(_) => {}
            Err(e) => {
                return Err(e);
            }
        }
        let mut object = JsonObject::new();

        // Handle the empty object.
        if matches!(&self.current_token, Some(Token::RightBrace)) {
            match self.advance_token() {
                Ok(_) => {}
                Err(e) => {
                    return Err(e);
                }
            }
            return Ok(JsonValue::Object(object));
        }
        proof {
            assert(spec_parse_value(ts, end, k0) == spec_parse_members(
                ts,
                end,
                k0 + 1,
                Seq::<(Seq<char>, ValueModel)>::empty(),
            ));
        }
        loop
            invariant
                self.inv(),
                self.input() == s,
                ts == spec_tokenize(s).0,
                end == spec_tokenize(s).1,
                k0 + 1 <= self.k() <= ts.len(),
                c0 <= self.cursor() <= s.len(),
                self.cur_model() is Some ==> self.cursor() > c0,
                spec_parse_members(ts, end, self.k(), object.pairs_model())
                    == spec_parse_value(ts, end, k0),
            decreases ts.len() - self.k(),
        {
            // Parse the key, which must be a string.
            let key = match &self.current_token {
                Some(Token::String(sk)) => sk.clone(),
                Some(token) => {
                    let mut m = String::from_str("Expected string key, got ");
                    let d = token.describe();
                    m.append(d.as_str());
                    return Err(JsonError::UnexpectedToken(m));
                }
                None => {
                    return Err(JsonError::UnexpectedEof);
                }
            };
            match self.advance_token() {
                Ok(_) => {}
                Err(e) => {
                    return Err(e);
                }
            }

            // Parse the colon.
            match &self.current_token {
                Some(Token::Colon) => match self.advance_token() {
                    Ok(_) => {}
                    Err(e) => {
                        return Err(e);
                    }
                },
                Some(token) => {
                    let mut m = String::from_str("Expected ':', got ");
                    let d = token.describe();
                    m.append(d.as_str());
                    return Err(JsonError::UnexpectedToken(m));
                }
                None => {
                    return Err(JsonError::UnexpectedEof);
                }
            }

            // Parse the value.
            let value = match self.parse_value() {
                Ok(v) => v,
                Err(e) => {
                    return Err(e);
                }
            };

            // Add the pair; a repeated key takes the new value.
            object.insert(key, value);

            // A comma continues the members, a closing brace ends them.
            match &self.current_token {
                Some(Token::Comma) => {
                    match self.advance_token() {
                        Ok(_) => {}
                        Err(e) => {
                            return Err(e);
                        }
                    }
                    // A closing brace directly after the comma: JSON forbids
                    // trailing commas.
                    if matches!(&self.current_token, Some(Token::RightBrace)) {
                        return Err(
                            JsonError::UnexpectedToken(
                                String::from_str("Trailing comma in object"),
                            ),
                        );
                    }
                }
                Some(Token::RightBrace) => {
                    match self.advance_token() {
                        Ok(_) => {}
                        Err(e) => {
                            return Err(e);
                        }
                    }
                    return Ok(JsonValue::Object(object));
                }
                Some(token) => {
                    let mut m = String::from_str("Expected ',' or '}', got ");
                    let d = token.describe();
                    m.append(d.as_str());
                    return Err(JsonError::UnexpectedToken(m));
                }
                None => {
                    return Err(JsonError::UnexpectedEof);
                }
            }
        }
    }

    /// Parses an array; the lookahead is its opening bracket.
    #[verifier::loop_isolation(false)]
    fn parse_array(&mut self) -> (r: Result<JsonValue, JsonError>)
        requires
            old(self).inv(),
            old(self).cur_model() == Some(TokenModel::LeftBracket),
        ensures
            ({
                let (ts, end) = spec_tokenize(old(self).input());
                let (vr, kv) = spec_parse_value(ts, end, old(self).k());
                match r {
                    Ok(v) => {
                        &&& vr == Ok::<ValueModel, ErrorModel>(value_model(v))
                        &&& final (self).inv()
                        &&& final (self).input() == old(self).input()
                        &&& final (self).k() == kv
                        &&& old(self).k() < kv
                        &&& final (self).cursor() >= old(self).cursor()
                    },
                    Err(e) => vr == Err::<ValueModel, ErrorModel>(e@),
                }
            }),
        decreases spec_tokenize(old(self).input()).0.len() - old(self).k(), 1int,
    {
        let ghost s = self.input();
        let ghost ts = spec_tokenize(s).0;
        let ghost end = spec_tokenize(s).1;
        let ghost k0 = self.k();
        let ghost c0 = self.cursor();

        // Consume the opening bracket.
        match self.advance_token() {
            Ok(_) => {}
            Err(e) => {
                return Err(e);
            }
        }
        let mut array: Vec<JsonValue> = Vec::new();

        // Handle the empty array.
        if matches!(&self.current_token, Some(Token::RightBracket)) {
            match self.advance_token() {
                Ok(_) => {}
                Err(e) => {
                    return Err(e);
                }
            }
            return Ok(JsonValue::Array(array));
        }
        proof {
            assert(spec_parse_value(ts, end, k0) == spec_parse_elems(
                ts,
                end,
                k0 + 1,
                Seq::<ValueModel>::empty(),
            ));
        }
        loop
            invariant
                self.inv(),
                self.input() == s,
                ts == spec_tokenize(s).0,
                end == spec_tokenize(s).1,
                k0 + 1 <= self.k() <= ts.len(),
                c0 <= self.cursor() <= s.len(),
                self.cur_model() is Some ==> self.cursor() > c0,
                spec_parse_elems(ts, end, self.k(), array_model(array@))
                    == spec_parse_value(ts, end, k0),
            decreases ts.len() - self.k(),
        {
            // Parse the element.
            let value = match self.parse_value() {
                Ok(v) => v,
                Err(e) => {
                    return Err(e);
                }
            };
            let ghost arr_before = array@;
            array.push(value);
            proof {
                lemma_array_model_points(arr_before);
                lemma_array_model_points(array@);
                assert(array_model(array@) =~= array_model(arr_before).push(
                    value_model(array@[arr_before.len() as int]),
                ));
            }

            // A comma continues the elements, a closing bracket ends them.
            match &self.current_token {
                Some(Token::Comma) => {
                    match self.advance_token() {
                        Ok(_) => {}
                        Err(e) => {
                            return Err(e);
                        }
                    }
                    // A closing bracket directly after the comma: JSON
                    // forbids trailing commas.
                    if matches!(&self.current_token, Some(Token::RightBracket)) {
                        return Err(
                            JsonError::UnexpectedToken(
                                String::from_str("Trailing comma in array"),
                            ),
                        );
                    }
                }
                Some(Token::RightBracket) => {
                    match self.advance_token() {
                        Ok(_) => {}
                        Err(e) => {
                            return Err(e);
                        }
                    }
                    return Ok(JsonValue::Array(array));
                }
                Some(token) => {
                    let mut m = String::from_str("Expected ',' or ']', got ");
                    let d = token.describe();
                    m.append(d.as_str());
                    return Err(JsonError::UnexpectedToken(m));
                }
                None => {
                    return Err(JsonError::UnexpectedEof);
                }
            }
        }
    }

    /// Parses the whole input: one value, with nothing but the end of the
    /// token stream behind it.
    fn parse(&mut self) -> (r: Result<JsonValue, JsonError>)
        requires
            old(self).inv(),
            old(self).k() == 0,
        ensures
            ({
                let (ts, end) = spec_tokenize(old(self).input());
                let (vr, kv) = spec_parse_value(ts, end, 0);
                match r {
                    Ok(v) => vr == Ok::<ValueModel, ErrorModel>(value_model(v)) && spec_cur(
                        ts,
                        kv,
                    ) is None,
                    Err(e) => match vr {
                        Ok(_) => spec_cur(ts, kv) is Some && e@ == ErrorModel::UnexpectedToken(
                            "Expected end of input"@,
                        ),
                        Err(e2) => e@ == e2,
                    },
                }
            }),
    {
        let value = match self.parse_value() {
            Ok(v) => v,
            Err(e) => {
                return Err(e);
            }
        };

        // Trailing content after the value is an error.
        if self.current_token.is_some() {
            return Err(JsonError::UnexpectedToken(String::from_str("Expected end of input")));
        }

        Ok(value)
    }
}

/// Parses a JSON text into a value tree, or reports the first error found.
/// The result is exactly [`spec_parse_json`] of the input.
pub fn parse_json(input: &str) -> (r: Result<JsonValue, JsonError>)
    ensures
        parse_result_model(r) == spec_parse_json(input@),
{
    match Parser::new(input) {
        Ok(mut parser) => parser.parse(),
        Err(e) => Err(e),
    }
}

} // verus!
