//! Recursive-descent parsing of the token stream into a value tree.
use vstd::prelude::*;

use crate::error::{ErrorView, JsonError};
use crate::token::tokenizer::{lex, lemma_lex_advances, peek_is, skip_whitespace, Token, TokenView, Tokenizer};
use crate::types::{Num, Object};
use crate::{elements_view, lemma_array_view, lemma_object_view, members_view, JsonType, JsonValue};

verus! {

broadcast use vstd::std_specs::vec::group_vec_axioms;

/// The value that starts at the next token of `s` from `p`, with the position
/// after it.
pub open spec fn parse_value(s: Seq<char>, p: int) -> Result<(JsonValue, int), ErrorView>
    decreases s.len() - p, 0nat,
{
    match lex(s, p) {
        None => Err(ErrorView::UnexpectedEndOfJson),
        Some((Err(e), _)) => Err(e),
        Some((Ok(t), q)) => {
            proof {
                lemma_lex_advances(s, p);
            }
            match t {
                TokenView::Str(x) => Ok((JsonValue::Str(x), q)),
                TokenView::Int(n) => Ok((JsonValue::Int(n), q)),
                TokenView::Float(w, f) => Ok((JsonValue::Float(w, f), q)),
                TokenView::Bool(b) => Ok((JsonValue::Bool(b), q)),
                TokenView::OpenCurlybracket => parse_object(s, q),
                TokenView::OpenBracket => parse_array(s, q),
                _ => Err(ErrorView::ValueError(t)),
            }
        },
    }
}

/// An object whose `{` ends before `p`.
pub open spec fn parse_object(s: Seq<char>, p: int) -> Result<(JsonValue, int), ErrorView>
    decreases s.len() - p, 2nat,
{
    if peek_is(s, p, '}') {
        Ok((JsonValue::Object(seq![]), skip_whitespace(s, p) + 1))
    } else {
        parse_members(s, p, seq![])
    }
}

/// One member of an object: a string key, a colon and a value, from `p` on.
pub open spec fn parse_member(s: Seq<char>, p: int) -> Result<((Seq<char>, JsonValue), int), ErrorView>
    decreases s.len() - p, 0nat,
{
    match lex(s, p) {
        None => Err(ErrorView::UnexpectedEndOfJson),
        Some((Err(e), _)) => Err(e),
        Some((Ok(TokenView::Str(k)), q1)) => match lex(s, q1) {
            None => Err(ErrorView::UnexpectedEndOfJson),
            Some((Err(e), _)) => Err(e),
            Some((Ok(TokenView::Colon), q2)) => {
                proof {
                    lemma_lex_advances(s, p);
                    lemma_lex_advances(s, q1);
                }
                match parse_value(s, q2) {
                    Err(e) => Err(e),
                    Ok((v, q3)) => Ok(((k, v), q3)),
                }
            },
            Some((Ok(t), _)) => Err(ErrorView::CollonError(t)),
        },
        Some((Ok(t), _)) => Err(ErrorView::KeyError(t)),
    }
}

/// The members of an object from the key at `p` on, after the members `acc`.
pub open spec fn parse_members(s: Seq<char>, p: int, acc: Seq<(Seq<char>, JsonValue)>) -> Result<
    (JsonValue, int),
    ErrorView,
>
    decreases s.len() - p, 1nat,
{
    match parse_member(s, p) {
        Err(e) => Err(e),
        Ok((member, q)) => if q <= p {
            Err(ErrorView::UnexpectedEndOfJson)
        } else {
            match lex(s, q) {
                None => Err(ErrorView::UnexpectedEndOfJson),
                Some((Err(e), _)) => Err(e),
                Some((Ok(TokenView::Comma), q2)) => {
                    proof {
                        lemma_lex_advances(s, q);
                    }
                    if peek_is(s, q2, '}') {
                        Err(ErrorView::InvalidComaEndObjectError)
                    } else {
                        parse_members(s, q2, acc.push(member))
                    }
                },
                Some((Ok(TokenView::CloseCurlybracket), q2)) => Ok(
                    (JsonValue::Object(acc.push(member)), q2),
                ),
                Some((Ok(t), _)) => Err(ErrorView::EndObjectError(t)),
            }
        },
    }
}

/// An array whose `[` ends before `p`.
pub open spec fn parse_array(s: Seq<char>, p: int) -> Result<(JsonValue, int), ErrorView>
    decreases s.len() - p, 2nat,
{
    if peek_is(s, p, ']') {
        Ok((JsonValue::Array(seq![]), skip_whitespace(s, p) + 1))
    } else {
        parse_elements(s, p, seq![])
    }
}

/// The elements of an array from the value at `p` on, after the elements `acc`.
pub open spec fn parse_elements(s: Seq<char>, p: int, acc: Seq<JsonValue>) -> Result<
    (JsonValue, int),
    ErrorView,
>
    decreases s.len() - p, 1nat,
{
    match parse_value(s, p) {
        Err(e) => Err(e),
        Ok((v, q)) => if q <= p {
            Err(ErrorView::UnexpectedEndOfJson)
        } else {
            match lex(s, q) {
                None => Err(ErrorView::UnexpectedEndOfJson),
                Some((Err(e), _)) => Err(e),
                Some((Ok(TokenView::Comma), q2)) => {
                    proof {
                        lemma_lex_advances(s, q);
                    }
                    if peek_is(s, q2, ']') {
                        Err(ErrorView::InvalidComaEndObjectError)
                    } else {
                        parse_elements(s, q2, acc.push(v))
                    }
                },
                Some((Ok(TokenView::CloseBracket), q2)) => Ok((JsonValue::Array(acc.push(v)), q2)),
                Some((Ok(t), _)) => Err(ErrorView::ComaError(t)),
            }
        },
    }
}

/// The document that starts at `p`: an object or an array. What follows the
/// root value is not read.
pub open spec fn parse_document(s: Seq<char>, p: int) -> Result<JsonValue, ErrorView> {
    match lex(s, p) {
        None => Err(ErrorView::EmptyInput),
        Some((Err(e), _)) => Err(e),
        Some((Ok(TokenView::OpenCurlybracket), q)) => match parse_object(s, q) {
            Ok((v, _)) => Ok(v),
            Err(e) => Err(e),
        },
        Some((Ok(TokenView::OpenBracket), q)) => match parse_array(s, q) {
            Ok((v, _)) => Ok(v),
            Err(e) => Err(e),
        },
        Some((Ok(t), _)) => Err(ErrorView::UnexpectedToken(t)),
    }
}

pub open spec fn value_result(r: Result<JsonType, JsonError>, q: int) -> Result<
    (JsonValue, int),
    ErrorView,
> {
    match r {
        Ok(v) => Ok((v@, q)),
        Err(e) => Err(e@),
    }
}

/// Whether `r` is an error whose mathematical form is `e`.
pub open spec fn fails_with<T>(r: Result<T, JsonError>, e: ErrorView) -> bool {
    r matches Err(x) && x@ == e
}

pub open spec fn member_result(r: Result<(String, JsonType), JsonError>, q: int) -> Result<
    ((Seq<char>, JsonValue), int),
    ErrorView,
> {
    match r {
        Ok((k, v)) => Ok(((k@, v@), q)),
        Err(e) => Err(e@),
    }
}

pub open spec fn json_result_view(r: Result<JsonType, JsonError>) -> Result<JsonValue, ErrorView> {
    match r {
        Ok(v) => Ok(v@),
        Err(e) => Err(e@),
    }
}

/// A value always takes at least one character, and ends within the text.
pub proof fn lemma_value_progress(s: Seq<char>, p: int)
    ensures
        parse_value(s, p) matches Ok((_, q)) ==> p < q <= s.len(),
    decreases s.len() - p, 0nat,
{
    lemma_lex_advances(s, p);
    if let Some((Ok(t), q)) = lex(s, p) {
        match t {
            TokenView::OpenCurlybracket => lemma_object_progress(s, q),
            TokenView::OpenBracket => lemma_array_progress(s, q),
            _ => {},
        }
    }
}

pub proof fn lemma_object_progress(s: Seq<char>, p: int)
    requires
        0 <= p <= s.len(),
    ensures
        parse_object(s, p) matches Ok((_, q)) ==> p < q <= s.len(),
    decreases s.len() - p, 2nat,
{
    crate::token::tokenizer::lemma_run_end(s, p, crate::token::tokenizer::whitespace_char());
    if !peek_is(s, p, '}') {
        lemma_members_progress(s, p, seq![]);
    }
}

pub proof fn lemma_member_progress(s: Seq<char>, p: int)
    ensures
        parse_member(s, p) matches Ok((_, q)) ==> p < q <= s.len(),
    decreases s.len() - p, 0nat,
{
    lemma_lex_advances(s, p);
    if let Some((Ok(TokenView::Str(k)), q1)) = lex(s, p) {
        lemma_lex_advances(s, q1);
        if let Some((Ok(TokenView::Colon), q2)) = lex(s, q1) {
            lemma_value_progress(s, q2);
        }
    }
}

pub proof fn lemma_members_progress(s: Seq<char>, p: int, acc: Seq<(Seq<char>, JsonValue)>)
    requires
        0 <= p <= s.len(),
    ensures
        parse_members(s, p, acc) matches Ok((_, q)) ==> p < q <= s.len(),
    decreases s.len() - p, 1nat,
{
    lemma_member_progress(s, p);
    if let Ok((member, q)) = parse_member(s, p) {
        if q > p {
            lemma_lex_advances(s, q);
            if let Some((Ok(TokenView::Comma), q2)) = lex(s, q) {
                if !peek_is(s, q2, '}') {
                    lemma_members_progress(s, q2, acc.push(member));
                }
            }
        }
    }
}

pub proof fn lemma_array_progress(s: Seq<char>, p: int)
    requires
        0 <= p <= s.len(),
    ensures
        parse_array(s, p) matches Ok((_, q)) ==> p < q <= s.len(),
    decreases s.len() - p, 2nat,
{
    crate::token::tokenizer::lemma_run_end(s, p, crate::token::tokenizer::whitespace_char());
    if !peek_is(s, p, ']') {
        lemma_elements_progress(s, p, seq![]);
    }
}

pub proof fn lemma_elements_progress(s: Seq<char>, p: int, acc: Seq<JsonValue>)
    requires
        0 <= p <= s.len(),
    ensures
        parse_elements(s, p, acc) matches Ok((_, q)) ==> p < q <= s.len(),
    decreases s.len() - p, 1nat,
{
    lemma_value_progress(s, p);
    if let Ok((v, q)) = parse_value(s, p) {
        if q > p {
            lemma_lex_advances(s, q);
            if let Some((Ok(TokenView::Comma), q2)) = lex(s, q) {
                if !peek_is(s, q2, ']') {
                    lemma_elements_progress(s, q2, acc.push(v));
                }
            }
        }
    }
}

/// Builds a value tree from the tokens of a [`Tokenizer`].
pub struct Parser {
    tokenizer: Tokenizer,
}

impl Parser {
    /// The whole text being parsed.
    pub closed spec fn input(&self) -> Seq<char> {
        self.tokenizer.input()
    }

    /// The index of the next character to read.
    pub closed spec fn position(&self) -> int {
        self.tokenizer.position()
    }

    pub fn new(tokenizer: Tokenizer) -> (r: Parser)
        ensures
            r.input() == tokenizer.input(),
            r.position() == tokenizer.position(),
    {
        Self { tokenizer }
    }

    /// Parses the document that starts at the current position.
    pub fn parse_tokens(&mut self) -> (r: Result<JsonType, JsonError>)
        ensures
            final(self).input() == old(self).input(),
            json_result_view(r) == parse_document(old(self).input(), old(self).position()),
    {
        let ghost s = self.input();
        let ghost p = self.position();
        proof {
            lemma_lex_advances(s, p);
        }
        match self.tokenizer.next() {
            None => Err(JsonError::EmptyInput),
            Some(Err(e)) => Err(e),
            Some(Ok(Token::OpenCurlybracket)) => self.parse_object(),
            Some(Ok(Token::OpenBracket)) => self.parse_array(),
            Some(Ok(t)) => Err(JsonError::UnexpectedToken(t)),
        }
    }

    fn parse_value(&mut self) -> (r: Result<JsonType, JsonError>)
        ensures
            final(self).input() == old(self).input(),
            value_result(r, final(self).position()) == parse_value(
                old(self).input(),
                old(self).position(),
            ),
        decreases old(self).input().len() - old(self).position(), 0nat,
    {
        let ghost s = self.input();
        let ghost p = self.position();
        proof {
            lemma_lex_advances(s, p);
        }
        match self.tokenizer.next() {
            None => Err(JsonError::UnexpectedEndOfJson),
            Some(Err(e)) => Err(e),
            Some(Ok(t)) => match t {
                Token::Str(x) => Ok(JsonType::Str(x)),
                Token::Int(n) => Ok(JsonType::Num(Num::Integer(n))),
                Token::Float(d) => Ok(JsonType::Num(Num::Float(d))),
                Token::Bool(b) => Ok(JsonType::Bool(b)),
                Token::OpenCurlybracket => self.parse_object(),
                Token::OpenBracket => self.parse_array(),
                _ => Err(JsonError::ValueError(t)),
            },
        }
    }

    /// Parses an object whose `{` has been consumed.
    fn parse_object(&mut self) -> (r: Result<JsonType, JsonError>)
        requires
            0 <= old(self).position() <= old(self).input().len(),
        ensures
            final(self).input() == old(self).input(),
            value_result(r, final(self).position()) == parse_object(
                old(self).input(),
                old(self).position(),
            ),
        decreases old(self).input().len() - old(self).position(), 2nat,
    {
        let ghost s = self.input();
        let ghost start = self.position();
        if self.tokenizer.is_next_token_closing_curly_bracket() {
            let _ = self.tokenizer.next();
            let r = JsonType::Object(Box::new(Object { data: Vec::new() }));
            proof {
                lemma_object_view(r);
                assert(members_view(r->Object_0.data@) =~= seq![]);
            }
            return Ok(r);
        }
        let mut data: Vec<(String, JsonType)> = Vec::new();
        assert(members_view(data@) =~= seq![]);
        loop
            invariant
                self.input() == s,
                s == old(self).input(),
                start == old(self).position(),
                0 <= start <= self.position() <= s.len(),
                parse_members(s, self.position(), members_view(data@)) == parse_object(s, start),
            decreases s.len() - self.position(),
        {
            let ghost p = self.position();
            let ghost acc = members_view(data@);
            proof {
                lemma_member_progress(s, p);
            }
            let key_value = match self.get_key_value_pair() {
                Ok(kv) => kv,
                Err(e) => return Err(e),
            };
            let ghost member = (key_value.0@, key_value.1@);
            data.push(key_value);
            assert(members_view(data@) =~= acc.push(member));
            proof {
                lemma_lex_advances(s, self.position());
            }
            match self.expect_coma_or_end_object() {
                Ok(true) => {
                    let r = JsonType::Object(Box::new(Object { data }));
                    proof {
                        lemma_object_view(r);
                    }
                    return Ok(r);
                },
                Ok(false) => {},
                Err(e) => return Err(e),
            }
        }
    }

    /// Parses one member of an object: a key, a colon and a value.
    fn get_key_value_pair(&mut self) -> (r: Result<(String, JsonType), JsonError>)
        ensures
            final(self).input() == old(self).input(),
            member_result(r, final(self).position()) == parse_member(
                old(self).input(),
                old(self).position(),
            ),
        decreases old(self).input().len() - old(self).position(), 0nat,
    {
        let ghost s = self.input();
        let ghost p = self.position();
        proof {
            lemma_lex_advances(s, p);
        }
        let key = match self.tokenizer.next() {
            Some(Ok(token)) => match self.get_key(token) {
                Ok(key) => key,
                Err(e) => return Err(e),
            },
            Some(Err(e)) => return Err(e),
            None => return Err(JsonError::UnexpectedEndOfJson),
        };
        proof {
            lemma_lex_advances(s, self.position());
        }
        match self.expect_colon() {
            Ok(()) => {},
            Err(e) => return Err(e),
        }
        proof {
            lemma_lex_advances(s, self.position());
        }
        let value = match self.parse_value() {
            Ok(value) => value,
            Err(e) => return Err(e),
        };
        Ok((key, value))
    }

    /// The text of a key token; any other token is a `KeyError`.
    fn get_key(&self, token: Token) -> (r: Result<String, JsonError>)
        ensures
            match token@ {
                TokenView::Str(k) => r matches Ok(x) && x@ == k,
                _ => fails_with(r, ErrorView::KeyError(token@)),
            },
    {
        if let Token::Str(key) = token {
            return Ok(key);
        }
        Err(JsonError::KeyError(token))
    }

    /// Reads the `:` after a key.
    fn expect_colon(&mut self) -> (r: Result<(), JsonError>)
        ensures
            final(self).input() == old(self).input(),
            match lex(old(self).input(), old(self).position()) {
                None => fails_with(r, ErrorView::UnexpectedEndOfJson),
                Some((Err(e), _)) => fails_with(r, e),
                Some((Ok(TokenView::Colon), q)) => r is Ok && final(self).position() == q,
                Some((Ok(t), _)) => fails_with(r, ErrorView::CollonError(t)),
            },
    {
        let token = self.tokenizer.next();
        if let Some(token) = token {
            match token {
                Ok(Token::Colon) => return Ok(()),
                Ok(token) => return Err(JsonError::CollonError(token)),
                Err(e) => return Err(e),
            }
        }
        Err(JsonError::UnexpectedEndOfJson)
    }

    /// Reads what follows a member: `Ok(true)` for the `}` that ends the
    /// object, `Ok(false)` for a `,` that another member follows.
    fn expect_coma_or_end_object(&mut self) -> (r: Result<bool, JsonError>)
        ensures
            final(self).input() == old(self).input(),
            match lex(old(self).input(), old(self).position()) {
                None => fails_with(r, ErrorView::UnexpectedEndOfJson),
                Some((Err(e), _)) => fails_with(r, e),
                Some((Ok(TokenView::Comma), q)) => if peek_is(old(self).input(), q, '}') {
                    fails_with(r, ErrorView::InvalidComaEndObjectError)
                } else {
                    r == Ok::<bool, JsonError>(false) && final(self).position() == q
                },
                Some((Ok(TokenView::CloseCurlybracket), q)) => r == Ok::<bool, JsonError>(true)
                    && final(self).position() == q,
                Some((Ok(t), _)) => fails_with(r, ErrorView::EndObjectError(t)),
            },
    {
        if let Some(next_token) = self.tokenizer.next() {
            match next_token {
                Ok(Token::Comma) => {
                    if self.tokenizer.is_next_token_closing_curly_bracket() {
                        return Err(JsonError::InvalidComaEndObjectError);
                    }
                    return Ok(false);
                },
                Ok(Token::CloseCurlybracket) => return Ok(true),
                Ok(token) => return Err(JsonError::EndObjectError(token)),
                Err(e) => return Err(e),
            }
        }
        Err(JsonError::UnexpectedEndOfJson)
    }

    /// Reads what follows an element: `Ok(true)` for the `]` that ends the
    /// array, `Ok(false)` for a `,` that another element follows.
    fn expect_coma_or_end_array(&mut self) -> (r: Result<bool, JsonError>)
        ensures
            final(self).input() == old(self).input(),
            match lex(old(self).input(), old(self).position()) {
                None => fails_with(r, ErrorView::UnexpectedEndOfJson),
                Some((Err(e), _)) => fails_with(r, e),
                Some((Ok(TokenView::Comma), q)) => if peek_is(old(self).input(), q, ']') {
                    fails_with(r, ErrorView::InvalidComaEndObjectError)
                } else {
                    r == Ok::<bool, JsonError>(false) && final(self).position() == q
                },
                Some((Ok(TokenView::CloseBracket), q)) => r == Ok::<bool, JsonError>(true)
                    && final(self).position() == q,
                Some((Ok(t), _)) => fails_with(r, ErrorView::ComaError(t)),
            },
    {
        if let Some(next_token) = self.tokenizer.next() {
            match next_token {
                Ok(Token::Comma) => {
                    if self.tokenizer.is_next_token_closing_bracket() {
                        return Err(JsonError::InvalidComaEndObjectError);
                    }
                    return Ok(false);
                },
                Ok(Token::CloseBracket) => return Ok(true),
                Ok(token) => return Err(JsonError::ComaError(token)),
                Err(e) => return Err(e),
            }
        }
        Err(JsonError::UnexpectedEndOfJson)
    }

    /// Parses an array whose `[` has been consumed.
    fn parse_array(&mut self) -> (r: Result<JsonType, JsonError>)
        requires
            0 <= old(self).position() <= old(self).input().len(),
        ensures
            final(self).input() == old(self).input(),
            value_result(r, final(self).position()) == parse_array(
                old(self).input(),
                old(self).position(),
            ),
        decreases old(self).input().len() - old(self).position(), 2nat,
    {
        let ghost s = self.input();
        let ghost start = self.position();
        if self.tokenizer.is_next_token_closing_bracket() {
            let _ = self.tokenizer.next();
            let r = JsonType::Array(Vec::new());
            proof {
                lemma_array_view(r);
                assert(elements_view(r->Array_0@) =~= seq![]);
            }
            return Ok(r);
        }
        let mut data: Vec<JsonType> = Vec::new();
        assert(elements_view(data@) =~= seq![]);
        loop
            invariant
                self.input() == s,
                s == old(self).input(),
                start == old(self).position(),
                0 <= start <= self.position() <= s.len(),
                parse_elements(s, self.position(), elements_view(data@)) == parse_array(s, start),
            decreases s.len() - self.position(),
        {
            let ghost p = self.position();
            let ghost acc = elements_view(data@);
            proof {
                lemma_value_progress(s, p);
            }
            let value = match self.parse_value() {
                Ok(v) => v,
                Err(e) => return Err(e),
            };
            let ghost q = self.position();
            proof {
                lemma_lex_advances(s, q);
            }
            let ghost v = value@;
            data.push(value);
            assert(elements_view(data@) =~= acc.push(v));
            match self.expect_coma_or_end_array() {
                Ok(true) => {
                    let r = JsonType::Array(data);
                    proof {
                        lemma_array_view(r);
                    }
                    return Ok(r);
                },
                Ok(false) => {},
                Err(e) => return Err(e),
            }
        }
    }
}

} // verus!
