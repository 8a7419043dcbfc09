//! The lexical symbols of JSON text.
use vstd::prelude::*;

use crate::serializer::{int_text, push_integer};
use crate::types::Decimal;

pub mod tokenizer;

verus! {

/// A JSON token: a bracket, a separator or a scalar value.
#[derive(Debug, PartialEq)]
pub enum Token {
    OpenCurlybracket,
    CloseCurlybracket,
    OpenBracket,
    CloseBracket,
    Comma,
    Colon,
    Str(String),
    Int(i64),
    Float(Decimal),
    Bool(bool),
}

/// The mathematical form of a [`Token`]; a float is its digits before and
/// after the point.
pub enum TokenView {
    OpenCurlybracket,
    CloseCurlybracket,
    OpenBracket,
    CloseBracket,
    Comma,
    Colon,
    Str(Seq<char>),
    Int(int),
    Float(Seq<char>, Seq<char>),
    Bool(bool),
}

impl View for Token {
    type V = TokenView;

    open spec fn view(&self) -> TokenView {
        match self {
            Token::OpenCurlybracket => TokenView::OpenCurlybracket,
            Token::CloseCurlybracket => TokenView::CloseCurlybracket,
            Token::OpenBracket => TokenView::OpenBracket,
            Token::CloseBracket => TokenView::CloseBracket,
            Token::Comma => TokenView::Comma,
            Token::Colon => TokenView::Colon,
            Token::Str(s) => TokenView::Str(s@),
            Token::Int(n) => TokenView::Int(*n as int),
            Token::Float(d) => TokenView::Float(d.whole@, d.fraction@),
            Token::Bool(b) => TokenView::Bool(*b),
        }
    }
}

/// The text that names a token in error messages.
pub open spec fn token_text(t: TokenView) -> Seq<char> {
    match t {
        TokenView::OpenCurlybracket => "{"@,
        TokenView::CloseCurlybracket => "}"@,
        TokenView::OpenBracket => "["@,
        TokenView::CloseBracket => "]"@,
        TokenView::Comma => ","@,
        TokenView::Colon => ":"@,
        TokenView::Str(value) => "String: "@ + value,
        TokenView::Int(value) => "Num: "@ + int_text(value),
        TokenView::Float(w, f) => "Num: "@ + w + seq!['.'] + f,
        TokenView::Bool(value) => if value {
            "Bool true"@
        } else {
            "Bool false"@
        },
    }
}

impl Token {
    /// A short text that names the token, for error messages.
    pub fn describe(&self) -> (r: String)
        ensures
            r@ == token_text(self@),
    {
        match self {
            Token::OpenCurlybracket => "{".to_owned(),
            Token::CloseCurlybracket => "}".to_owned(),
            Token::OpenBracket => "[".to_owned(),
            Token::CloseBracket => "]".to_owned(),
            Token::Comma => ",".to_owned(),
            Token::Colon => ":".to_owned(),
            Token::Str(value) => {
                let mut r = "String: ".to_owned();
                r.append(value.as_str());
                r
            },
            Token::Int(value) => {
                let mut r = "Num: ".to_owned();
                push_integer(&mut r, *value);
                assert(r@ =~= token_text(self@));
                r
            },
            Token::Float(value) => {
                let mut r = "Num: ".to_owned();
                r.append(value.whole.as_str());
                r.push('.');
                r.append(value.fraction.as_str());
                assert(r@ =~= token_text(self@));
                r
            },
            Token::Bool(value) => {
                if *value {
                    "Bool true".to_owned()
                } else {
                    "Bool false".to_owned()
                }
            },
        }
    }
}

} // verus!
