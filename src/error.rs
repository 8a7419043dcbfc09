//! The errors of the tokenizer, the parser and the conversions.
use vstd::prelude::*;

use crate::token::{token_text, Token, TokenView};

verus! {

/// Why a text could not be read, or a tree not converted.
#[derive(Debug, PartialEq)]
pub enum JsonError {
    /// The text holds no token at all.
    EmptyInput,
    /// The document starts with a token other than `{` or `[`.
    UnexpectedToken(Token),
    /// A member of an object starts with a token that is no string.
    KeyError(Token),
    /// A token stands where a value is expected but starts none.
    ValueError(Token),
    /// A key is followed by a token other than `:`.
    CollonError(Token),
    /// An array element is followed by a token other than `,` or `]`.
    ComaError(Token),
    /// An object member is followed by a token other than `,` or `}`.
    EndObjectError(Token),
    /// A `,` is followed by the bracket that closes its object or array.
    InvalidComaEndObjectError,
    /// The text ends inside an object or an array.
    UnexpectedEndOfJson,
    /// A user type rejected the shape of the tree.
    DeserializationError(String),
    /// A tree could not be written.
    SerializationError(String),
    /// A string literal has no closing `"`.
    UnterminatedStringError,
    /// A numeric literal holds more than one point, or its integer does not
    /// fit in an `i64`.
    NumberError(String),
    /// A character that starts no token.
    UnknownCharError(char),
}

/// The mathematical form of a [`JsonError`].
pub enum ErrorView {
    EmptyInput,
    UnexpectedToken(TokenView),
    KeyError(TokenView),
    ValueError(TokenView),
    CollonError(TokenView),
    ComaError(TokenView),
    EndObjectError(TokenView),
    InvalidComaEndObjectError,
    UnexpectedEndOfJson,
    DeserializationError(Seq<char>),
    SerializationError(Seq<char>),
    UnterminatedStringError,
    NumberError(Seq<char>),
    UnknownCharError(char),
}

impl View for JsonError {
    type V = ErrorView;

    open spec fn view(&self) -> ErrorView {
        match self {
            JsonError::EmptyInput => ErrorView::EmptyInput,
            JsonError::UnexpectedToken(t) => ErrorView::UnexpectedToken(t@),
            JsonError::KeyError(t) => ErrorView::KeyError(t@),
            JsonError::ValueError(t) => ErrorView::ValueError(t@),
            JsonError::CollonError(t) => ErrorView::CollonError(t@),
            JsonError::ComaError(t) => ErrorView::ComaError(t@),
            JsonError::EndObjectError(t) => ErrorView::EndObjectError(t@),
            JsonError::InvalidComaEndObjectError => ErrorView::InvalidComaEndObjectError,
            JsonError::UnexpectedEndOfJson => ErrorView::UnexpectedEndOfJson,
            JsonError::DeserializationError(m) => ErrorView::DeserializationError(m@),
            JsonError::SerializationError(m) => ErrorView::SerializationError(m@),
            JsonError::UnterminatedStringError => ErrorView::UnterminatedStringError,
            JsonError::NumberError(t) => ErrorView::NumberError(t@),
            JsonError::UnknownCharError(c) => ErrorView::UnknownCharError(*c),
        }
    }
}

/// The sentence that describes an error.
pub open spec fn error_text(e: ErrorView) -> Seq<char> {
    match e {
        ErrorView::DeserializationError(msg) => "Deserialization into struct error: "@ + msg,
        ErrorView::SerializationError(msg) => "Serialization error: "@ + msg,
        ErrorView::InvalidComaEndObjectError => "An object must not end with a coma."@,
        ErrorView::UnexpectedEndOfJson => "Unexpected end of json string."@,
        ErrorView::EmptyInput => "Empty input string"@,
        ErrorView::UnexpectedToken(t) => "Unexpected token, got: "@ + token_text(t),
        ErrorView::KeyError(t) => "Key error, got: "@ + token_text(t),
        ErrorView::ValueError(t) => "Value error, got: "@ + token_text(t),
        ErrorView::CollonError(t) => "Expected collon ':' but got: "@ + token_text(t),
        ErrorView::ComaError(t) => "Expected coma ',' but got: "@ + token_text(t),
        ErrorView::EndObjectError(t) => "Object does not end properly, got: "@ + token_text(t),
        ErrorView::UnterminatedStringError => "A string does not end with '\"'."@,
        ErrorView::NumberError(text) => "Not a number: "@ + text,
        ErrorView::UnknownCharError(c) => "Unknown character: "@.push(c),
    }
}

impl JsonError {
    /// A sentence that describes the error.
    pub fn message(&self) -> (r: String)
        ensures
            r@ == error_text(self@),
    {
        match self {
            JsonError::DeserializationError(msg) => {
                let mut r = "Deserialization into struct error: ".to_owned();
                r.append(msg.as_str());
                r
            },
            JsonError::SerializationError(msg) => {
                let mut r = "Serialization error: ".to_owned();
                r.append(msg.as_str());
                r
            },
            JsonError::InvalidComaEndObjectError => "An object must not end with a coma.".to_owned(),
            JsonError::UnexpectedEndOfJson => "Unexpected end of json string.".to_owned(),
            JsonError::EmptyInput => "Empty input string".to_owned(),
            JsonError::UnexpectedToken(got) => {
                let mut r = "Unexpected token, got: ".to_owned();
                r.append(got.describe().as_str());
                r
            },
            JsonError::KeyError(got) => {
                let mut r = "Key error, got: ".to_owned();
                r.append(got.describe().as_str());
                r
            },
            JsonError::ValueError(got) => {
                let mut r = "Value error, got: ".to_owned();
                r.append(got.describe().as_str());
                r
            },
            JsonError::CollonError(got) => {
                let mut r = "Expected collon ':' but got: ".to_owned();
                r.append(got.describe().as_str());
                r
            },
            JsonError::ComaError(got) => {
                let mut r = "Expected coma ',' but got: ".to_owned();
                r.append(got.describe().as_str());
                r
            },
            JsonError::EndObjectError(got) => {
                let mut r = "Object does not end properly, got: ".to_owned();
                r.append(got.describe().as_str());
                r
            },
            JsonError::UnterminatedStringError => "A string does not end with '\"'.".to_owned(),
            JsonError::NumberError(text) => {
                let mut r = "Not a number: ".to_owned();
                r.append(text.as_str());
                r
            },
            JsonError::UnknownCharError(c) => {
                let mut r = "Unknown character: ".to_owned();
                r.push(*c);
                r
            },
        }
    }
}

} // verus!
