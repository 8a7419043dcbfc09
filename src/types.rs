//! Numbers and objects of the value tree.
use vstd::prelude::*;

use crate::serializer::{int_text, push_integer};
use crate::JsonType;

verus! {

/// A decimal literal, kept digit for digit as it was written: the digits before
/// the point and the digits after it.
#[derive(Debug, PartialEq, Clone)]
pub struct Decimal {
    pub whole: String,
    pub fraction: String,
}

impl Decimal {
    pub fn new(whole: &str, fraction: &str) -> (r: Decimal)
        ensures
            r.whole@ == whole@,
            r.fraction@ == fraction@,
    {
        Decimal { whole: whole.to_owned(), fraction: fraction.to_owned() }
    }
}

/// A JSON number: an integer literal, or one with a decimal point.
#[derive(Debug, PartialEq, Clone)]
pub enum Num {
    Integer(i64),
    Float(Decimal),
}

impl Num {
    /// The decimal text of the number; a float keeps its point.
    pub fn serialize(&self) -> (r: String)
        ensures
            match self {
                Num::Integer(n) => r@ == int_text(*n as int),
                Num::Float(d) => r@ == d.whole@ + seq!['.'] + d.fraction@,
            },
    {
        let mut r = String::new();
        match self {
            Num::Integer(n) => {
                push_integer(&mut r, *n);
                assert(r@ =~= int_text(*n as int));
            },
            Num::Float(d) => {
                r.append(d.whole.as_str());
                r.push('.');
                r.append(d.fraction.as_str());
                assert(r@ =~= d.whole@ + seq!['.'] + d.fraction@);
            },
        }
        r
    }
}

/// The members of a JSON object, in the order in which they were written.
#[derive(Debug, PartialEq, Clone)]
pub struct Object {
    pub data: Vec<(String, JsonType)>,
}

impl Object {
    pub fn new(data: Vec<(String, JsonType)>) -> (r: Self)
        ensures
            r.data == data,
    {
        Self { data }
    }
}

} // verus!
