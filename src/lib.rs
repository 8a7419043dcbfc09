//! A JSON library: text is scanned into tokens, parsed by recursive descent
//! into a value tree, and the tree is written back to compact JSON text. User
//! types plug into both directions through [`Deserialize`] and [`Serialize`].
//! The module `my_iterator` is a small iterator library of its own.
use vstd::prelude::*;

pub mod error;
pub mod my_iterator;
pub mod parser;
pub mod serializer;
pub mod theorems;
pub mod token;
pub mod types;

use crate::error::JsonError;
use crate::parser::{json_result_view, parse_document, Parser};
use crate::serializer::{render, serialize_json};
use crate::token::tokenizer::Tokenizer;
use crate::types::{Decimal, Num};

pub use types::Object;

verus! {

broadcast use vstd::std_specs::vec::group_vec_axioms;

/// Relies on String::push: the character is appended at the end.
pub assume_specification[ String::push ](string: &mut String, ch: char)
    ensures
        final(string)@ == old(string)@.push(ch),
;

/// The mathematical form of a JSON value. A float is the digits before and
/// after its point; an object is its members in order.
pub enum JsonValue {
    Str(Seq<char>),
    Int(int),
    Float(Seq<char>, Seq<char>),
    Bool(bool),
    Object(Seq<(Seq<char>, JsonValue)>),
    Array(Seq<JsonValue>),
}

/// A parsed JSON value.
#[derive(Debug, PartialEq)]
pub enum JsonType {
    Str(String),
    Num(Num),
    Bool(bool),
    Object(Box<Object>),
    Array(Vec<JsonType>),
}

impl View for JsonType {
    type V = JsonValue;

    open spec fn view(&self) -> JsonValue {
        self.value()
    }
}

impl JsonType {
    /// The mathematical form of the tree.
    pub open spec fn value(&self) -> JsonValue
        decreases self,
    {
        match self {
            JsonType::Str(s) => JsonValue::Str(s@),
            JsonType::Num(Num::Integer(n)) => JsonValue::Int(*n as int),
            JsonType::Num(Num::Float(d)) => JsonValue::Float(d.whole@, d.fraction@),
            JsonType::Bool(b) => JsonValue::Bool(*b),
            JsonType::Object(o) => {
                let d = o.data@;
                JsonValue::Object(
                    Seq::new(
                        d.len(),
                        |i: int|
                            if 0 <= i < d.len() {
                                (d[i].0@, d[i].1.value())
                            } else {
                                (Seq::empty(), JsonValue::Bool(false))
                            },
                    ),
                )
            },
            JsonType::Array(v) => JsonValue::Array(
                Seq::new(
                    v@.len(),
                    |i: int|
                        if 0 <= i < v@.len() {
                            v@[i].value()
                        } else {
                            JsonValue::Bool(false)
                        },
                ),
            ),
        }
    }
}

/// The mathematical form of a list of object members.
pub open spec fn members_view(d: Seq<(String, JsonType)>) -> Seq<(Seq<char>, JsonValue)> {
    Seq::new(d.len(), |i: int| (d[i].0@, d[i].1@))
}

/// The mathematical form of a list of array elements.
pub open spec fn elements_view(d: Seq<JsonType>) -> Seq<JsonValue> {
    Seq::new(d.len(), |i: int| d[i]@)
}

pub proof fn lemma_object_view(j: JsonType)
    requires
        j is Object,
    ensures
        j@ == JsonValue::Object(members_view(j->Object_0.data@)),
{
    let m = j@->Object_0;
    let d = j->Object_0.data@;
    assert(m.len() == d.len());
    assert forall|i: int| 0 <= i < m.len() implies m[i] == members_view(d)[i] by {}
    assert(m =~= members_view(d));
}

pub proof fn lemma_array_view(j: JsonType)
    requires
        j is Array,
    ensures
        j@ == JsonValue::Array(elements_view(j->Array_0@)),
{
    let a = j@->Array_0;
    let v = j->Array_0;
    assert forall|i: int| 0 <= i < a.len() implies a[i] == elements_view(v@)[i] by {}
    assert(a =~= elements_view(v@));
}

/// Whether `k` is the key of some member of `m`.
pub open spec fn has_key(m: Seq<(Seq<char>, JsonValue)>, k: Seq<char>) -> bool {
    exists|i: int| 0 <= i < m.len() && #[trigger] m[i].0 == k
}

/// Whether `i` is the first member of `m` with the key `k`.
pub open spec fn is_first_key(m: Seq<(Seq<char>, JsonValue)>, k: Seq<char>, i: int) -> bool {
    &&& 0 <= i < m.len()
    &&& m[i].0 == k
    &&& forall|j: int| 0 <= j < i ==> #[trigger] m[j].0 != k
}

impl Object {
    /// The value of the first member whose key is `key`.
    pub fn key(&self, key: &str) -> (r: &JsonType)
        requires
            has_key(members_view(self.data@), key@),
        ensures
            exists|i: int| is_first_key(members_view(self.data@), key@, i) && r@ == members_view(self.data@)[i].1,
    {
        let k = key.to_owned();
        let mut i: usize = 0;
        while i < self.data.len()
            invariant
                i <= self.data@.len(),
                k@ == key@,
                has_key(members_view(self.data@), key@),
                forall|j: int| 0 <= j < i ==> #[trigger] members_view(self.data@)[j].0 != key@,
            decreases self.data@.len() - i,
        {
            if self.data[i].0 == k {
                assert(is_first_key(members_view(self.data@), key@, i as int));
                return &self.data[i].1;
            }
            i = i + 1;
        }
        proof {
            let m = members_view(self.data@);
            let w = choose|w: int| 0 <= w < m.len() && #[trigger] m[w].0 == key@;
            assert(m[w].0 != key@);
        }
        &self.data[0].1
    }
}

impl JsonType {
    /// The value of the first member whose key is `key`, in an object that has one.
    pub fn key(&self, key: &str) -> (r: &JsonType)
        requires
            self@ matches JsonValue::Object(m) && has_key(m, key@),
        ensures
            self@ matches JsonValue::Object(m) && exists|i: int| is_first_key(m, key@, i) && r@ == m[i].1,
    {
        match self {
            JsonType::Object(o) => {
                proof {
                    lemma_object_view(*self);
                }
                o.key(key)
            },
            _ => {
                proof {
                    assert(false);
                }
                self
            },
        }
    }

    /// The element at `index` of an array that is long enough.
    pub fn item(&self, index: usize) -> (r: &JsonType)
        requires
            self@ matches JsonValue::Array(a) && index < a.len(),
        ensures
            self@ matches JsonValue::Array(a) && r@ == a[index as int],
    {
        match self {
            JsonType::Array(v) => {
                proof {
                    lemma_array_view(*self);
                }
                &v[index]
            },
            _ => {
                proof {
                    assert(false);
                }
                self
            },
        }
    }

    /// A copy of the whole tree.
    fn duplicate(&self) -> (r: JsonType)
        ensures
            r@ == self@,
        decreases self,
    {
        match self {
            JsonType::Str(s) => JsonType::Str(s.clone()),
            JsonType::Num(Num::Integer(n)) => JsonType::Num(Num::Integer(*n)),
            JsonType::Num(Num::Float(d)) => JsonType::Num(
                Num::Float(Decimal { whole: d.whole.clone(), fraction: d.fraction.clone() }),
            ),
            JsonType::Bool(b) => JsonType::Bool(*b),
            JsonType::Object(o) => {
                let mut data: Vec<(String, JsonType)> = Vec::new();
                let mut i: usize = 0;
                while i < o.data.len()
                    invariant
                        i <= o.data@.len(),
                        data@.len() == i,
                        forall|j: int| 0 <= j < i ==> #[trigger] members_view(data@)[j] == members_view(o.data@)[j],
                        forall|j: int| 0 <= j < o.data@.len() ==> decreases_to!(self => o.data@[j].1),
                    decreases o.data@.len() - i,
                {
                    let key = o.data[i].0.clone();
                    let value = o.data[i].1.duplicate();
                    let ghost before = data@;
                    data.push((key, value));
                    assert(data@ == before.push((key, value)));
                    assert forall|j: int| 0 <= j < i + 1 implies #[trigger] members_view(data@)[j]
                        == members_view(o.data@)[j] by {
                        if j < i {
                            assert(members_view(before)[j] == members_view(o.data@)[j]);
                        }
                    }
                    i = i + 1;
                }
                let r = JsonType::Object(Box::new(Object { data }));
                proof {
                    lemma_object_view(r);
                    lemma_object_view(*self);
                    assert(members_view(r->Object_0.data@) =~= members_view(o.data@));
                }
                r
            },
            JsonType::Array(v) => {
                let mut data: Vec<JsonType> = Vec::new();
                let mut i: usize = 0;
                while i < v.len()
                    invariant
                        i <= v@.len(),
                        data@.len() == i,
                        forall|j: int| 0 <= j < i ==> #[trigger] elements_view(data@)[j] == elements_view(v@)[j],
                        forall|j: int| 0 <= j < v@.len() ==> decreases_to!(self => v@[j]),
                    decreases v@.len() - i,
                {
                    let value = v[i].duplicate();
                    let ghost before = data@;
                    data.push(value);
                    assert(data@ == before.push(value));
                    assert forall|j: int| 0 <= j < i + 1 implies #[trigger] elements_view(data@)[j]
                        == elements_view(v@)[j] by {
                        if j < i {
                            assert(elements_view(before)[j] == elements_view(v@)[j]);
                        }
                    }
                    i = i + 1;
                }
                let r = JsonType::Array(data);
                proof {
                    lemma_array_view(r);
                    lemma_array_view(*self);
                    assert(elements_view(r->Array_0@) =~= elements_view(v@));
                }
                r
            },
        }
    }
}

impl Clone for JsonType {
    fn clone(&self) -> (r: JsonType)
        ensures
            r@ == self@,
    {
        self.duplicate()
    }
}

/// A type that can be built from a value tree.
pub trait Deserialize: Sized {
    fn deserialize(json: JsonType) -> Result<Self, JsonError>;
}

/// A type that can be turned into a value tree.
pub trait Serialize {
    fn serialize(&self) -> JsonType;
}

impl Deserialize for JsonType {
    fn deserialize(json: JsonType) -> (r: Result<JsonType, JsonError>)
        ensures
            r == Ok::<JsonType, JsonError>(json),
    {
        Ok(json)
    }
}

impl Serialize for JsonType {
    fn serialize(&self) -> (r: JsonType)
        ensures
            r@ == self@,
    {
        self.clone()
    }
}

/// Parses JSON text into a value tree.
pub fn parse(json_string: &str) -> (r: Result<JsonType, JsonError>)
    ensures
        json_result_view(r) == parse_document(json_string@, 0),
{
    let tokenizer = Tokenizer::new(json_string);
    let mut parser = Parser::new(tokenizer);
    parser.parse_tokens()
}

/// Parses JSON text and builds a `T` from the tree; a text that does not
/// parse gives the parser's error, one that does gives what `T::deserialize`
/// makes of its tree.
pub fn from_string<T: Deserialize>(json_string: &str) -> (r: Result<T, JsonError>)
    ensures
        parse_document(json_string@, 0) matches Err(e) ==> r matches Err(x) && x@ == e,
        parse_document(json_string@, 0) matches Ok(v) ==> exists|d: JsonType|
            d@ == v && call_ensures(T::deserialize, (d,), r),
{
    let data = match parse(json_string) {
        Ok(data) => data,
        Err(e) => return Err(e),
    };
    T::deserialize(data)
}

/// The compact JSON text of the tree that `T::serialize` makes of `input`.
pub fn to_string<T: Serialize>(input: T) -> (r: Result<String, JsonError>)
    ensures
        r matches Ok(s) && exists|j: JsonType|
            call_ensures(T::serialize, (&input,), j) && s@ == render(j@),
{
    let json_data = input.serialize();
    serialize_json(&json_data)
}

} // verus!
