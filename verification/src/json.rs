//! JSON values.
use crate::assoc::{lemma_position_is, lookup, position, with_member, without_member};
use crate::text::{opt_text, same_text};
use vstd::prelude::*;

verus! {

/// A JSON number: an integer, or the text of a number with a fraction or an exponent.
#[derive(Debug, PartialEq)]
pub enum Number {
    PosInt(u64),
    NegInt(i64),
    Float(String),
}

/// A JSON value. The members of an object stand in the order in which they were added.
#[derive(Debug, PartialEq)]
pub enum Value {
    Null,
    Bool(bool),
    Number(Number),
    String(String),
    Array(Vec<Value>),
    Object(Vec<(String, Value)>),
}

/// What a [`Number`] stands for.
pub enum NumberModel {
    PosInt(nat),
    NegInt(int),
    Float(Seq<char>),
}

/// What a [`Value`] stands for.
pub enum Json {
    Null,
    Bool(bool),
    Number(NumberModel),
    String(Seq<char>),
    Array(Seq<Json>),
    Object(Seq<(Seq<char>, Json)>),
}

impl View for Number {
    type V = NumberModel;

    open spec fn view(&self) -> NumberModel {
        match *self {
            Number::PosInt(n) => NumberModel::PosInt(n as nat),
            Number::NegInt(n) => NumberModel::NegInt(n as int),
            Number::Float(s) => NumberModel::Float(s@),
        }
    }
}

impl View for Value {
    type V = Json;

    open spec fn view(&self) -> Json
        decreases self,
    {
        match *self {
            Value::Null => Json::Null,
            Value::Bool(b) => Json::Bool(b),
            Value::Number(n) => Json::Number(n@),
            Value::String(s) => Json::String(s@),
            Value::Array(items) => Json::Array(
                Seq::new(
                    items@.len(),
                    |i: int|
                        if 0 <= i < items@.len() {
                            items@[i].view()
                        } else {
                            Json::Null
                        },
                ),
            ),
            Value::Object(members) => Json::Object(
                Seq::new(
                    members@.len(),
                    |i: int|
                        if 0 <= i < members@.len() {
                            (members@[i].0@, members@[i].1.view())
                        } else {
                            (Seq::empty(), Json::Null)
                        },
                ),
            ),
        }
    }
}

/// The members of an object as pairs of key and value.
pub open spec fn members_view(members: Seq<(String, Value)>) -> Seq<(Seq<char>, Json)> {
    Seq::new(members.len(), |i: int| (members[i].0@, members[i].1@))
}

/// The items of an array.
pub open spec fn items_view(items: Seq<Value>) -> Seq<Json> {
    Seq::new(items.len(), |i: int| items[i]@)
}

/// An array stands for its items, an object for its members.
pub proof fn lemma_view(value: Value)
    ensures
        value matches Value::Array(items) ==> value@ == Json::Array(items_view(items@)),
        value matches Value::Object(members) ==> value@ == Json::Object(members_view(members@)),
{
    reveal_with_fuel(<Value as View>::view, 2);
    match value {
        Value::Array(items) => {
            assert(value@->Array_0 =~= items_view(items@));
        },
        Value::Object(members) => {
            assert(value@->Object_0 =~= members_view(members@));
        },
        _ => {},
    }
}

/// The number `n`.
pub open spec fn integer(n: int) -> Json {
    if n >= 0 {
        Json::Number(NumberModel::PosInt(n as nat))
    } else {
        Json::Number(NumberModel::NegInt(n))
    }
}

impl Json {
    /// The whole number that a value is, if it fits into a signed 64 bit number.
    pub open spec fn as_i64(self) -> Option<int> {
        match self {
            Json::Number(NumberModel::PosInt(n)) => if n <= i64::MAX {
                Some(n as int)
            } else {
                None
            },
            Json::Number(NumberModel::NegInt(n)) => Some(n),
            _ => None,
        }
    }

    /// The member `key` of an object; nothing for any other value.
    pub open spec fn get(self, key: Seq<char>) -> Option<Json> {
        match self {
            Json::Object(members) => lookup(members, key),
            _ => None,
        }
    }

    /// The text of a string; nothing for any other value.
    pub open spec fn as_str(self) -> Option<Seq<char>> {
        match self {
            Json::String(s) => Some(s),
            _ => None,
        }
    }

    /// The text of the member `key`, where it is a string.
    pub open spec fn get_str(self, key: Seq<char>) -> Option<Seq<char>> {
        match self.get(key) {
            Some(member) => member.as_str(),
            None => None,
        }
    }
}

/// The view of an optional value.
pub open spec fn opt_view(value: Option<&Value>) -> Option<Json> {
    match value {
        Some(v) => Some(v@),
        None => None,
    }
}

/// The first position of `key` in `members`, or their number.
pub(crate) fn find_member(members: &Vec<(String, Value)>, key: &str) -> (i: usize)
    ensures
        i == position(members_view(members@), key@),
        i <= members@.len(),
{
    let mut i: usize = 0;
    while i < members.len() && !same_text(members[i].0.as_str(), key)
        invariant
            i <= members@.len(),
            forall|j: int| 0 <= j < i ==> members_view(members@)[j].0 != key@,
        decreases members@.len() - i,
    {
        i = i + 1;
    }
    proof {
        lemma_position_is(members_view(members@), key@, i as int);
    }
    i
}

/// The value of `key` among `members`.
pub fn get_member<'a>(members: &'a Vec<(String, Value)>, key: &str) -> (value: Option<&'a Value>)
    ensures
        opt_view(value) == lookup(members_view(members@), key@),
{
    let i = find_member(members, key);
    if i < members.len() {
        Some(&members[i].1)
    } else {
        None
    }
}

/// Lets `key` stand for `value`, in place of what it stood for.
pub fn insert_member(members: &mut Vec<(String, Value)>, key: &str, value: Value)
    ensures
        members_view(final(members)@) == with_member(members_view(old(members)@), key@, value@),
{
    let i = find_member(members, key);
    let member = (key.to_owned(), value);
    if i < members.len() {
        members.set(i, member);
    } else {
        members.push(member);
    }
    proof {
        assert(members_view(members@) =~= with_member(members_view(old(members)@), key@, value@));
    }
}

/// Takes the member of `key` out.
pub fn remove_member(members: &mut Vec<(String, Value)>, key: &str)
    ensures
        members_view(final(members)@) == without_member(members_view(old(members)@), key@),
{
    let i = find_member(members, key);
    if i < members.len() {
        let _ = members.remove(i);
    }
    proof {
        assert(members_view(members@) =~= without_member(members_view(old(members)@), key@));
    }
}

impl Value {
    /// The number `n`.
    pub fn integer(n: i64) -> (value: Value)
        ensures
            value@ == integer(n as int),
    {
        if n >= 0 {
            Value::Number(Number::PosInt(n as u64))
        } else {
            Value::Number(Number::NegInt(n))
        }
    }

    /// The whole number that a value is, if it fits into a signed 64 bit number.
    pub fn as_i64(&self) -> (n: Option<i64>)
        ensures
            match n {
                Some(i) => self@.as_i64() == Some(i as int),
                None => self@.as_i64() is None,
            },
    {
        match self {
            Value::Number(Number::PosInt(n)) => if *n <= i64::MAX as u64 {
                Some(*n as i64)
            } else {
                None
            },
            Value::Number(Number::NegInt(n)) => Some(*n),
            _ => None,
        }
    }

    /// The member `key` of an object.
    pub fn get(&self, key: &str) -> (value: Option<&Value>)
        ensures
            opt_view(value) == self@.get(key@),
    {
        proof {
            lemma_view(*self);
        }
        match self {
            Value::Object(members) => get_member(members, key),
            _ => None,
        }
    }

    /// The text of a string.
    pub fn as_str(&self) -> (text: Option<&str>)
        ensures
            opt_text(text) == self@.as_str(),
    {
        match self {
            Value::String(s) => Some(s.as_str()),
            _ => None,
        }
    }

    /// The text of the member `key`, where it is a string.
    pub fn get_str(&self, key: &str) -> (text: Option<&str>)
        ensures
            opt_text(text) == self@.get_str(key@),
    {
        match self.get(key) {
            Some(member) => member.as_str(),
            None => None,
        }
    }
}

} // verus!
