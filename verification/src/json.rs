//! The JSON values of API responses.

use vstd::prelude::*;

use crate::text::same;

verus! {

/// A JSON value.
#[derive(Debug, PartialEq, Eq)]
pub enum Json {
    Null,
    Bool(bool),
    /// An integer that is not negative.
    Unsigned(u64),
    /// A negative integer.
    Negative(i64),
    /// Any other number.
    Fraction,
    Text(String),
    Array(Vec<Json>),
    /// Members in order, each key at most once.
    Object(Vec<(String, Json)>),
}

/// The value of the first member called `key`, or null.
pub open spec fn lookup(members: Seq<(String, Json)>, key: Seq<char>) -> Json
    decreases members.len(),
{
    if members.len() == 0 {
        Json::Null
    } else if members[0].0@ == key {
        members[0].1
    } else {
        lookup(members.skip(1), key)
    }
}

impl Json {
    /// The member called `key`, or null where there is none.
    pub open spec fn member(self, key: Seq<char>) -> Json {
        match self {
            Json::Object(members) => lookup(members@, key),
            _ => Json::Null,
        }
    }

    /// The element at `index`, or null where there is none.
    pub open spec fn element(self, index: int) -> Json {
        match self {
            Json::Array(items) => if 0 <= index < items@.len() {
                items@[index]
            } else {
                Json::Null
            },
            _ => Json::Null,
        }
    }

    /// The text of a string.
    pub open spec fn text(self) -> Option<Seq<char>> {
        match self {
            Json::Text(s) => Some(s@),
            _ => None,
        }
    }

    /// The elements of an array; none for any other value.
    pub open spec fn elements(self) -> Seq<Json> {
        match self {
            Json::Array(items) => items@,
            _ => seq![],
        }
    }

    /// The members of an object; none for any other value.
    pub open spec fn members(self) -> Seq<(String, Json)> {
        match self {
            Json::Object(members) => members@,
            _ => seq![],
        }
    }

    /// The value of an integer that is not negative.
    pub open spec fn unsigned(self) -> Option<u64> {
        match self {
            Json::Unsigned(n) => Some(n),
            _ => None,
        }
    }

    /// The value of an integer within the range of `i64`.
    pub open spec fn signed(self) -> Option<i64> {
        match self {
            Json::Unsigned(n) => if n <= i64::MAX {
                Some(n as i64)
            } else {
                None
            },
            Json::Negative(n) => Some(n),
            _ => None,
        }
    }

    /// The member called `key`, or null where there is none.
    pub fn get(&self, key: &str) -> (value: &Json)
        ensures
            *value == self.member(key@),
    {
        match self {
            Json::Object(members) => {
                let mut i: usize = 0;
                assert(members@.skip(0) =~= members@);
                while i < members.len()
                    invariant
                        i <= members@.len(),
                        *self == Json::Object(*members),
                        lookup(members@, key@) == lookup(members@.skip(i as int), key@),
                    decreases members@.len() - i,
                {
                    let entry = &members[i];
                    if same(entry.0.as_str(), key) {
                        return &entry.1;
                    }
                    assert(members@.skip(i as int).skip(1) =~= members@.skip(i + 1));
                    i += 1;
                }
                &Json::Null
            },
            _ => &Json::Null,
        }
    }

    /// The element at `index`, or null where there is none.
    pub fn at(&self, index: usize) -> (value: &Json)
        ensures
            *value == self.element(index as int),
    {
        match self {
            Json::Array(items) => if index < items.len() {
                &items[index]
            } else {
                &Json::Null
            },
            _ => &Json::Null,
        }
    }

    /// The text of a string.
    pub fn as_str(&self) -> (text: Option<&str>)
        ensures
            match text {
                Some(s) => self.text() == Some(s@),
                None => self.text() is None,
            },
    {
        match self {
            Json::Text(s) => Some(s.as_str()),
            _ => None,
        }
    }

    /// Whether the value is a string with this text.
    pub fn is_str(&self, expected: &str) -> (yes: bool)
        ensures
            yes == (self.text() == Some(expected@)),
    {
        match self {
            Json::Text(s) => same(s.as_str(), expected),
            _ => false,
        }
    }

    /// Whether the value is the boolean `true`.
    pub fn is_true(&self) -> (yes: bool)
        ensures
            yes == (*self == Json::Bool(true)),
    {
        match self {
            Json::Bool(b) => *b,
            _ => false,
        }
    }

    /// The value of an integer that is not negative.
    pub fn as_u64(&self) -> (n: Option<u64>)
        ensures
            n == self.unsigned(),
    {
        match self {
            Json::Unsigned(n) => Some(*n),
            _ => None,
        }
    }

    /// The value of an integer within the range of `i64`.
    pub fn as_i64(&self) -> (n: Option<i64>)
        ensures
            n == self.signed(),
    {
        match self {
            Json::Unsigned(n) => if *n <= i64::MAX as u64 {
                Some(*n as i64)
            } else {
                None
            },
            Json::Negative(n) => Some(*n),
            _ => None,
        }
    }

    /// The elements of an array.
    pub fn as_array(&self) -> (items: Option<&Vec<Json>>)
        ensures
            match items {
                Some(items) => *self == Json::Array(*items),
                None => self !is Array,
            },
    {
        match self {
            Json::Array(items) => Some(items),
            _ => None,
        }
    }

    /// The elements of an array; none for any other value.
    pub fn items(&self) -> (items: &[Json])
        ensures
            items@ == self.elements(),
    {
        match self {
            Json::Array(items) => items.as_slice(),
            _ => {
                let none: &[Json; 0] = &[];
                none
            },
        }
    }

    /// The members of an object; none for any other value.
    pub fn entries(&self) -> (members: &[(String, Json)])
        ensures
            members@ == self.members(),
    {
        match self {
            Json::Object(members) => members.as_slice(),
            _ => {
                let none: &[(String, Json); 0] = &[];
                none
            },
        }
    }
}

} // verus!
