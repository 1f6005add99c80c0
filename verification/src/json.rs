//! JSON values as the library reads them.

use crate::text::same_text;
use vstd::prelude::*;

verus! {

/// A JSON value. The members of an object stand in the order in which
/// they are walked.
#[derive(Debug, PartialEq, Eq)]
pub enum Json {
    Null,
    Bool(bool),
    /// A number, as JSON writes it.
    Number(String),
    Text(String),
    Array(Vec<Json>),
    Object(Vec<(String, Json)>),
}

/// The value of the first of `members` that has the key `key`.
pub open spec fn find_member(members: Seq<(String, Json)>, key: Seq<char>) -> Option<Json>
    decreases members.len(),
{
    if members.len() == 0 {
        None
    } else if members[0].0@ == key {
        Some(members[0].1)
    } else {
        find_member(members.drop_first(), key)
    }
}

/// The first of two values that is there.
pub open spec fn first_of(a: Option<Json>, b: Option<Json>) -> Option<Json> {
    if a is Some {
        a
    } else {
        b
    }
}

impl Json {
    /// The member `key` of an object; `None` for every other value.
    pub open spec fn member(self, key: Seq<char>) -> Option<Json> {
        match self {
            Json::Object(members) => find_member(members@, key),
            _ => None,
        }
    }

    /// What the reference token `0` leads to: the first item of an array,
    /// or the member `0` of an object.
    pub open spec fn first(self) -> Option<Json> {
        match self {
            Json::Object(members) => find_member(members@, "0"@),
            Json::Array(items) => if items@.len() > 0 {
                Some(items@[0])
            } else {
                None
            },
            _ => None,
        }
    }

    /// The characters of a text; `None` for every other value.
    pub open spec fn text(self) -> Option<Seq<char>> {
        match self {
            Json::Text(text) => Some(text@),
            _ => None,
        }
    }

    /// The items of an array; `None` for every other value.
    pub open spec fn items(self) -> Option<Seq<Json>> {
        match self {
            Json::Array(items) => Some(items@),
            _ => None,
        }
    }

    /// The member `key` of an object.
    pub fn get<'a>(&'a self, key: &str) -> (found: Option<&'a Json>)
        ensures
            match found {
                Some(value) => self.member(key@) == Some(*value),
                None => self.member(key@) is None,
            },
    {
        match self {
            Json::Object(members) => {
                let mut i: usize = 0;
                proof {
                    assert(members@.skip(0) =~= members@);
                }
                while i < members.len()
                    invariant
                        i <= members@.len(),
                        self.member(key@) == find_member(members@, key@),
                        find_member(members@, key@) == find_member(members@.skip(i as int), key@),
                    decreases members@.len() - i,
                {
                    proof {
                        assert(members@.skip(i as int).drop_first() =~= members@.skip(i + 1));
                        assert(members@.skip(i as int)[0] == members@[i as int]);
                    }
                    if same_text(members[i].0.as_str(), key) {
                        return Some(&members[i].1);
                    }
                    i = i + 1;
                }
                None
            },
            _ => None,
        }
    }

    /// What the reference token `0` leads to.
    pub fn get_first<'a>(&'a self) -> (found: Option<&'a Json>)
        ensures
            match found {
                Some(value) => self.first() == Some(*value),
                None => self.first() is None,
            },
    {
        match self {
            Json::Object(_) => self.get("0"),
            Json::Array(items) => if items.len() > 0 {
                Some(&items[0])
            } else {
                None
            },
            _ => None,
        }
    }

    /// The characters of a text.
    pub fn as_str<'a>(&'a self) -> (found: Option<&'a str>)
        ensures
            match found {
                Some(text) => self.text() == Some(text@),
                None => self.text() is None,
            },
    {
        match self {
            Json::Text(text) => Some(text.as_str()),
            _ => None,
        }
    }

    /// The items of an array.
    pub fn as_array<'a>(&'a self) -> (found: Option<&'a Vec<Json>>)
        ensures
            match found {
                Some(items) => self.items() == Some(items@),
                None => self.items() is None,
            },
    {
        match self {
            Json::Array(items) => Some(items),
            _ => None,
        }
    }
}

/// The member `key` of a value that may be missing.
pub fn get_in<'a>(value: Option<&'a Json>, key: &str) -> (found: Option<&'a Json>)
    ensures
        match found {
            Some(inner) => value matches Some(outer) && outer.member(key@) == Some(*inner),
            None => value matches Some(outer) ==> outer.member(key@) is None,
        },
{
    match value {
        Some(outer) => outer.get(key),
        None => None,
    }
}

/// The member `first` of an object, or its member `second` where it has no
/// member `first`.
pub fn get_either<'a>(value: &'a Json, first: &str, second: &str) -> (found: Option<&'a Json>)
    ensures
        match found {
            Some(inner) => first_of(value.member(first@), value.member(second@)) == Some(*inner),
            None => first_of(value.member(first@), value.member(second@)) is None,
        },
{
    match value.get(first) {
        Some(inner) => Some(inner),
        None => value.get(second),
    }
}

} // verus!
