//! The tree that a server response is read into.
//!
//! Only three shapes exist: arrays, objects and literals. A literal keeps
//! the text it was read from, so a string keeps its quotes and a key too;
//! numbers, booleans and null are kept as they were written.

use vstd::prelude::*;
use crate::error::Error;

verus! {

/// A parsed response.
#[derive(Debug)]
pub enum EsJson {
    /// The elements of an array, in order.
    Array(Vec<EsJson>),
    /// The members of an object, in order, each with its key in quotes.
    Object(Vec<(String, EsJson)>),
    /// The raw text of a string, number, boolean or null.
    String(String),
}

/// The mathematical value of an [`EsJson`].
pub enum JsonValue {
    Array(Seq<JsonValue>),
    Object(Seq<(Seq<char>, JsonValue)>),
    Literal(Seq<char>),
}

/// The values of a sequence of trees.
pub open spec fn values_of(items: Seq<EsJson>) -> Seq<JsonValue>
    decreases items, 0nat,
{
    Seq::new(
        items.len(),
        |i: int|
            if 0 <= i < items.len() {
                value_of(items[i])
            } else {
                JsonValue::Literal(Seq::empty())
            },
    )
}

/// The members of a sequence of keyed trees.
pub open spec fn members_of(pairs: Seq<(String, EsJson)>) -> Seq<(Seq<char>, JsonValue)>
    decreases pairs, 0nat,
{
    Seq::new(
        pairs.len(),
        |i: int|
            if 0 <= i < pairs.len() {
                (pairs[i].0@, value_of(pairs[i].1))
            } else {
                (Seq::empty(), JsonValue::Literal(Seq::empty()))
            },
    )
}

/// The value of a tree.
pub open spec fn value_of(json: EsJson) -> JsonValue
    decreases json, 1nat,
{
    match json {
        EsJson::Array(items) => JsonValue::Array(values_of(items@)),
        EsJson::Object(pairs) => JsonValue::Object(members_of(pairs@)),
        EsJson::String(text) => JsonValue::Literal(text@),
    }
}

impl View for EsJson {
    type V = JsonValue;

    open spec fn view(&self) -> JsonValue {
        value_of(*self)
    }
}

/// The message of every failure to read or to walk a response.
pub open spec fn invalid_json_text() -> Seq<char> {
    "invalid json"@
}

/// The error of every failure to read or to walk a response.
pub fn invalid_json() -> (e: Error)
    ensures
        e.text() == invalid_json_text(),
{
    Error::Message("invalid json".to_owned())
}

/// The index of the first member of `pairs`, from `i` on, whose key is
/// `key`.
pub open spec fn member_index(pairs: Seq<(String, EsJson)>, key: Seq<char>, i: int) -> Option<int>
    decreases pairs.len() - i,
{
    if i < 0 || i >= pairs.len() {
        None
    } else if pairs[i].0@ == key {
        Some(i)
    } else {
        member_index(pairs, key, i + 1)
    }
}

/// The index of the first of `members`, from `i` on, whose key is `key`.
pub open spec fn key_index(members: Seq<(Seq<char>, JsonValue)>, key: Seq<char>, i: int) -> Option<
    int,
>
    decreases members.len() - i,
{
    if i < 0 || i >= members.len() {
        None
    } else if members[i].0 == key {
        Some(i)
    } else {
        key_index(members, key, i + 1)
    }
}

impl JsonValue {
    /// The value under the first key equal to `key`, quotes included, where
    /// this is an object that has such a key.
    pub open spec fn member(self, key: Seq<char>) -> Option<JsonValue> {
        match self {
            JsonValue::Object(members) => match key_index(members, key, 0) {
                Some(i) => Some(members[i].1),
                None => None,
            },
            _ => None,
        }
    }

    /// The documents of a search response: the array under `"hits"` inside
    /// the object under `"hits"`.
    pub open spec fn hits(self) -> Option<Seq<JsonValue>> {
        match self.member("\"hits\""@) {
            Some(outer) => match outer.member("\"hits\""@) {
                Some(JsonValue::Array(items)) => Some(items),
                _ => None,
            },
            None => None,
        }
    }
}

/// Looking a key up in a tree finds what looking it up in its value finds.
pub proof fn lemma_member_index(pairs: Seq<(String, EsJson)>, key: Seq<char>, i: int)
    requires
        0 <= i,
    ensures
        member_index(pairs, key, i) == key_index(members_of(pairs), key, i),
        member_index(pairs, key, i) matches Some(k) ==> i <= k < pairs.len(),
    decreases pairs.len() - i,
{
    if i < pairs.len() && pairs[i].0@ != key {
        lemma_member_index(pairs, key, i + 1);
    }
}

/// The member of a tree has the value of the member of its value.
pub proof fn lemma_member(tree: EsJson, key: Seq<char>)
    ensures
        match tree.member(key) {
            Some(found) => tree@.member(key) == Some(found@),
            None => tree@.member(key) is None,
        },
{
    match tree {
        EsJson::Object(pairs) => {
            lemma_member_index(pairs@, key, 0);
            assert(tree@ == JsonValue::Object(members_of(pairs@)));
        },
        _ => {},
    }
}

/// The documents of a tree have the values of the documents of its value.
pub proof fn lemma_hits(tree: EsJson)
    ensures
        match tree.hits() {
            Some(items) => tree@.hits() == Some(values_of(items@)),
            None => tree@.hits() is None,
        },
{
    lemma_member(tree, "\"hits\""@);
    match tree.member("\"hits\""@) {
        Some(outer) => {
            lemma_member(outer, "\"hits\""@);
        },
        None => {},
    }
}

impl EsJson {
    /// The value under the first key equal to `key`, quotes included, where
    /// the tree is an object that has such a key.
    pub open spec fn member(self, key: Seq<char>) -> Option<EsJson> {
        match self {
            EsJson::Object(pairs) => match member_index(pairs@, key, 0) {
                Some(i) => Some(pairs@[i].1),
                None => None,
            },
            _ => None,
        }
    }

    /// The documents of a search response: the array under `"hits"` inside
    /// the object under `"hits"`.
    pub open spec fn hits(self) -> Option<Vec<EsJson>> {
        match self.member("\"hits\""@) {
            Some(outer) => match outer.member("\"hits\""@) {
                Some(EsJson::Array(items)) => Some(items),
                _ => None,
            },
            None => None,
        }
    }

    /// The elements, where the tree is an array.
    pub fn get_array(&self) -> (out: Result<&Vec<EsJson>, Error>)
        ensures
            match out {
                Ok(items) => *self == EsJson::Array(*items),
                Err(e) => !(self is Array) && e.text() == invalid_json_text(),
            },
    {
        match self {
            EsJson::Array(items) => Ok(items),
            _ => Err(invalid_json()),
        }
    }

    /// The members, where the tree is an object.
    pub fn get_object(&self) -> (out: Result<&Vec<(String, EsJson)>, Error>)
        ensures
            match out {
                Ok(pairs) => *self == EsJson::Object(*pairs),
                Err(e) => !(self is Object) && e.text() == invalid_json_text(),
            },
    {
        match self {
            EsJson::Object(pairs) => Ok(pairs),
            _ => Err(invalid_json()),
        }
    }

    /// The raw text, where the tree is a literal.
    pub fn get_string(&self) -> (out: Result<&String, Error>)
        ensures
            match out {
                Ok(text) => *self == EsJson::String(*text),
                Err(e) => !(self is String) && e.text() == invalid_json_text(),
            },
    {
        match self {
            EsJson::String(text) => Ok(text),
            _ => Err(invalid_json()),
        }
    }

    /// Looks a key up in an object. The key is compared with its quotes,
    /// character by character, and the first match wins.
    pub fn find_json(&self, key: &str) -> (out: Result<&EsJson, Error>)
        ensures
            match out {
                Ok(found) => self.member(key@) == Some(*found) && self@.member(key@) == Some(
                    found@,
                ),
                Err(e) => self.member(key@) is None && self@.member(key@) is None && e.text()
                    == invalid_json_text(),
            },
    {
        proof {
            lemma_member(*self, key@);
        }
        let pairs = match self {
            EsJson::Object(pairs) => pairs,
            _ => {
                return Err(invalid_json());
            },
        };
        let wanted = key.to_owned();
        let mut i: usize = 0;
        while i < pairs.len()
            invariant
                i <= pairs.len(),
                wanted@ == key@,
                *self == EsJson::Object(*pairs),
                member_index(pairs@, key@, 0) == member_index(pairs@, key@, i as int),
            decreases pairs.len() - i,
        {
            if pairs[i].0 == wanted {
                proof {
                    lemma_member(*self, key@);
                }
                return Ok(&pairs[i].1);
            }
            i += 1;
        }
        Err(invalid_json())
    }

    /// The documents of a search response.
    pub fn get_hits(&self) -> (out: Result<&Vec<EsJson>, Error>)
        ensures
            match out {
                Ok(items) => self.hits() == Some(*items) && self@.hits() == Some(
                    values_of(items@),
                ),
                Err(e) => self.hits() is None && self@.hits() is None && e.text()
                    == invalid_json_text(),
            },
    {
        proof {
            lemma_hits(*self);
        }
        let outer = self.find_json("\"hits\"")?;
        let inner = outer.find_json("\"hits\"")?;
        inner.get_array()
    }
}

} // verus!
