//! A JSON document as the library reads it, and the lookups its readers use.
//!
//! Text is parsed into this tree by the caller; the library only walks it.

use vstd::prelude::*;
use crate::text::str_eq;

verus! {

/// One JSON value. An object keeps its members in document order, each key
/// once. A number read from text carries its value when it is a
/// non-negative integer that fits 64 bits (the only numbers read here), else
/// nothing; a number the library writes may also be a signed integer.
#[derive(Debug, PartialEq)]
pub enum JsonValue {
    Null,
    Bool(bool),
    Number(Option<u64>),
    Signed(i64),
    Str(String),
    Array(Vec<JsonValue>),
    Object(Vec<(String, JsonValue)>),
}

/// Index of the first member named `key`, or -1.
pub open spec fn member_index(members: Seq<(String, JsonValue)>, key: Seq<char>) -> int
    decreases members.len(),
{
    if members.len() == 0 {
        -1
    } else if members[0].0@ == key {
        0
    } else {
        let rest = member_index(members.drop_first(), key);
        if rest < 0 {
            -1
        } else {
            rest + 1
        }
    }
}

/// The member `key` of an object; nothing for any other value.
pub open spec fn json_get(v: JsonValue, key: Seq<char>) -> Option<JsonValue> {
    match v {
        JsonValue::Object(members) => {
            let i = member_index(members@, key);
            if 0 <= i < members@.len() {
                Some(members@[i].1)
            } else {
                None
            }
        },
        _ => None,
    }
}

pub open spec fn json_str(v: Option<JsonValue>) -> Option<Seq<char>> {
    match v {
        Some(JsonValue::Str(s)) => Some(s@),
        _ => None,
    }
}

pub open spec fn json_bool(v: Option<JsonValue>) -> Option<bool> {
    match v {
        Some(JsonValue::Bool(b)) => Some(b),
        _ => None,
    }
}

pub open spec fn json_u64(v: Option<JsonValue>) -> Option<u64> {
    match v {
        Some(JsonValue::Number(n)) => n,
        _ => None,
    }
}

pub open spec fn json_array(v: Option<JsonValue>) -> Option<Seq<JsonValue>> {
    match v {
        Some(JsonValue::Array(items)) => Some(items@),
        _ => None,
    }
}

/// Absent or `null`.
pub open spec fn json_is_absent(v: Option<JsonValue>) -> bool {
    match v {
        None => true,
        Some(JsonValue::Null) => true,
        _ => false,
    }
}

proof fn lemma_member_index(members: Seq<(String, JsonValue)>, key: Seq<char>, i: int)
    requires
        0 <= i <= members.len(),
        forall|j: int| 0 <= j < i ==> (#[trigger] members[j]).0@ != key,
        i < members.len() ==> members[i].0@ == key,
    ensures
        member_index(members, key) == if i < members.len() {
            i
        } else {
            -1
        },
    decreases i,
{
    if i > 0 {
        let rest = members.drop_first();
        assert forall|j: int| 0 <= j < i - 1 implies (#[trigger] rest[j]).0@ != key by {
            assert(rest[j] == members[j + 1]);
        }
        lemma_member_index(rest, key, i - 1);
    }
}

impl JsonValue {
    /// The member `key` of an object.
    pub fn get(&self, key: &str) -> (member: Option<&JsonValue>)
        ensures
            match json_get(*self, key@) {
                Some(m) => member matches Some(x) && *x == m,
                None => member is None,
            },
    {
        match self {
            JsonValue::Object(members) => {
                let mut i: usize = 0;
                while i < members.len()
                    invariant
                        *self == JsonValue::Object(*members),
                        i <= members@.len(),
                        forall|j: int| 0 <= j < i ==> (#[trigger] members@[j]).0@ != key@,
                    decreases members@.len() - i,
                {
                    if str_eq(members[i].0.as_str(), key) {
                        proof {
                            lemma_member_index(members@, key@, i as int);
                            assert(json_get(*self, key@) == Some(members@[i as int].1));
                        }
                        return Some(&members[i].1);
                    }
                    i = i + 1;
                }
                proof {
                    lemma_member_index(members@, key@, i as int);
                }
                None
            },
            _ => None,
        }
    }

    /// The item at `index` of an array.
    pub fn at(&self, index: usize) -> (item: Option<&JsonValue>)
        ensures
            match *self {
                JsonValue::Array(items) => if index < items@.len() {
                    item matches Some(x) && *x == items@[index as int]
                } else {
                    item is None
                },
                _ => item is None,
            },
    {
        match self {
            JsonValue::Array(items) => if index < items.len() {
                Some(&items[index])
            } else {
                None
            },
            _ => None,
        }
    }
}

/// The text of a string value.
pub fn as_str(v: Option<&JsonValue>) -> (text: Option<&str>)
    ensures
        match v {
            Some(x) => match *x {
                JsonValue::Str(s) => text matches Some(t) && t@ == s@,
                _ => text is None,
            },
            None => text is None,
        },
{
    match v {
        Some(JsonValue::Str(s)) => Some(s.as_str()),
        _ => None,
    }
}

/// The truth of a boolean value.
pub fn as_bool(v: Option<&JsonValue>) -> (b: Option<bool>)
    ensures
        b == json_bool(
            match v {
                Some(x) => Some(*x),
                None => None,
            },
        ),
{
    match v {
        Some(JsonValue::Bool(b)) => Some(*b),
        _ => None,
    }
}

/// The value of a non-negative integer that fits 64 bits.
pub fn as_u64(v: Option<&JsonValue>) -> (n: Option<u64>)
    ensures
        n == json_u64(
            match v {
                Some(x) => Some(*x),
                None => None,
            },
        ),
{
    match v {
        Some(JsonValue::Number(n)) => *n,
        _ => None,
    }
}

/// The items of an array value.
pub fn as_array(v: Option<&JsonValue>) -> (items: Option<&Vec<JsonValue>>)
    ensures
        match v {
            Some(x) => match *x {
                JsonValue::Array(a) => items matches Some(i) && i@ == a@,
                _ => items is None,
            },
            None => items is None,
        },
{
    match v {
        Some(JsonValue::Array(items)) => Some(items),
        _ => None,
    }
}

/// Whether a value is absent or `null`.
pub fn is_absent(v: Option<&JsonValue>) -> (absent: bool)
    ensures
        absent == json_is_absent(
            match v {
                Some(x) => Some(*x),
                None => None,
            },
        ),
{
    match v {
        None => true,
        Some(JsonValue::Null) => true,
        _ => false,
    }
}

} // verus!
