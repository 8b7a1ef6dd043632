use vstd::prelude::*;

use crate::fingerprint::{canonical, canonical_items, member_sum};

verus! {

/// A parsed configuration document: the JSON data model.
///
/// Integers that fit in an `i64` are held as `Integer`; any other number
/// (a fraction, an exponent, an integer beyond `i64`) is held by its text.
/// Object members keep their order; a well-formed document has no
/// repeated key within one object, and lookups take the first member
/// with the key asked for.
#[derive(Debug)]
pub enum JsonValue {
    Null,
    Bool(bool),
    Integer(i64),
    Number(String),
    Str(String),
    Array(Vec<JsonValue>),
    Object(Vec<(String, JsonValue)>),
}

/// The first member of `members` whose key is `key`.
pub open spec fn member_lookup(members: Seq<(String, JsonValue)>, key: Seq<char>) -> Option<JsonValue>
    decreases members.len(),
{
    if members.len() == 0 {
        None
    } else if members[0].0@ == key {
        Some(members[0].1)
    } else {
        member_lookup(members.drop_first(), key)
    }
}

impl JsonValue {
    /// The value of member `key`, when this is an object that has one.
    pub open spec fn field(self, key: Seq<char>) -> Option<JsonValue> {
        match self {
            JsonValue::Object(members) => member_lookup(members@, key),
            _ => None,
        }
    }

    pub open spec fn array_items(self) -> Option<Seq<JsonValue>> {
        match self {
            JsonValue::Array(items) => Some(items@),
            _ => None,
        }
    }

    pub open spec fn members(self) -> Option<Seq<(String, JsonValue)>> {
        match self {
            JsonValue::Object(members) => Some(members@),
            _ => None,
        }
    }

    pub open spec fn text(self) -> Option<Seq<char>> {
        match self {
            JsonValue::Str(s) => Some(s@),
            _ => None,
        }
    }

    pub open spec fn integer(self) -> Option<i64> {
        match self {
            JsonValue::Integer(n) => Some(n),
            _ => None,
        }
    }

    pub open spec fn boolean(self) -> Option<bool> {
        match self {
            JsonValue::Bool(b) => Some(b),
            _ => None,
        }
    }

    /// Looks up member `key` of an object; `None` for a missing key or a
    /// value that is not an object.
    pub fn get(&self, key: &str) -> (r: Option<&JsonValue>)
        ensures
            r is Some <==> self.field(key@) is Some,
            r is Some ==> self.field(key@) == Some(*r->0),
    {
        match self {
            JsonValue::Object(members) => {
                let mut i: usize = 0;
                assert(members@.subrange(0, members@.len() as int) =~= members@);
                while i < members.len()
                    invariant
                        0 <= i <= members@.len(),
                        self.field(key@) == member_lookup(
                            members@.subrange(i as int, members@.len() as int),
                            key@,
                        ),
                    decreases members@.len() - i,
                {
                    let ghost rest = members@.subrange(i as int, members@.len() as int);
                    assert(rest.drop_first() =~= members@.subrange(i + 1, members@.len() as int));
                    assert(rest[0] == members@[i as int]);
                    if text_eq(members[i].0.as_str(), key) {
                        return Some(&members[i].1);
                    }
                    i = i + 1;
                }
                None
            },
            _ => None,
        }
    }

    /// A copy of this value, with the same canonical text.
    pub fn copy(&self) -> (r: JsonValue)
        ensures
            canonical(r) == canonical(*self),
        decreases *self,
    {
        match self {
            JsonValue::Null => JsonValue::Null,
            JsonValue::Bool(b) => JsonValue::Bool(*b),
            JsonValue::Integer(n) => JsonValue::Integer(*n),
            JsonValue::Number(s) => JsonValue::Number(s.clone()),
            JsonValue::Str(s) => JsonValue::Str(s.clone()),
            JsonValue::Array(items) => {
                let mut out: Vec<JsonValue> = Vec::new();
                let mut i: usize = 0;
                assert(items@.subrange(0, 0) =~= Seq::<JsonValue>::empty());
                assert(out@ =~= Seq::<JsonValue>::empty());
                while i < items.len()
                    invariant
                        0 <= i <= items@.len(),
                        *self == JsonValue::Array(*items),
                        out@.len() == i,
                        canonical_items(out@) == canonical_items(items@.subrange(0, i as int)),
                    decreases items@.len() - i,
                {
                    assert(decreases_to!(*self => (*self)->Array_0));
                    assert(decreases_to!(*items => items@));
                    assert(decreases_to!(items@ => items@[i as int]));
                    let item = items[i].copy();
                    let ghost before = out@;
                    out.push(item);
                    assert(out@.drop_last() =~= before);
                    assert(items@.subrange(0, i + 1).drop_last() =~= items@.subrange(0, i as int));
                    i = i + 1;
                }
                assert(items@.subrange(0, items@.len() as int) =~= items@);
                JsonValue::Array(out)
            },
            JsonValue::Object(members) => {
                let mut out: Vec<(String, JsonValue)> = Vec::new();
                let mut i: usize = 0;
                assert(members@.subrange(0, 0) =~= Seq::<(String, JsonValue)>::empty());
                assert(out@ =~= Seq::<(String, JsonValue)>::empty());
                while i < members.len()
                    invariant
                        0 <= i <= members@.len(),
                        *self == JsonValue::Object(*members),
                        out@.len() == i,
                        member_sum(out@) == member_sum(members@.subrange(0, i as int)),
                    decreases members@.len() - i,
                {
                    assert(decreases_to!(*self => (*self)->Object_0));
                    assert(decreases_to!(*members => members@));
                    assert(decreases_to!(members@ => members@[i as int]));
                    assert(decreases_to!(members@[i as int] => members@[i as int].1));
                    let value = members[i].1.copy();
                    let key = members[i].0.clone();
                    let ghost before = out@;
                    out.push((key, value));
                    assert(out@.drop_last() =~= before);
                    assert(members@.subrange(0, i + 1).drop_last() =~= members@.subrange(0, i as int));
                    i = i + 1;
                }
                assert(members@.subrange(0, members@.len() as int) =~= members@);
                JsonValue::Object(out)
            },
        }
    }

    pub fn as_array(&self) -> (r: Option<&Vec<JsonValue>>)
        ensures
            r is Some <==> self.array_items() is Some,
            r is Some ==> self.array_items() == Some(r->0@),
    {
        match self {
            JsonValue::Array(items) => Some(items),
            _ => None,
        }
    }

    pub fn as_object(&self) -> (r: Option<&Vec<(String, JsonValue)>>)
        ensures
            r is Some <==> self.members() is Some,
            r is Some ==> self.members() == Some(r->0@),
    {
        match self {
            JsonValue::Object(members) => Some(members),
            _ => None,
        }
    }

    pub fn as_str(&self) -> (r: Option<&str>)
        ensures
            r is Some <==> self.text() is Some,
            r is Some ==> self.text() == Some(r->0@),
    {
        match self {
            JsonValue::Str(s) => Some(s.as_str()),
            _ => None,
        }
    }

    pub fn as_i64(&self) -> (r: Option<i64>)
        ensures
            r == self.integer(),
    {
        match self {
            JsonValue::Integer(n) => Some(*n),
            _ => None,
        }
    }

    pub fn as_bool(&self) -> (r: Option<bool>)
        ensures
            r == self.boolean(),
    {
        match self {
            JsonValue::Bool(b) => Some(*b),
            _ => None,
        }
    }
}

/// Character-wise equality of two strings.
pub fn text_eq(a: &str, b: &str) -> (r: bool)
    ensures
        r == (a@ == b@),
{
    let n = a.unicode_len();
    if n != b.unicode_len() {
        return false;
    }
    let mut i: usize = 0;
    while i < n
        invariant
            n == a@.len() == b@.len(),
            0 <= i <= n,
            a@.subrange(0, i as int) == b@.subrange(0, i as int),
        decreases n - i,
    {
        if a.get_char(i) != b.get_char(i) {
            return false;
        }
        assert(a@.subrange(0, i + 1) =~= a@.subrange(0, i as int).push(a@[i as int]));
        assert(b@.subrange(0, i + 1) =~= b@.subrange(0, i as int).push(b@[i as int]));
        i = i + 1;
    }
    assert(a@ =~= a@.subrange(0, n as int));
    assert(b@ =~= b@.subrange(0, n as int));
    true
}

} // verus!
