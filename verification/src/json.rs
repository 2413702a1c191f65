//! A JSON document as the exchange sends it: the value model that the
//! response-reading logic works on.

use vstd::prelude::*;

use crate::text::str_eq;

verus! {

/// A JSON value. Numbers keep their textual form; an object keeps its members
/// in order.
pub enum Json {
    Null,
    Bool(bool),
    Number(String),
    String(String),
    Array(Vec<Json>),
    Object(Vec<(String, Json)>),
}

/// The value of the first member of `members` named `key`.
pub open spec fn lookup(members: Seq<(String, Json)>, key: Seq<char>) -> Option<Json>
    decreases members.len(),
{
    if members.len() == 0 {
        None
    } else if members[0].0@ == key {
        Some(members[0].1)
    } else {
        lookup(members.drop_first(), key)
    }
}

proof fn lemma_lookup_found(members: Seq<(String, Json)>, key: Seq<char>, i: int)
    requires
        0 <= i < members.len(),
        members[i].0@ == key,
        forall|j: int| 0 <= j < i ==> (#[trigger] members[j]).0@ != key,
    ensures
        lookup(members, key) == Some(members[i].1),
    decreases i,
{
    if i > 0 {
        let rest = members.drop_first();
        assert forall|j: int| 0 <= j < i - 1 implies (#[trigger] rest[j]).0@ != key by {
            assert(rest[j] == members[j + 1]);
        }
        lemma_lookup_found(rest, key, i - 1);
    }
}

proof fn lemma_lookup_missing(members: Seq<(String, Json)>, key: Seq<char>)
    requires
        forall|j: int| 0 <= j < members.len() ==> (#[trigger] members[j]).0@ != key,
    ensures
        lookup(members, key) is None,
    decreases members.len(),
{
    if members.len() > 0 {
        let rest = members.drop_first();
        assert forall|j: int| 0 <= j < rest.len() implies (#[trigger] rest[j]).0@ != key by {
            assert(rest[j] == members[j + 1]);
        }
        lemma_lookup_missing(rest, key);
    }
}

impl Json {
    /// The member `key` of an object (`Value::get`); `None` for a missing
    /// member and for a value that is no object.
    pub open spec fn get_spec(self, key: Seq<char>) -> Option<Json> {
        match self {
            Json::Object(members) => lookup(members@, key),
            _ => None,
        }
    }

    /// `value[key]`: the member `key`, or `Null` where `get_spec` has none.
    pub open spec fn field(self, key: Seq<char>) -> Json {
        match self.get_spec(key) {
            Some(v) => v,
            None => Json::Null,
        }
    }

    /// The text of a JSON string (`Value::as_str`).
    pub open spec fn str_value(self) -> Option<Seq<char>> {
        match self {
            Json::String(s) => Some(s@),
            _ => None,
        }
    }

    /// The items of a JSON array (`Value::as_array`).
    pub open spec fn items(self) -> Option<Seq<Json>> {
        match self {
            Json::Array(v) => Some(v@),
            _ => None,
        }
    }

    /// The member `key` of an object, where there is one.
    pub fn get(&self, key: &str) -> (res: Option<&Json>)
        ensures
            res matches Some(v) ==> self.get_spec(key@) == Some(*v),
            res is None ==> self.get_spec(key@) is None,
    {
        match self {
            Json::Object(members) => {
                let n = members.len();
                for i in 0..n
                    invariant
                        n == members@.len(),
                        self.get_spec(key@) == lookup(members@, key@),
                        forall|j: int| 0 <= j < i ==> (#[trigger] members@[j]).0@ != key@,
                {
                    if str_eq(members[i].0.as_str(), key) {
                        proof {
                            lemma_lookup_found(members@, key@, i as int);
                        }
                        return Some(&members[i].1);
                    }
                }
                proof {
                    lemma_lookup_missing(members@, key@);
                }
                None
            },
            _ => None,
        }
    }

    /// The text of the string member `key` (`value[key].as_str()`).
    pub fn field_str(&self, key: &str) -> (res: Option<String>)
        ensures
            res matches Some(s) ==> self.field(key@).str_value() == Some(s@),
            res is None ==> self.field(key@).str_value() is None,
    {
        match self.get(key) {
            Some(Json::String(s)) => Some(s.clone()),
            _ => None,
        }
    }
}

} // verus!
