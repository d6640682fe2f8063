//! A JSON value as the gateway's request checks read it. Numbers keep only
//! what the checks compare: their value when it is a non-negative integer.
use vstd::prelude::*;
use crate::text::{chars_eq, chars_of};

verus! {

pub enum Json {
    Null,
    Bool(bool),
    /// A number: `Some(n)` when it is an integer in `u64`.
    Number(Option<u64>),
    String(String),
    Array(Vec<Json>),
    /// Members in order; names are unique.
    Object(Vec<(String, Json)>),
}

/// The first member of an object named `k`; nothing for any other value.
pub open spec fn member(v: Json, k: Seq<char>) -> Option<Json> {
    match v {
        Json::Object(m) => member_in(m@, k),
        _ => None,
    }
}

pub open spec fn member_in(m: Seq<(String, Json)>, k: Seq<char>) -> Option<Json>
    decreases m.len(),
{
    if m.len() == 0 {
        None
    } else if m[0].0@ == k {
        Some(m[0].1)
    } else {
        member_in(m.drop_first(), k)
    }
}

pub open spec fn as_u64(v: Option<Json>) -> Option<u64> {
    match v {
        Some(Json::Number(n)) => n,
        _ => None,
    }
}

pub open spec fn as_str(v: Option<Json>) -> Option<Seq<char>> {
    match v {
        Some(Json::String(s)) => Some(s@),
        _ => None,
    }
}

impl Json {
    /// The member named `k` of an object (`serde_json::Value::get`).
    pub fn get(&self, k: &str) -> (r: Option<&Json>)
        ensures
            match r {
                Some(v) => member(*self, k@) == Some(*v),
                None => member(*self, k@) is None,
            },
    {
        match self {
            Json::Object(m) => {
                let key = chars_of(k);
                let mut i: usize = 0;
                assert(m@.skip(0) =~= m@);
                while i < m.len()
                    invariant
                        i <= m@.len(),
                        key@ == k@,
                        member(*self, k@) == member_in(m@, k@),
                        member_in(m@, k@) == member_in(m@.skip(i as int), k@),
                    decreases m.len() - i,
                {
                    assert(m@.skip(i as int)[0] == m@[i as int]);
                    assert(m@.skip(i as int).drop_first() =~= m@.skip(i + 1));
                    let name = chars_of(m[i].0.as_str());
                    if chars_eq(&name, &key) {
                        return Some(&m[i].1);
                    }
                    i += 1;
                }
                None
            },
            _ => None,
        }
    }

    /// The value when it is a non-negative integer.
    pub fn as_u64(&self) -> (r: Option<u64>)
        ensures
            r == as_u64(Some(*self)),
    {
        match self {
            Json::Number(n) => *n,
            _ => None,
        }
    }

    /// The text when it is a string.
    pub fn as_str(&self) -> (r: Option<&str>)
        ensures
            match r {
                Some(s) => as_str(Some(*self)) == Some(s@),
                None => as_str(Some(*self)) is None,
            },
    {
        match self {
            Json::String(s) => Some(s.as_str()),
            _ => None,
        }
    }
}

} // verus!
