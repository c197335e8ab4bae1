//! A JSON document as plain values, with the accessors the rest of the
//! library reads documents through.  Numbers keep the three kinds a JSON
//! number can have: a non-negative integer, a negative integer, or a
//! floating-point value (kept as its bit pattern).  An object keeps its
//! members in order, each key once.

use vstd::prelude::*;
use crate::text::str_eq;

verus! {

/// A JSON number.
pub enum JsonNumber {
    /// A non-negative integer.
    PosInt(u64),
    /// A negative integer.
    NegInt(i64),
    /// Any other number, as the bits of its `f64` value.
    Float(u64),
}

/// A JSON value.
pub enum JsonValue {
    Null,
    Bool(bool),
    Number(JsonNumber),
    String(String),
    Array(Vec<JsonValue>),
    Object(Vec<(String, JsonValue)>),
}

/// The index of the first member of an object with key `k`, if any.
pub open spec fn member_index(m: Seq<(String, JsonValue)>, k: Seq<char>) -> Option<int>
    decreases m.len(),
{
    if m.len() == 0 {
        None
    } else if m[0].0@ == k {
        Some(0int)
    } else {
        match member_index(m.drop_first(), k) {
            Some(i) => Some(i + 1),
            None => None,
        }
    }
}

/// The member of an object named `k`; nothing for other values.
pub open spec fn spec_get(v: JsonValue, k: Seq<char>) -> Option<JsonValue> {
    match v {
        JsonValue::Object(m) => match member_index(m@, k) {
            Some(i) => Some(m@[i].1),
            None => None,
        },
        _ => None,
    }
}

/// The text of a string value.
pub open spec fn spec_as_str(v: JsonValue) -> Option<Seq<char>> {
    match v {
        JsonValue::String(s) => Some(s@),
        _ => None,
    }
}

/// A number that is an integer within `i64`.
pub open spec fn spec_as_i64(v: JsonValue) -> Option<i64> {
    match v {
        JsonValue::Number(JsonNumber::PosInt(n)) => if n <= i64::MAX as u64 {
            Some(n as i64)
        } else {
            None
        },
        JsonValue::Number(JsonNumber::NegInt(n)) => Some(n),
        _ => None,
    }
}

/// A number that is a non-negative integer within `u64`.
pub open spec fn spec_as_u64(v: JsonValue) -> Option<u64> {
    match v {
        JsonValue::Number(JsonNumber::PosInt(n)) => Some(n),
        _ => None,
    }
}

/// A boolean value.
pub open spec fn spec_as_bool(v: JsonValue) -> Option<bool> {
    match v {
        JsonValue::Bool(b) => Some(b),
        _ => None,
    }
}

/// `v`'s member `k`, then its text.
pub open spec fn get_str(v: JsonValue, k: Seq<char>) -> Option<Seq<char>> {
    match spec_get(v, k) {
        Some(x) => spec_as_str(x),
        None => None,
    }
}

/// `v`'s member `k`, then its `i64` value.
pub open spec fn get_i64(v: JsonValue, k: Seq<char>) -> Option<i64> {
    match spec_get(v, k) {
        Some(x) => spec_as_i64(x),
        None => None,
    }
}

impl JsonValue {
    /// The member named `key` of an object.
    pub fn get(&self, key: &str) -> (r: Option<&JsonValue>)
        ensures
            match r {
                Some(x) => spec_get(*self, key@) == Some(*x),
                None => spec_get(*self, key@) is None,
            },
    {
        match self {
            JsonValue::Object(m) => {
                let mut i: usize = 0;
                while i < m.len()
                    invariant
                        i <= m.len(),
                        *self == JsonValue::Object(*m),
                        forall|j: int| 0 <= j < i ==> (#[trigger] m@[j]).0@ != key@,
                    decreases m.len() - i,
                {
                    if str_eq(m[i].0.as_str(), key) {
                        proof {
                            lemma_member_index_first(m@, key@, i as int);
                        }
                        return Some(&m[i].1);
                    }
                    i += 1;
                }
                proof {
                    lemma_member_index_none(m@, key@);
                }
                None
            },
            _ => None,
        }
    }

    /// The text of a string value.
    pub fn as_str(&self) -> (r: Option<&str>)
        ensures
            match r {
                Some(s) => spec_as_str(*self) == Some(s@),
                None => spec_as_str(*self) is None,
            },
    {
        match self {
            JsonValue::String(s) => Some(s.as_str()),
            _ => None,
        }
    }

    /// The value of an integer number within `i64`.
    pub fn as_i64(&self) -> (r: Option<i64>)
        ensures
            r == spec_as_i64(*self),
    {
        match self {
            JsonValue::Number(JsonNumber::PosInt(n)) => {
                if *n <= i64::MAX as u64 {
                    Some(*n as i64)
                } else {
                    None
                }
            },
            JsonValue::Number(JsonNumber::NegInt(n)) => Some(*n),
            _ => None,
        }
    }

    /// The value of a non-negative integer number.
    pub fn as_u64(&self) -> (r: Option<u64>)
        ensures
            r == spec_as_u64(*self),
    {
        match self {
            JsonValue::Number(JsonNumber::PosInt(n)) => Some(*n),
            _ => None,
        }
    }

    /// The value of a boolean.
    pub fn as_bool(&self) -> (r: Option<bool>)
        ensures
            r == spec_as_bool(*self),
    {
        match self {
            JsonValue::Bool(b) => Some(*b),
            _ => None,
        }
    }

    /// The items of an array.
    pub fn as_array(&self) -> (r: Option<&Vec<JsonValue>>)
        ensures
            match r {
                Some(a) => *self == JsonValue::Array(*a),
                None => !(*self is Array),
            },
    {
        match self {
            JsonValue::Array(a) => Some(a),
            _ => None,
        }
    }
}

proof fn lemma_member_index_first(m: Seq<(String, JsonValue)>, k: Seq<char>, i: int)
    requires
        0 <= i < m.len(),
        m[i].0@ == k,
        forall|j: int| 0 <= j < i ==> (#[trigger] m[j]).0@ != k,
    ensures
        member_index(m, k) == Some(i),
    decreases i,
{
    if i > 0 {
        let d = m.drop_first();
        assert forall|j: int| 0 <= j < i - 1 implies (#[trigger] d[j]).0@ != k by {
            assert(d[j] == m[j + 1]);
        }
        assert(m[0].0@ != k);
        lemma_member_index_first(d, k, i - 1);
    }
}

proof fn lemma_member_index_none(m: Seq<(String, JsonValue)>, k: Seq<char>)
    requires
        forall|j: int| 0 <= j < m.len() ==> (#[trigger] m[j]).0@ != k,
    ensures
        member_index(m, k) is None,
    decreases m.len(),
{
    if m.len() > 0 {
        let d = m.drop_first();
        assert forall|j: int| 0 <= j < d.len() implies (#[trigger] d[j]).0@ != k by {
            assert(d[j] == m[j + 1]);
        }
        assert(m[0].0@ != k);
        lemma_member_index_none(d, k);
    }
}

/// The first of several members that is present: `v[k1]`, else `v[k2]`, and
/// so on.
pub open spec fn get_any(v: JsonValue, keys: Seq<Seq<char>>) -> Option<JsonValue>
    decreases keys.len(),
{
    if keys.len() == 0 {
        None
    } else {
        match spec_get(v, keys[0]) {
            Some(x) => Some(x),
            None => get_any(v, keys.drop_first()),
        }
    }
}

/// The mathematical content of a JSON value: texts as character
/// sequences, the items of arrays and members of objects by their content.
pub enum JsonModel {
    Null,
    Bool(bool),
    Number(JsonNumber),
    Str(Seq<char>),
    Array(Seq<JsonModel>),
    Object(Seq<(Seq<char>, JsonModel)>),
}

/// The content of a JSON value.
pub open spec fn json_model(v: JsonValue) -> JsonModel
    decreases v,
{
    match v {
        JsonValue::Null => JsonModel::Null,
        JsonValue::Bool(b) => JsonModel::Bool(b),
        JsonValue::Number(n) => JsonModel::Number(n),
        JsonValue::String(s) => JsonModel::Str(s@),
        JsonValue::Array(a) => JsonModel::Array(
            Seq::new(
                a@.len(),
                |i: int|
                    if 0 <= i < a@.len() {
                        json_model(a@[i])
                    } else {
                        JsonModel::Null
                    },
            ),
        ),
        JsonValue::Object(m) => JsonModel::Object(
            Seq::new(
                m@.len(),
                |i: int|
                    if 0 <= i < m@.len() {
                        (m@[i].0@, json_model(m@[i].1))
                    } else {
                        (Seq::empty(), JsonModel::Null)
                    },
            ),
        ),
    }
}

/// A copy of a JSON value with the same content.
pub fn copy_json(v: &JsonValue) -> (r: JsonValue)
    ensures
        json_model(r) == json_model(*v),
    decreases v,
{
    match v {
        JsonValue::Null => JsonValue::Null,
        JsonValue::Bool(b) => JsonValue::Bool(*b),
        JsonValue::Number(n) => JsonValue::Number(match n {
            JsonNumber::PosInt(x) => JsonNumber::PosInt(*x),
            JsonNumber::NegInt(x) => JsonNumber::NegInt(*x),
            JsonNumber::Float(x) => JsonNumber::Float(*x),
        }),
        JsonValue::String(s) => JsonValue::String(s.clone()),
        JsonValue::Array(a) => {
            let mut out: Vec<JsonValue> = Vec::new();
            let mut k: usize = 0;
            while k < a.len()
                invariant
                    k <= a.len(),
                    *v == JsonValue::Array(*a),
                    out@.len() == k,
                    forall|j: int| 0 <= j < k ==> json_model(#[trigger] out@[j]) == json_model(a@[j]),
                decreases a.len() - k,
            {
                proof {
                    assert(decreases_to!(*v => (*v)->Array_0));
                    assert(decreases_to!(*a => a@));
                    assert(decreases_to!(a@ => a@[k as int]));
                }
                let x = copy_json(&a[k]);
                out.push(x);
                k += 1;
            }
            let r = JsonValue::Array(out);
            assert(json_model(r) == json_model(*v)) by {
                assert(json_model(r)->Array_0.len() == json_model(*v)->Array_0.len());
                assert forall|i: int| 0 <= i < out@.len() implies json_model(r)->Array_0[i] == json_model(*v)->Array_0[i] by {
                    assert(json_model(out@[i]) == json_model(a@[i]));
                }
                assert(json_model(r)->Array_0 =~= json_model(*v)->Array_0);
            }
            r
        },
        JsonValue::Object(m) => {
            let mut out: Vec<(String, JsonValue)> = Vec::new();
            let mut k: usize = 0;
            while k < m.len()
                invariant
                    k <= m.len(),
                    *v == JsonValue::Object(*m),
                    out@.len() == k,
                    forall|j: int| 0 <= j < k ==> (#[trigger] out@[j]).0@ == m@[j].0@ && json_model(out@[j].1) == json_model(m@[j].1),
                decreases m.len() - k,
            {
                proof {
                    assert(decreases_to!(*v => (*v)->Object_0));
                    assert(decreases_to!(*m => m@));
                    assert(decreases_to!(m@ => m@[k as int]));
                    assert(decreases_to!(m@[k as int] => m@[k as int].1));
                }
                let key = m[k].0.clone();
                let val = copy_json(&m[k].1);
                out.push((key, val));
                k += 1;
            }
            let r = JsonValue::Object(out);
            assert(json_model(r) == json_model(*v)) by {
                assert(json_model(r)->Object_0.len() == json_model(*v)->Object_0.len());
                assert forall|i: int| 0 <= i < out@.len() implies json_model(r)->Object_0[i] == json_model(*v)->Object_0[i] by {
                    assert(out@[i].0@ == m@[i].0@ && json_model(out@[i].1) == json_model(m@[i].1));
                }
                assert(json_model(r)->Object_0 =~= json_model(*v)->Object_0);
            }
            r
        },
    }
}

// ---------------------------------------------------------------------------
// Building documents

/// The content of the members of an object.
pub open spec fn members_model(m: Seq<(String, JsonValue)>) -> Seq<(Seq<char>, JsonModel)> {
    m.map_values(|p: (String, JsonValue)| (p.0@, json_model(p.1)))
}

/// The content of an object is the content of its members.
pub proof fn lemma_object_model(m: Vec<(String, JsonValue)>)
    ensures
        json_model(JsonValue::Object(m)) == JsonModel::Object(members_model(m@)),
{
    assert(json_model(JsonValue::Object(m))->Object_0 =~= members_model(m@));
}

/// The content of the items of an array.
pub open spec fn items_model(a: Seq<JsonValue>) -> Seq<JsonModel> {
    a.map_values(|x: JsonValue| json_model(x))
}

/// The content of an array is the content of its items.
pub proof fn lemma_array_model(a: Vec<JsonValue>)
    ensures
        json_model(JsonValue::Array(a)) == JsonModel::Array(items_model(a@)),
{
    assert(json_model(JsonValue::Array(a))->Array_0 =~= items_model(a@));
}

/// The number a JSON document holds for an integer.
pub open spec fn int_model(i: int) -> JsonModel {
    if i >= 0 {
        JsonModel::Number(JsonNumber::PosInt(i as u64))
    } else {
        JsonModel::Number(JsonNumber::NegInt(i as i64))
    }
}

/// A string value.
pub fn json_str(s: &str) -> (r: JsonValue)
    ensures
        json_model(r) == JsonModel::Str(s@),
{
    JsonValue::String(s.to_owned())
}

/// An integer value.
pub fn json_int(i: i64) -> (r: JsonValue)
    ensures
        json_model(r) == int_model(i as int),
{
    if i >= 0 {
        JsonValue::Number(JsonNumber::PosInt(i as u64))
    } else {
        JsonValue::Number(JsonNumber::NegInt(i))
    }
}

/// An object with the given members, in order.
pub fn json_object(members: Vec<(String, JsonValue)>) -> (r: JsonValue)
    ensures
        json_model(r) == JsonModel::Object(members_model(members@)),
{
    proof {
        lemma_object_model(members);
    }
    JsonValue::Object(members)
}

/// Adds a member at the end of an object's member list.
pub fn push_member(m: &mut Vec<(String, JsonValue)>, k: &str, v: JsonValue)
    ensures
        members_model(final(m)@) == members_model(old(m)@).push((k@, json_model(v))),
{
    m.push((k.to_owned(), v));
    assert(members_model(m@) =~= members_model(old(m)@).push((k@, json_model(v))));
}

/// An empty member list.
pub fn new_members() -> (m: Vec<(String, JsonValue)>)
    ensures
        members_model(m@) == Seq::<(Seq<char>, JsonModel)>::empty(),
{
    let m: Vec<(String, JsonValue)> = Vec::new();
    assert(members_model(m@) =~= Seq::<(Seq<char>, JsonModel)>::empty());
    m
}

/// A non-negative integer value.
pub fn json_nat(n: u64) -> (r: JsonValue)
    ensures
        json_model(r) == int_model(n as int),
{
    JsonValue::Number(JsonNumber::PosInt(n))
}

} // verus!
