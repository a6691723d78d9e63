//! JSON trees, and their form in the `serde_json` crate.
use vstd::prelude::*;

use crate::text::same_text;

verus! {

/// The type `serde_json::Value`.
#[verifier::external_type_specification]
#[verifier::external_body]
pub struct ExValue(serde_json::Value);

/// The type `serde_json::Number`.
#[verifier::external_type_specification]
#[verifier::external_body]
pub struct ExNumber(serde_json::Number);

/// A JSON tree. An object's members keep their order.
pub enum Json {
    Null,
    Bool(bool),
    Number(serde_json::Number),
    Str(String),
    Array(Vec<Json>),
    Object(Vec<(String, Json)>),
}

/// A JSON tree as a plain value.
pub enum JsonV {
    Null,
    Bool(bool),
    Number(serde_json::Number),
    Str(Seq<char>),
    Array(Seq<JsonV>),
    Object(Seq<MemberV>),
}

/// A member of an object as a plain value.
pub struct MemberV {
    pub name: Seq<char>,
    pub value: JsonV,
}

impl View for Json {
    type V = JsonV;

    open spec fn view(&self) -> JsonV
        decreases self,
    {
        match self {
            Json::Null => JsonV::Null,
            Json::Bool(b) => JsonV::Bool(*b),
            Json::Number(n) => JsonV::Number(*n),
            Json::Str(s) => JsonV::Str(s@),
            Json::Array(v) => JsonV::Array(
                Seq::new(
                    v@.len(),
                    |i: int|
                        if 0 <= i < v@.len() {
                            v@[i]@
                        } else {
                            JsonV::Null
                        },
                ),
            ),
            Json::Object(m) => JsonV::Object(
                Seq::new(
                    m@.len(),
                    |i: int|
                        if 0 <= i < m@.len() {
                            MemberV { name: m@[i].0@, value: m@[i].1@ }
                        } else {
                            MemberV { name: Seq::empty(), value: JsonV::Null }
                        },
                ),
            ),
        }
    }
}

/// Whether no object in `v` has two members of one name.
pub open spec fn json_wf(v: JsonV) -> bool
    decreases v,
{
    match v {
        JsonV::Array(items) => forall|i: int| 0 <= i < items.len() ==> json_wf(#[trigger] items[i]),
        JsonV::Object(members) => {
            &&& forall|i: int, j: int|
                0 <= i < j < members.len() ==> (#[trigger] members[i]).name != (
                #[trigger] members[j]).name
            &&& forall|i: int| 0 <= i < members.len() ==> json_wf((#[trigger] members[i]).value)
        },
        _ => true,
    }
}

/// What a value stands for: a leaf for itself, a list for its items in their order, and an object for its
/// members in theirs.
pub proof fn law_values(j: Json, i: int)
    ensures
        j is Null <==> j@ is Null,
        j matches Json::Bool(b) ==> j@ == JsonV::Bool(b),
        j matches Json::Number(n) ==> j@ == JsonV::Number(n),
        j matches Json::Str(s) ==> j@ == JsonV::Str(s@),
        j matches Json::Array(v) ==> j@ is Array && j@->Array_0.len() == v@.len() && (0 <= i
            < v@.len() ==> j@->Array_0[i] == v@[i]@),
        j matches Json::Object(m) ==> j@ is Object && j@->Object_0.len() == m@.len() && (0 <= i
            < m@.len() ==> j@->Object_0[i].name == m@[i].0@ && j@->Object_0[i].value == m@[i].1@),
{
}

/// Position of the first member named `key` from number `from` on.
pub open spec fn member_from(
    members: Seq<MemberV>,
    key: Seq<char>,
    from: int,
) -> Option<int>
    decreases members.len() - from,
{
    if from < 0 || from >= members.len() {
        None
    } else if members[from].name == key {
        Some(from)
    } else {
        member_from(members, key, from + 1)
    }
}

/// The member `key` of `v`; none where `v` is no object.
pub open spec fn member(v: JsonV, key: Seq<char>) -> Option<JsonV> {
    match v {
        JsonV::Object(members) => match member_from(members, key, 0) {
            Some(i) => Some(members[i].value),
            None => None,
        },
        _ => None,
    }
}

/// A member is one of the object's members.
pub proof fn lemma_member_from(members: Seq<MemberV>, key: Seq<char>, from: int)
    requires
        0 <= from,
    ensures
        member_from(members, key, from) matches Some(i) ==> from <= i < members.len()
            && members[i].name == key,
    decreases members.len() - from,
{
    if from < members.len() && members[from].name != key {
        lemma_member_from(members, key, from + 1);
    }
}

/// The member of a name is the first member that has the name; an object without one, and anything that is
/// no object, has none.
pub proof fn law_member(v: JsonV, key: Seq<char>)
    ensures
        v matches JsonV::Object(members) ==> {
            &&& forall|i: int|
                0 <= i < members.len() && (#[trigger] members[i]).name == key && (forall|k: int|
                    0 <= k < i ==> (#[trigger] members[k]).name != key) ==> member(v, key) == Some(
                    members[i].value,
                )
            &&& (forall|i: int| 0 <= i < members.len() ==> (#[trigger] members[i]).name != key)
                ==> member(v, key) is None
        },
        !(v is Object) ==> member(v, key) is None,
{
    if let JsonV::Object(members) = v {
        lemma_member_first(members, key, 0);
        assert forall|i: int|
            0 <= i < members.len() && (#[trigger] members[i]).name == key && (forall|k: int|
                0 <= k < i ==> (#[trigger] members[k]).name != key) implies member(v, key) == Some(
            members[i].value,
        ) by {
            let at = member_from(members, key, 0);
            assert(at is Some);
            assert(members[at->0].name == key);
            if at->0 < i {
                assert(members[at->0].name != key);
            }
            if i < at->0 {
                assert(members[i].name != key);
            }
        }
    }
}

proof fn lemma_member_first(members: Seq<MemberV>, key: Seq<char>, from: int)
    requires
        0 <= from,
    ensures
        match member_from(members, key, from) {
            Some(i) => {
                &&& from <= i < members.len()
                &&& members[i].name == key
                &&& forall|k: int| from <= k < i ==> (#[trigger] members[k]).name != key
            },
            None => forall|k: int|
                from <= k < members.len() ==> (#[trigger] members[k]).name != key,
        },
    decreases members.len() - from,
{
    if from < members.len() && members[from].name != key {
        lemma_member_first(members, key, from + 1);
    }
}

/// Calls the `Clone` impl of `serde_json::Number`, whose result is the same number.
#[verifier::external_body]
fn copy_number(n: &serde_json::Number) -> (r: serde_json::Number)
    ensures
        r == *n,
{
    n.clone()
}

impl Json {
    /// The items, where this is an array.
    pub fn as_array(&self) -> (r: Option<&Vec<Json>>)
        ensures
            match self {
                Json::Array(v) => r == Some(v),
                _ => r is None,
            },
    {
        match self {
            Json::Array(v) => Some(v),
            _ => None,
        }
    }

    /// The text, where this is one.
    pub fn as_str(&self) -> (r: Option<&str>)
        ensures
            match self@ {
                JsonV::Str(s) => r is Some && r->0@ == s,
                _ => r is None,
            },
    {
        match self {
            Json::Str(s) => Some(s.as_str()),
            _ => None,
        }
    }

    /// The member `key`, where this is an object that has it.
    pub fn get(&self, key: &str) -> (r: Option<&Json>)
        ensures
            match r {
                Some(j) => member(self@, key@) == Some(j@),
                None => member(self@, key@) is None,
            },
    {
        match self {
            Json::Object(members) => {
                let ghost all = self@->Object_0;
                let mut i: usize = 0;
                while i < members.len()
                    invariant
                        i <= members@.len(),
                        self@ == JsonV::Object(all),
                        all.len() == members@.len(),
                        forall|k: int|
                            0 <= k < all.len() ==> #[trigger] all[k] == (MemberV {
                                name: members@[k].0@,
                                value: members@[k].1@,
                            }),
                        member_from(all, key@, 0) == member_from(all, key@, i as int),
                    decreases members.len() - i,
                {
                    assert(all[i as int].name == members@[i as int].0@);
                    if same_text(members[i].0.as_str(), key) {
                        return Some(&members[i].1);
                    }
                    i += 1;
                }
                None
            },
            _ => None,
        }
    }

    /// A copy of the tree.
    pub fn copy(&self) -> (r: Json)
        ensures
            r@ == self@,
        decreases self,
    {
        match self {
            Json::Null => Json::Null,
            Json::Bool(b) => Json::Bool(*b),
            Json::Number(n) => Json::Number(copy_number(n)),
            Json::Str(s) => Json::Str(s.clone()),
            Json::Array(v) => {
                let mut out: Vec<Json> = Vec::new();
                let mut i: usize = 0;
                while i < v.len()
                    invariant
                        i <= v@.len(),
                        out@.len() == i,
                        *self == Json::Array(*v),
                        forall|k: int| 0 <= k < i ==> (#[trigger] out@[k])@ == v@[k]@,
                    decreases v.len() - i,
                {
                    assert(self@->Array_0[i as int] == v@[i as int]@);
                    out.push(v[i].copy());
                    i += 1;
                }
                let r = Json::Array(out);
                assert(r@->Array_0 =~= self@->Array_0);
                r
            },
            Json::Object(m) => {
                let mut out: Vec<(String, Json)> = Vec::new();
                let mut i: usize = 0;
                while i < m.len()
                    invariant
                        i <= m@.len(),
                        out@.len() == i,
                        *self == Json::Object(*m),
                        forall|k: int|
                            0 <= k < i ==> (#[trigger] out@[k]).0@ == m@[k].0@ && out@[k].1@
                                == m@[k].1@,
                    decreases m.len() - i,
                {
                    assert(self@->Object_0[i as int].value == m@[i as int].1@);
                    out.push((m[i].0.clone(), m[i].1.copy()));
                    i += 1;
                }
                let r = Json::Object(out);
                assert(r@->Object_0 =~= self@->Object_0);
                r
            },
        }
    }
}

/// The tree that a `serde_json::Value` holds: its variant, an array's items and an object's members
/// in their order.
pub uninterp spec fn value_json(v: serde_json::Value) -> JsonV;

/// Makes a `serde_json::Value::Null`.
#[verifier::external_body]
fn value_null() -> (r: serde_json::Value)
    ensures
        value_json(r) == JsonV::Null,
{
    serde_json::Value::Null
}

/// Makes a `serde_json::Value::Bool`.
#[verifier::external_body]
fn value_bool(b: bool) -> (r: serde_json::Value)
    ensures
        value_json(r) == JsonV::Bool(b),
{
    serde_json::Value::Bool(b)
}

/// Makes a `serde_json::Value::Number`.
#[verifier::external_body]
fn value_number(n: serde_json::Number) -> (r: serde_json::Value)
    ensures
        value_json(r) == JsonV::Number(n),
{
    serde_json::Value::Number(n)
}

/// Makes a `serde_json::Value::String`.
#[verifier::external_body]
fn value_string(s: String) -> (r: serde_json::Value)
    ensures
        value_json(r) == JsonV::Str(s@),
{
    serde_json::Value::String(s)
}

/// Makes a `serde_json::Value::Array`, which holds the items in their order.
#[verifier::external_body]
fn value_array(items: Vec<serde_json::Value>) -> (r: serde_json::Value)
    ensures
        value_json(r) == JsonV::Array(items@.map_values(|v: serde_json::Value| value_json(v))),
{
    serde_json::Value::Array(items)
}

/// Makes a `serde_json::Value::Object` by collecting pairs into a `serde_json::Map`. With the
/// crate's `preserve_order` feature, which the grammar crate switches on, the map keeps the order in
/// which different names come.
#[verifier::external_body]
fn value_object(members: Vec<(String, serde_json::Value)>) -> (r: serde_json::Value)
    requires
        forall|i: int, j: int|
            0 <= i < j < members@.len() ==> (#[trigger] members@[i]).0@ != (
            #[trigger] members@[j]).0@,
    ensures
        value_json(r) == JsonV::Object(
            members@.map_values(|p: (String, serde_json::Value)| MemberV {
                    name: p.0@,
                    value: value_json(p.1),
                }),
        ),
{
    serde_json::Value::Object(members.into_iter().collect())
}

/// The tree in the form of the `serde_json` crate.
pub fn to_value(j: &Json) -> (r: serde_json::Value)
    requires
        json_wf(j@),
    ensures
        value_json(r) == j@,
    decreases j,
{
    match j {
        Json::Null => value_null(),
        Json::Bool(b) => value_bool(*b),
        Json::Number(n) => value_number(copy_number(n)),
        Json::Str(s) => value_string(s.clone()),
        Json::Array(v) => {
            let mut out: Vec<serde_json::Value> = Vec::new();
            let mut i: usize = 0;
            while i < v.len()
                invariant
                    i <= v@.len(),
                    out@.len() == i,
                    *j == Json::Array(*v),
                    json_wf(j@),
                    forall|k: int| 0 <= k < i ==> value_json(#[trigger] out@[k]) == v@[k]@,
                decreases v.len() - i,
            {
                assert(j@->Array_0[i as int] == v@[i as int]@);
                out.push(to_value(&v[i]));
                i += 1;
            }
            assert(out@.map_values(|x: serde_json::Value| value_json(x)) =~= j@->Array_0);
            value_array(out)
        },
        Json::Object(m) => {
            let mut out: Vec<(String, serde_json::Value)> = Vec::new();
            let mut i: usize = 0;
            while i < m.len()
                invariant
                    i <= m@.len(),
                    out@.len() == i,
                    *j == Json::Object(*m),
                    json_wf(j@),
                    forall|k: int|
                        0 <= k < i ==> (#[trigger] out@[k]).0@ == m@[k].0@ && value_json(out@[k].1)
                            == m@[k].1@,
                decreases m.len() - i,
            {
                assert(j@->Object_0[i as int].value == m@[i as int].1@);
                out.push((m[i].0.clone(), to_value(&m[i].1)));
                i += 1;
            }
            proof {
                assert(out@.map_values(
                    |p: (String, serde_json::Value)| MemberV {
                    name: p.0@,
                    value: value_json(p.1),
                },
                ) =~= j@->Object_0);
                assert forall|a: int, b: int| 0 <= a < b < out@.len() implies (
                #[trigger] out@[a]).0@ != (#[trigger] out@[b]).0@ by {
                    assert(j@->Object_0[a].name != j@->Object_0[b].name);
                }
            }
            value_object(out)
        },
    }
}

} // verus!
