//! JSON values as the library reads them.
//!
//! A number is held as the text that serde_json prints for it, so that the
//! library can carry, compare and display it without floating point.

use vstd::prelude::*;

verus! {

#[derive(Debug, PartialEq)]
pub enum Json {
    Null,
    Bool(bool),
    /// The number's text, as serde_json prints it.
    Number(String),
    String(String),
    Array(Vec<Json>),
    /// Members in order; a key looked up finds its first member.
    Object(Vec<(String, Json)>),
}

/// The mathematical value of a `Json`.
pub enum JsonV {
    Null,
    Bool(bool),
    Number(Seq<char>),
    String(Seq<char>),
    Array(Seq<JsonV>),
    Object(Seq<(Seq<char>, JsonV)>),
}

pub open spec fn json_view(j: Json) -> JsonV
    decreases j,
{
    match j {
        Json::Null => JsonV::Null,
        Json::Bool(b) => JsonV::Bool(b),
        Json::Number(n) => JsonV::Number(n@),
        Json::String(s) => JsonV::String(s@),
        Json::Array(v) => JsonV::Array(
            Seq::new(
                v@.len(),
                |i: int|
                    {
                        proof {
                            broadcast use vstd::std_specs::vec::axiom_vec_index_decreases;
                        }
                        if 0 <= i < v@.len() {
                            json_view(v[i])
                        } else {
                            JsonV::Null
                        }
                    },
            ),
        ),
        Json::Object(v) => JsonV::Object(
            Seq::new(
                v@.len(),
                |i: int|
                    {
                        proof {
                            broadcast use vstd::std_specs::vec::axiom_vec_index_decreases;
                        }
                        if 0 <= i < v@.len() {
                            (v[i].0@, json_view(v[i].1))
                        } else {
                            (Seq::empty(), JsonV::Null)
                        }
                    },
            ),
        ),
    }
}

impl View for Json {
    type V = JsonV;

    open spec fn view(&self) -> JsonV {
        json_view(*self)
    }
}

} // verus!

verus! {

broadcast use vstd::std_specs::vec::axiom_vec_index_decreases;

impl Json {
    /// A copy with the same value.
    #[verifier::loop_isolation(false)]
    pub fn deep_clone(&self) -> (r: Json)
        ensures
            r@ == self@,
        decreases self,
    {
        match self {
            Json::Null => Json::Null,
            Json::Bool(b) => Json::Bool(*b),
            Json::Number(n) => Json::Number(n.clone()),
            Json::String(s) => Json::String(s.clone()),
            Json::Array(v) => {
                let mut out: Vec<Json> = Vec::new();
                let mut i: usize = 0;
                while i < v.len()
                    invariant
                        i <= v.len(),
                        out@.len() == i,
                        forall|k: int| 0 <= k < i ==> #[trigger] out@[k]@ == v@[k]@,
                    decreases v.len() - i,
                {
                    out.push(v[i].deep_clone());
                    i = i + 1;
                }
                let r = Json::Array(out);
                assert(r@ == self@) by {
                    assert forall|k: int| 0 <= k < out@.len() implies json_view(r)->Array_0[k]
                        == json_view(*self)->Array_0[k] by {
                        assert(out@[k]@ == v@[k]@);
                    }
                    assert(json_view(r)->Array_0 =~= json_view(*self)->Array_0);
                }
                r
            },
            Json::Object(v) => {
                let mut out: Vec<(String, Json)> = Vec::new();
                let mut i: usize = 0;
                while i < v.len()
                    invariant
                        i <= v.len(),
                        out@.len() == i,
                        forall|k: int| 0 <= k < i ==> #[trigger] out@[k].0@ == v@[k].0@ && out@[k].1@ == v@[k].1@,
                    decreases v.len() - i,
                {
                    out.push((v[i].0.clone(), v[i].1.deep_clone()));
                    i = i + 1;
                }
                let r = Json::Object(out);
                assert(r@ == self@) by {
                    assert(json_view(r)->Object_0 =~= json_view(*self)->Object_0);
                }
                r
            },
        }
    }

    /// Whether two values are equal (as `serde_json::Value` compares them).
    #[verifier::loop_isolation(false)]
    pub fn json_eq(&self, other: &Json) -> (r: bool)
        ensures
            r == (self@ == other@),
        decreases self,
    {
        match (self, other) {
            (Json::Null, Json::Null) => true,
            (Json::Bool(a), Json::Bool(b)) => *a == *b,
            (Json::Number(a), Json::Number(b)) => *a == *b,
            (Json::String(a), Json::String(b)) => *a == *b,
            (Json::Array(a), Json::Array(b)) => {
                if a.len() != b.len() {
                    assert(json_view(*self)->Array_0.len() != json_view(*other)->Array_0.len());
                    return false;
                }
                let mut i: usize = 0;
                while i < a.len()
                    invariant
                        i <= a.len(),
                        a.len() == b.len(),
                        forall|k: int| 0 <= k < i ==> #[trigger] a@[k]@ == b@[k]@,
                    decreases a.len() - i,
                {
                    if !a[i].json_eq(&b[i]) {
                        assert(json_view(*self)->Array_0[i as int] != json_view(*other)->Array_0[i as int]);
                        return false;
                    }
                    i = i + 1;
                }
                assert forall|k: int| 0 <= k < a@.len() implies json_view(*self)->Array_0[k]
                    == json_view(*other)->Array_0[k] by {
                    assert(a@[k]@ == b@[k]@);
                }
                assert(json_view(*self)->Array_0 =~= json_view(*other)->Array_0);
                true
            },
            (Json::Object(a), Json::Object(b)) => {
                if a.len() != b.len() {
                    assert(json_view(*self)->Object_0.len() != json_view(*other)->Object_0.len());
                    return false;
                }
                let mut i: usize = 0;
                while i < a.len()
                    invariant
                        i <= a.len(),
                        a.len() == b.len(),
                        forall|k: int| #![trigger a@[k]] 0 <= k < i ==> a@[k].0@ == b@[k].0@ && a@[k].1@ == b@[k].1@,
                    decreases a.len() - i,
                {
                    let same_key = a[i].0 == b[i].0;
                    if !same_key {
                        assert(json_view(*self)->Object_0[i as int].0 != json_view(*other)->Object_0[i as int].0);
                        return false;
                    }
                    let same_value = a[i].1.json_eq(&b[i].1);
                    if !same_value {
                        assert(json_view(*self)->Object_0[i as int].1 != json_view(*other)->Object_0[i as int].1);
                        return false;
                    }
                    assert(a@[i as int].0@ == b@[i as int].0@ && a@[i as int].1@ == b@[i as int].1@);
                    i = i + 1;
                }
                assert(json_view(*self)->Object_0 =~= json_view(*other)->Object_0);
                true
            },
            _ => false,
        }
    }
}

} // verus!

verus! {

impl Clone for Json {
    fn clone(&self) -> (r: Json)
        ensures
            r@ == self@,
    {
        self.deep_clone()
    }
}

} // verus!
