use vstd::prelude::*;
use crate::json::{json_text, push_json};
use crate::text::string_of;

verus! {

/// The mathematical model of an environment value.
pub enum Json {
    Null,
    Bool(bool),
    Num(int),
    Str(Seq<char>),
    Arr(Seq<Json>),
    Obj(Seq<(Seq<char>, Json)>),
}

/// A dynamically typed value: what expressions are evaluated against and what they yield.
/// An object is a list of entries; a lookup by key finds the first entry with that key.
#[derive(Debug, PartialEq)]
pub enum Value {
    Null,
    Bool(bool),
    Number(i64),
    Str(String),
    Array(Vec<Value>),
    Object(Vec<(String, Value)>),
}

pub open spec fn values_view(s: Seq<Value>) -> Seq<Json>
    decreases s,
{
    Seq::new(s.len(), |i: int| if 0 <= i < s.len() { s[i].view_json() } else { Json::Null })
}

pub open spec fn entries_view(s: Seq<(String, Value)>) -> Seq<(Seq<char>, Json)>
    decreases s,
{
    Seq::new(
        s.len(),
        |i: int|
            if 0 <= i < s.len() {
                (s[i].0@, s[i].1.view_json())
            } else {
                (Seq::empty(), Json::Null)
            },
    )
}

impl Value {
    pub open spec fn view_json(&self) -> Json
        decreases self,
    {
        match self {
            Value::Null => Json::Null,
            Value::Bool(b) => Json::Bool(*b),
            Value::Number(n) => Json::Num(*n as int),
            Value::Str(s) => Json::Str(s@),
            Value::Array(v) => Json::Arr(values_view(v@)),
            Value::Object(v) => Json::Obj(entries_view(v@)),
        }
    }

    /// A copy of the whole value.
    pub fn deep_clone(&self) -> (r: Value)
        ensures
            r.view_json() == self.view_json(),
        decreases self,
    {
        match self {
            Value::Null => Value::Null,
            Value::Bool(b) => Value::Bool(*b),
            Value::Number(n) => Value::Number(*n),
            Value::Str(s) => Value::Str(s.clone()),
            Value::Array(v) => {
                let mut out: Vec<Value> = Vec::new();
                let mut i: usize = 0;
                while i < v.len()
                    invariant
                        i <= v.len(),
                        out@.len() == i,
                        *self == Value::Array(*v),
                        forall|j: int| 0 <= j < i ==> #[trigger] out@[j].view_json() == v@[j].view_json(),
                    decreases v.len() - i,
                {
                    proof {
                        broadcast use vstd::std_specs::vec::axiom_vec_index_decreases;
                        assert(decreases_to!(*self => (*self)->Array_0));
                        assert(decreases_to!(*v => v[i as int]));
                    }
                    let c = v[i].deep_clone();
                    out.push(c);
                    i = i + 1;
                }
                assert(values_view(out@) =~= values_view(v@)) by {
                    assert forall|j: int| 0 <= j < v@.len() implies #[trigger] values_view(out@)[j]
                        == values_view(v@)[j] by {
                        assert(out@[j].view_json() == v@[j].view_json());
                    }
                }
                Value::Array(out)
            },
            Value::Object(v) => {
                let mut out: Vec<(String, Value)> = Vec::new();
                let mut i: usize = 0;
                while i < v.len()
                    invariant
                        i <= v.len(),
                        out@.len() == i,
                        *self == Value::Object(*v),
                        forall|j: int|
                            0 <= j < i ==> #[trigger] out@[j].0@ == v@[j].0@ && out@[j].1.view_json()
                                == v@[j].1.view_json(),
                    decreases v.len() - i,
                {
                    let k = v[i].0.clone();
                    proof {
                        broadcast use vstd::std_specs::vec::axiom_vec_index_decreases;
                        assert(decreases_to!(*self => (*self)->Object_0));
                        assert(decreases_to!(*v => v[i as int]));
                        assert(decreases_to!(v[i as int] => v[i as int].1));
                    }
                    let c = v[i].1.deep_clone();
                    out.push((k, c));
                    i = i + 1;
                }
                assert(entries_view(out@) =~= entries_view(v@)) by {
                    assert forall|j: int| 0 <= j < v@.len() implies #[trigger] entries_view(out@)[j]
                        == entries_view(v@)[j] by {
                        assert(out@[j].0@ == v@[j].0@);
                    }
                }
                Value::Object(out)
            },
        }
    }
}

/// The index of the first entry whose key is `key`.
pub open spec fn first_key(entries: Seq<(Seq<char>, Json)>, key: Seq<char>) -> Option<int>
    decreases entries.len(),
{
    if entries.len() == 0 {
        None
    } else {
        match first_key(entries.drop_last(), key) {
            Some(i) => Some(i),
            None => if entries.last().0 == key {
                Some(entries.len() - 1)
            } else {
                None
            },
        }
    }
}

/// What `key` names in `v`, when `v` is an object that has it.
pub open spec fn get_key(v: Json, key: Seq<char>) -> Option<Json> {
    match v {
        Json::Obj(entries) => match first_key(entries, key) {
            Some(i) => Some(entries[i].1),
            None => None,
        },
        _ => None,
    }
}

proof fn lemma_first_key_at(entries: Seq<(Seq<char>, Json)>, key: Seq<char>, i: int)
    requires
        0 <= i < entries.len(),
        entries[i].0 == key,
        forall|j: int| 0 <= j < i ==> entries[j].0 != key,
    ensures
        first_key(entries, key) == Some(i),
    decreases entries.len(),
{
    let d = entries.drop_last();
    if i < entries.len() - 1 {
        lemma_first_key_at(d, key, i);
    } else {
        lemma_first_key_none(d, key);
    }
}

proof fn lemma_first_key_none(entries: Seq<(Seq<char>, Json)>, key: Seq<char>)
    requires
        forall|j: int| 0 <= j < entries.len() ==> entries[j].0 != key,
    ensures
        first_key(entries, key) is None,
    decreases entries.len(),
{
    if entries.len() > 0 {
        lemma_first_key_none(entries.drop_last(), key);
    }
}

/// The text form of a value: a text as it is, anything else as its compact JSON text (a number
/// in decimal, `true`, `false`, `null`, arrays and objects in brackets and braces).
pub open spec fn text_form(v: Json) -> Seq<char> {
    match v {
        Json::Str(t) => t,
        _ => json_text(v),
    }
}

impl Value {
    /// The text form of this value.
    pub fn text_form(&self) -> (r: String)
        ensures
            r@ == text_form(self.view_json()),
    {
        match self {
            Value::Str(s) => s.clone(),
            _ => {
                let mut out: Vec<char> = Vec::new();
                push_json(&mut out, self);
                assert(out@ =~= json_text(self.view_json()));
                string_of(&out)
            },
        }
    }

    /// The entry of this object under `key`: `None` when this is no object or lacks the key.
    pub fn get(&self, key: &String) -> (r: Option<&Value>)
        ensures
            r is Some <==> get_key(self.view_json(), key@) is Some,
            r is Some ==> get_key(self.view_json(), key@) == Some(r->Some_0.view_json()),
    {
        match self {
            Value::Object(v) => {
                let ghost ev = entries_view(v@);
                let mut i: usize = 0;
                while i < v.len()
                    invariant
                        i <= v.len(),
                        ev == entries_view(v@),
                        *self == Value::Object(*v),
                        forall|j: int| 0 <= j < i ==> ev[j].0 != key@,
                    decreases v.len() - i,
                {
                    assert(ev[i as int] == (v@[i as int].0@, v@[i as int].1.view_json()));
                    if v[i].0.eq(key) {
                        proof {
                            lemma_first_key_at(ev, key@, i as int);
                            assert(self.view_json() == Json::Obj(ev));
                        }
                        return Some(&v[i].1);
                    }
                    i = i + 1;
                }
                proof {
                    lemma_first_key_none(ev, key@);
                    assert(self.view_json() == Json::Obj(ev));
                }
                None
            },
            _ => None,
        }
    }
}

} // verus!
