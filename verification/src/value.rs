//! Session values: what a state key can hold.

use crate::name_map::NameMap;
use crate::text::same_text;
use vstd::prelude::*;

verus! {

/// A session value.
///
/// A number is held as its decimal text, and an object as its entries in the order of their
/// names.
#[derive(Debug, Eq)]
pub enum SessionValue {
    Null,
    Bool(bool),
    Number(String),
    String(String),
    Array(Vec<SessionValue>),
    Object(Vec<(String, SessionValue)>),
}

/// What a session value stands for.
pub enum Json {
    Null,
    Bool(bool),
    Number(Seq<char>),
    Text(Seq<char>),
    Array(Seq<Json>),
    Object(Seq<(Seq<char>, Json)>),
}

/// The texts of the two zeros with a fraction.
pub open spec fn is_zero(text: Seq<char>) -> bool {
    text == "0.0"@ || text == "-0.0"@
}

/// Whether two values are the same: they are equal, but for the sign of a zero with a fraction.
pub open spec fn same_json(a: Json, b: Json) -> bool
    decreases a,
{
    match (a, b) {
        (Json::Number(x), Json::Number(y)) => x == y || (is_zero(x) && is_zero(y)),
        (Json::Array(x), Json::Array(y)) => x.len() == y.len() && forall|i: int|
            0 <= i < x.len() ==> same_json(#[trigger] x[i], y[i]),
        (Json::Object(x), Json::Object(y)) => x.len() == y.len() && forall|i: int|
            0 <= i < x.len() ==> (#[trigger] x[i]).0 == y[i].0 && same_json(x[i].1, y[i].1),
        _ => a == b,
    }
}

/// A value is the same as itself.
pub proof fn lemma_same_json_reflexive(a: Json)
    ensures
        same_json(a, a),
    decreases a,
{
    match a {
        Json::Array(x) => {
            assert forall|i: int| 0 <= i < x.len() implies same_json(#[trigger] x[i], x[i]) by {
                lemma_same_json_reflexive(x[i]);
            }
        },
        Json::Object(x) => {
            assert forall|i: int| 0 <= i < x.len() implies (#[trigger] x[i]).0 == x[i].0
                && same_json(x[i].1, x[i].1) by {
                lemma_same_json_reflexive(x[i].1);
            }
        },
        _ => {},
    }
}

/// Whether a text is that of a zero with a fraction.
fn zero(text: &str) -> (result: bool)
    ensures
        result == is_zero(text@),
{
    same_text(text, "0.0") || same_text(text, "-0.0")
}

impl SessionValue {
    /// What the value stands for.
    pub open spec fn json(self) -> Json
        decreases self,
    {
        match self {
            SessionValue::Null => Json::Null,
            SessionValue::Bool(b) => Json::Bool(b),
            SessionValue::Number(n) => Json::Number(n@),
            SessionValue::String(s) => Json::Text(s@),
            SessionValue::Array(items) => Json::Array(
                Seq::new(
                    items@.len(),
                    |i: int|
                        if 0 <= i < items@.len() {
                            items@[i].json()
                        } else {
                            Json::Null
                        },
                ),
            ),
            SessionValue::Object(entries) => Json::Object(
                Seq::new(
                    entries@.len(),
                    |i: int|
                        if 0 <= i < entries@.len() {
                            (entries@[i].0@, entries@[i].1.json())
                        } else {
                            (Seq::empty(), Json::Null)
                        },
                ),
            ),
        }
    }

    /// The text of the value, if it is a text.
    pub fn as_str(&self) -> (text: Option<&str>)
        ensures
            match text {
                Some(t) => self.json() == Json::Text(t@),
                None => !(self.json() is Text),
            },
    {
        match self {
            SessionValue::String(s) => Some(s.as_str()),
            _ => None,
        }
    }

    /// Whether two values are the same.
    pub fn same(&self, other: &SessionValue) -> (same: bool)
        ensures
            same == same_json(self.json(), other.json()),
        decreases self,
    {
        match (self, other) {
            (SessionValue::Null, SessionValue::Null) => true,
            (SessionValue::Bool(a), SessionValue::Bool(b)) => *a == *b,
            (SessionValue::Number(a), SessionValue::Number(b)) => same_text(a.as_str(), b.as_str())
                || (zero(a.as_str()) && zero(b.as_str())),
            (SessionValue::String(a), SessionValue::String(b)) => same_text(a.as_str(), b.as_str()),
            (SessionValue::Array(a), SessionValue::Array(b)) => {
                let ghost left = self.json()->Array_0;
                let ghost right = other.json()->Array_0;
                if a.len() != b.len() {
                    assert(left.len() != right.len());
                    return false;
                }
                let mut i: usize = 0;
                while i < a.len()
                    invariant
                        self == SessionValue::Array(*a),
                        i <= a@.len() == b@.len() == left.len() == right.len(),
                        self.json() == Json::Array(left),
                        other.json() == Json::Array(right),
                        forall|k: int| 0 <= k < a@.len() ==> left[k] == #[trigger] a@[k].json(),
                        forall|k: int| 0 <= k < b@.len() ==> right[k] == #[trigger] b@[k].json(),
                        forall|k: int| 0 <= k < i ==> same_json(#[trigger] left[k], right[k]),
                    decreases a@.len() - i,
                {
                    assert(decreases_to!(*self => *a));
                    assert(decreases_to!(*a => a@[i as int]));
                    if !a[i].same(&b[i]) {
                        assert(!same_json(left[i as int], right[i as int]));
                        return false;
                    }
                    assert(same_json(left[i as int], right[i as int]));
                    i = i + 1;
                }
                true
            },
            (SessionValue::Object(a), SessionValue::Object(b)) => {
                let ghost left = self.json()->Object_0;
                let ghost right = other.json()->Object_0;
                if a.len() != b.len() {
                    assert(left.len() != right.len());
                    return false;
                }
                let mut i: usize = 0;
                while i < a.len()
                    invariant
                        self == SessionValue::Object(*a),
                        i <= a@.len() == b@.len() == left.len() == right.len(),
                        self.json() == Json::Object(left),
                        other.json() == Json::Object(right),
                        forall|k: int|
                            0 <= k < a@.len() ==> left[k] == (a@[k].0@, #[trigger] a@[k].1.json()),
                        forall|k: int|
                            0 <= k < b@.len() ==> right[k] == (b@[k].0@, #[trigger] b@[k].1.json()),
                        forall|k: int|
                            0 <= k < i ==> (#[trigger] left[k]).0 == right[k].0 && same_json(
                                left[k].1,
                                right[k].1,
                            ),
                    decreases a@.len() - i,
                {
                    assert(decreases_to!(*self => *a));
                    assert(decreases_to!(*a => a@[i as int]));
                    assert(decreases_to!(a@[i as int] => a@[i as int].1));
                    assert(left[i as int] == (a@[i as int].0@, a@[i as int].1.json()));
                    assert(right[i as int] == (b@[i as int].0@, b@[i as int].1.json()));
                    if !same_text(a[i].0.as_str(), b[i].0.as_str()) || !a[i].1.same(&b[i].1) {
                        assert(!(left[i as int].0 == right[i as int].0 && same_json(
                            left[i as int].1,
                            right[i as int].1,
                        )));
                        return false;
                    }
                    i = i + 1;
                }
                true
            },
            _ => false,
        }
    }

    /// A second value that stands for the same thing.
    pub fn copy(&self) -> (value: SessionValue)
        ensures
            value.json() == self.json(),
        decreases self,
    {
        match self {
            SessionValue::Null => SessionValue::Null,
            SessionValue::Bool(b) => SessionValue::Bool(*b),
            SessionValue::Number(n) => SessionValue::Number(n.clone()),
            SessionValue::String(s) => SessionValue::String(s.clone()),
            SessionValue::Array(a) => {
                let mut items: Vec<SessionValue> = Vec::new();
                let mut i: usize = 0;
                while i < a.len()
                    invariant
                        self == SessionValue::Array(*a),
                        i <= a@.len(),
                        items@.len() == i,
                        forall|k: int| 0 <= k < i ==> (#[trigger] items@[k]).json() == a@[k].json(),
                    decreases a@.len() - i,
                {
                    assert(*a == self->Array_0);
                    assert(decreases_to!(*self => *a));
                    assert(decreases_to!(*a => a@[i as int]));
                    items.push(a[i].copy());
                    i = i + 1;
                }
                let value = SessionValue::Array(items);
                assert(value.json()->Array_0 =~= self.json()->Array_0);
                value
            },
            SessionValue::Object(a) => {
                let mut items: Vec<(String, SessionValue)> = Vec::new();
                let mut i: usize = 0;
                while i < a.len()
                    invariant
                        self == SessionValue::Object(*a),
                        i <= a@.len(),
                        items@.len() == i,
                        forall|k: int|
                            0 <= k < i ==> (#[trigger] items@[k]).0@ == a@[k].0@ && items@[k].1.json()
                                == a@[k].1.json(),
                    decreases a@.len() - i,
                {
                    assert(*a == self->Object_0);
                    assert(decreases_to!(*self => *a));
                    assert(decreases_to!(*a => a@[i as int]));
                    assert(decreases_to!(a@[i as int] => a@[i as int].1));
                    items.push((a[i].0.clone(), a[i].1.copy()));
                    i = i + 1;
                }
                let value = SessionValue::Object(items);
                assert(value.json()->Object_0 =~= self.json()->Object_0);
                value
            },
        }
    }
}

impl PartialEq for SessionValue {
    fn eq(&self, other: &SessionValue) -> (result: bool) {
        self.same(other)
    }
}

impl vstd::std_specs::cmp::PartialEqSpecImpl for SessionValue {
    open spec fn obeys_eq_spec() -> bool {
        true
    }

    open spec fn eq_spec(&self, other: &SessionValue) -> bool {
        same_json(self.json(), other.json())
    }
}

impl Clone for SessionValue {
    fn clone(&self) -> (value: Self)
        ensures
            value.json() == self.json(),
    {
        self.copy()
    }
}

/// What the keys of a table of session values stand for.
pub open spec fn session_of(values: NameMap<SessionValue>) -> Map<Seq<char>, Json> {
    values@.map_values(|v: SessionValue| v.json())
}

/// A second table with the same keys and values.
pub fn copy_session(values: &NameMap<SessionValue>) -> (copy: NameMap<SessionValue>)
    ensures
        session_of(copy) == session_of(*values),
{
    let mut copy: NameMap<SessionValue> = NameMap::new();
    let mut i: usize = 0;
    let n: usize = values.len();
    while i < n
        invariant
            values.wf(),
            i <= n == values.keys().len(),
            forall|k: Seq<char>| #[trigger]
                copy@.contains_key(k) <==> values.keys().take(i as int).contains(k),
            forall|k: Seq<char>| #[trigger]
                copy@.contains_key(k) ==> values@.contains_key(k) && copy@[k].json()
                    == values@[k].json(),
        decreases n - i,
    {
        let key = values.key_at(i);
        let value = values.value_at(i).copy();
        let ghost before = copy@;
        copy.insert(key.clone(), value);
        proof {
            let taken = values.keys().take(i as int);
            let taken_next = values.keys().take(i + 1);
            assert(taken_next =~= taken.push(values.keys()[i as int]));
            assert forall|k: Seq<char>| copy@.contains_key(k) <==> taken_next.contains(k) by {
                if taken.contains(k) {
                    let p = taken.index_of(k);
                    assert(taken_next[p] == k);
                }
                if taken_next.contains(k) && k != values.keys()[i as int] {
                    let p = taken_next.index_of(k);
                    assert(taken[p] == k);
                }
                assert(taken_next[i as int] == values.keys()[i as int]);
                assert(before.contains_key(k) || k == key@ || !copy@.contains_key(k));
            }
        }
        i = i + 1;
    }
    assert(values.keys().take(n as int) =~= values.keys());
    assert(session_of(copy) =~= session_of(*values));
    copy
}

/// Two values are the same only if they are of one kind: two texts, two booleans or two numbers if
/// they are equal, where the two zeros with a fraction count as one; two lists or two objects if
/// they are so part by part, in order.
pub proof fn law_values_are_compared_by_what_they_hold(
    a: Seq<char>,
    b: Seq<char>,
    p: bool,
    q: bool,
    x: Seq<Json>,
    y: Seq<Json>,
)
    ensures
        same_json(Json::Text(a), Json::Text(b)) == (a == b),
        same_json(Json::Bool(p), Json::Bool(q)) == (p == q),
        same_json(Json::Null, Json::Null),
        same_json(Json::Number(a), Json::Number(a)),
        same_json(Json::Number("0.0"@), Json::Number("-0.0"@)),
        a != b && a != "0.0"@ && a != "-0.0"@ ==> !same_json(Json::Number(a), Json::Number(b))
            && !same_json(Json::Number(b), Json::Number(a)),
        !same_json(Json::Text(a), Json::Number(a)),
        !same_json(Json::Null, Json::Text(a)),
        !same_json(Json::Null, Json::Bool(p)),
        same_json(Json::Array(x), Json::Array(y)) == (x.len() == y.len() && forall|i: int|
            0 <= i < x.len() ==> same_json(#[trigger] x[i], y[i])),
{
}

/// Whether two values are the same does not depend on their order.
pub proof fn law_sameness_is_symmetric(a: Json, b: Json)
    ensures
        same_json(a, b) == same_json(b, a),
    decreases a,
{
    match (a, b) {
        (Json::Array(x), Json::Array(y)) => {
            if x.len() == y.len() {
                assert forall|i: int| 0 <= i < x.len() implies same_json(#[trigger] x[i], y[i])
                    == same_json(y[i], x[i]) by {
                    law_sameness_is_symmetric(x[i], y[i]);
                }
                if same_json(a, b) {
                    assert forall|i: int| 0 <= i < y.len() implies same_json(#[trigger] y[i], x[i]) by {
                        assert(same_json(x[i], y[i]));
                    }
                }
                if same_json(b, a) {
                    assert forall|i: int| 0 <= i < x.len() implies same_json(#[trigger] x[i], y[i]) by {
                        assert(same_json(y[i], x[i]));
                    }
                }
            }
        },
        (Json::Object(x), Json::Object(y)) => {
            if x.len() == y.len() {
                assert forall|i: int| 0 <= i < x.len() implies same_json((#[trigger] x[i]).1, y[i].1)
                    == same_json(y[i].1, x[i].1) by {
                    law_sameness_is_symmetric(x[i].1, y[i].1);
                }
                if same_json(a, b) {
                    assert forall|i: int| 0 <= i < y.len() implies (#[trigger] y[i]).0 == x[i].0
                        && same_json(y[i].1, x[i].1) by {
                        assert(same_json(x[i].1, y[i].1));
                    }
                }
                if same_json(b, a) {
                    assert forall|i: int| 0 <= i < x.len() implies (#[trigger] x[i]).0 == y[i].0
                        && same_json(x[i].1, y[i].1) by {
                        assert(same_json(y[i].1, x[i].1));
                    }
                }
            }
        },
        _ => {},
    }
}

/// A value stands for what it holds: a list for its items in their order, and an object for its
/// entries in their order, each with its name.
pub proof fn law_values_stand_for_what_they_hold(
    items: Vec<SessionValue>,
    entries: Vec<(String, SessionValue)>,
    text: String,
    flag: bool,
    i: int,
)
    ensures
        SessionValue::Null.json() == Json::Null,
        SessionValue::Bool(flag).json() == Json::Bool(flag),
        SessionValue::Number(text).json() == Json::Number(text@),
        SessionValue::String(text).json() == Json::Text(text@),
        SessionValue::Array(items).json() matches Json::Array(list) && list.len() == items@.len() && (0
            <= i < items@.len() ==> list[i] == items@[i].json()),
        SessionValue::Object(entries).json() matches Json::Object(list) && list.len() == entries@.len()
            && (0 <= i < entries@.len() ==> list[i] == (entries@[i].0@, entries@[i].1.json())),
{
}

} // verus!
