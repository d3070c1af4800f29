//! JSON texts of sessions and of lists.

use crate::name_map::{ascending, NameMap};
use crate::state::merged;
use crate::text::{decimal, texts};
use crate::value::{session_of, Json, SessionValue};
use vstd::prelude::*;

verus! {

/// `serde_json::Error`.
#[verifier::external_type_specification]
#[verifier::external_body]
pub struct ExJsonError(serde_json::Error);

/// `serde_json::Value`.
#[verifier::external_type_specification]
#[verifier::external_body]
pub struct ExJsonValue(serde_json::Value);

/// What `serde_json::to_string` makes of a list of texts.
pub uninterp spec fn json_list(list: Seq<Seq<char>>) -> Seq<char>;

/// The object that `serde_json::from_str` reads from a text, or nothing where it reads none.
pub uninterp spec fn json_object(text: Seq<char>) -> Option<Map<Seq<char>, Json>>;

/// What `serde_json::to_string_pretty` makes of a session.
pub uninterp spec fn json_text(session: Map<Seq<char>, Json>) -> Seq<char>;

/// Whether a text is that of a number: an integer that a `u64` or an `i64` holds, or a finite one
/// with a fraction or an exponent, as `str::parse` reads it.
pub uninterp spec fn is_number_text(text: Seq<char>) -> bool;

/// How deep arrays and objects may stand in one another for a text of them to be read again.
pub const MAX_DEPTH: usize = 127;

/// The decimal form of an integer that a `u64` or an `i64` holds.
pub open spec fn is_integer_text(text: Seq<char>) -> bool {
    ||| exists|n: u64| text == #[trigger] decimal(n as nat)
    ||| exists|n: u64| 0 < n <= 0x8000_0000_0000_0000 && text == "-"@ + #[trigger] decimal(n as nat)
}

/// The keys of an object, in its order.
pub open spec fn entry_keys(entries: Seq<(Seq<char>, Json)>) -> Seq<Seq<char>> {
    Seq::new(entries.len(), |i: int| entries[i].0)
}

/// A value that JSON holds as it is: its numbers are integers, its objects have their keys in
/// order, and it goes no deeper than `depth`.
pub open spec fn is_storable(value: Json, depth: nat) -> bool
    decreases depth,
{
    match value {
        Json::Number(text) => is_integer_text(text),
        Json::Array(items) => depth > 0 && forall|i: int|
            0 <= i < items.len() ==> is_storable(#[trigger] items[i], (depth - 1) as nat),
        Json::Object(entries) => depth > 0 && ascending(entry_keys(entries)) && forall|i: int|
            0 <= i < entries.len() ==> is_storable((#[trigger] entries[i]).1, (depth - 1) as nat),
        _ => true,
    }
}

/// A session that JSON holds as it is.
pub open spec fn is_storable_session(session: Map<Seq<char>, Json>) -> bool {
    forall|key: Seq<char>| #[trigger]
        session.contains_key(key) ==> is_storable(session[key], (MAX_DEPTH - 1) as nat)
}

/// A value that can be written as JSON: its numbers are numbers.
pub open spec fn is_writable(value: Json) -> bool
    decreases value,
{
    match value {
        Json::Number(text) => is_number_text(text),
        Json::Array(items) => forall|i: int|
            0 <= i < items.len() ==> is_writable(#[trigger] items[i]),
        Json::Object(entries) => forall|i: int|
            0 <= i < entries.len() ==> is_writable((#[trigger] entries[i]).1),
        _ => true,
    }
}

/// A session that can be written as JSON.
pub open spec fn is_writable_session(session: Map<Seq<char>, Json>) -> bool {
    forall|key: Seq<char>| #[trigger] session.contains_key(key) ==> is_writable(session[key])
}

/// The session that pairs of keys and values stand for: of two values for a key the later counts.
pub open spec fn pairs_session(pairs: Seq<(String, SessionValue)>) -> Map<Seq<char>, Json>
    decreases pairs.len(),
{
    if pairs.len() == 0 {
        Map::empty()
    } else {
        pairs_session(pairs.drop_last()).insert(pairs.last().0@, pairs.last().1.json())
    }
}

/// Whether every value of the pairs can be written as JSON.
pub open spec fn are_writable(pairs: Seq<(String, SessionValue)>) -> bool {
    forall|i: int| 0 <= i < pairs.len() ==> is_writable((#[trigger] pairs[i]).1.json())
}

/// Whether JSON holds every value of the pairs as it is.
pub open spec fn are_storable(pairs: Seq<(String, SessionValue)>) -> bool {
    forall|i: int|
        0 <= i < pairs.len() ==> is_storable((#[trigger] pairs[i]).1.json(), (MAX_DEPTH - 1) as nat)
}

/// `serde_json::to_string` on a list of strings: the JSON text of the list. It does not fail,
/// since a string can be written and a string can hold what is written.
#[verifier::external_body]
pub(crate) fn json_list_text(list: &Vec<String>) -> (result: Result<String, serde_json::Error>)
    ensures
        result is Ok,
        result matches Ok(text) ==> text@ == json_list(texts(list@)),
{
    serde_json::to_string(list)
}

/// `serde_json::Value`, variant by variant, as a session value. Nothing is claimed of the result:
/// it is named where the whole text is read.
#[verifier::external_body]
fn session_value(value: serde_json::Value) -> SessionValue {
    match value {
        serde_json::Value::Null => SessionValue::Null,
        serde_json::Value::Bool(b) => SessionValue::Bool(b),
        serde_json::Value::Number(n) => SessionValue::Number(n.to_string()),
        serde_json::Value::String(s) => SessionValue::String(s),
        serde_json::Value::Array(items) => {
            SessionValue::Array(items.into_iter().map(session_value).collect())
        }
        serde_json::Value::Object(entries) => {
            SessionValue::Object(entries.into_iter().map(|(k, v)| (k, session_value(v))).collect())
        }
    }
}

/// `serde_json::from_str` into a JSON object: the keys and values of the object that the text
/// holds, each value as a session value, whose numbers are numbers; an error where the text is not
/// a JSON object.
#[verifier::external_body]
fn read_json_pairs(text: &str) -> (result: Result<Vec<(String, SessionValue)>, serde_json::Error>)
    ensures
        match result {
            Ok(pairs) => json_object(text@) == Some(pairs_session(pairs@)),
            Err(_) => json_object(text@) is None,
        },
        result matches Ok(pairs) ==> are_writable(pairs@),
{
    let object: serde_json::Map<String, serde_json::Value> = serde_json::from_str(text)?;
    Ok(object.into_iter().map(|(key, value)| (key, session_value(value))).collect())
}

/// `serde_json::Number`.
#[verifier::external_type_specification]
#[verifier::external_body]
pub struct ExJsonNumber(serde_json::Number);

/// `serde_json::Number::from` and `serde_json::Number::from_f64` on what `str::parse` reads: the
/// number of a text, where it is that of a number. The decimal form of an integer always is.
#[verifier::external_body]
fn read_number(text: &str) -> (number: Option<serde_json::Number>)
    ensures
        number is Some <==> is_number_text(text@),
        is_integer_text(text@) ==> number is Some,
{
    let natural = text.parse::<u64>().map(serde_json::Number::from).ok();
    let whole = natural.or_else(|| text.parse::<i64>().map(serde_json::Number::from).ok());
    whole.or_else(|| text.parse().ok().and_then(serde_json::Number::from_f64))
}

/// A session value, variant by variant, as a `serde_json::Value`; nothing where a number in it is
/// none. Nothing else is claimed of the result: it is named where the whole session is written.
#[verifier::external_body]
fn json_value(value: &SessionValue) -> (result: Option<serde_json::Value>)
    ensures
        result is Some <==> is_writable(value.json()),
{
    Some(match value {
        SessionValue::Null => serde_json::Value::Null,
        SessionValue::Bool(b) => serde_json::Value::Bool(*b),
        SessionValue::Number(n) => serde_json::Value::Number(read_number(n)?),
        SessionValue::String(s) => serde_json::Value::String(s.clone()),
        SessionValue::Array(items) => {
            serde_json::Value::Array(items.iter().map(json_value).collect::<Option<_>>()?)
        }
        SessionValue::Object(entries) => serde_json::Value::Object(
            entries.iter().map(|(k, v)| Some((k.clone(), json_value(v)?))).collect::<Option<_>>()?,
        ),
    })
}

/// `serde_json::to_string_pretty` on a JSON object: the text of the session that pairs stand for.
/// A text comes of them where every number is one. Where JSON holds every value as it is,
/// `serde_json::from_str` reads that session from the text again. Left open is what is read from
/// the text where a number has a fraction or an exponent: such a number may be rounded.
#[verifier::external_body]
fn write_json_pairs(pairs: &Vec<(String, SessionValue)>) -> (result: Option<String>)
    ensures
        result is Some <==> are_writable(pairs@),
        are_storable(pairs@) ==> result is Some,
        result matches Some(text) ==> text@ == json_text(pairs_session(pairs@)) && (are_storable(
            pairs@,
        ) ==> json_object(text@) == Some(pairs_session(pairs@))),
{
    let object: serde_json::Map<String, serde_json::Value> =
        pairs.iter().map(|(k, v)| Some((k.clone(), json_value(v)?))).collect::<Option<_>>()?;
    serde_json::to_string_pretty(&object).ok()
}

proof fn lemma_pairs(pairs: Seq<(String, SessionValue)>)
    ensures
        forall|key: Seq<char>| #[trigger]
            pairs_session(pairs).contains_key(key) ==> exists|i: int|
                0 <= i < pairs.len() && (#[trigger] pairs[i]).0@ == key && pairs[i].1.json()
                    == pairs_session(pairs)[key],
    decreases pairs.len(),
{
    if pairs.len() > 0 {
        let before = pairs.drop_last();
        lemma_pairs(before);
        assert forall|key: Seq<char>| #[trigger] pairs_session(pairs).contains_key(key) implies exists|
            i: int,
        |
            0 <= i < pairs.len() && (#[trigger] pairs[i]).0@ == key && pairs[i].1.json()
                == pairs_session(pairs)[key] by {
            if key == pairs.last().0@ {
                assert(pairs[pairs.len() - 1].0@ == key);
            } else {
                assert(pairs_session(before).contains_key(key));
                let i = choose|i: int|
                    0 <= i < before.len() && (#[trigger] before[i]).0@ == key && before[i].1.json()
                        == pairs_session(before)[key];
                assert(pairs[i] == before[i]);
            }
        }
    }
}

/// The session that a text holds as a JSON object.
pub(crate) fn read_json_object(text: &str) -> (result: Option<NameMap<SessionValue>>)
    ensures
        match result {
            Some(values) => json_object(text@) == Some(session_of(values)) && is_writable_session(
                session_of(values),
            ),
            None => json_object(text@) is None,
        },
{
    let pairs = match read_json_pairs(text) {
        Ok(pairs) => pairs,
        Err(_) => {
            return None;
        },
    };
    let mut values: NameMap<SessionValue> = NameMap::new();
    let mut i: usize = 0;
    assert(session_of(values) =~= pairs_session(pairs@.take(0)));
    while i < pairs.len()
        invariant
            i <= pairs@.len(),
            session_of(values) == pairs_session(pairs@.take(i as int)),
        decreases pairs@.len() - i,
    {
        let ghost before = values@;
        let value = pairs[i].1.copy();
        values.insert(pairs[i].0.clone(), value);
        proof {
            let taken = pairs@.take(i + 1);
            assert(taken.drop_last() =~= pairs@.take(i as int));
            assert(taken.last() == pairs@[i as int]);
            assert(session_of(values) =~= pairs_session(taken));
        }
        i = i + 1;
    }
    proof {
        assert(pairs@.take(i as int) =~= pairs@);
        lemma_pairs(pairs@);
    }
    Some(values)
}

/// The text of a session as a JSON object.
pub(crate) fn write_json_object(values: &NameMap<SessionValue>) -> (result: Option<String>)
    ensures
        result is Some <==> is_writable_session(session_of(*values)),
        is_storable_session(session_of(*values)) ==> result is Some,
        result matches Some(text) ==> text@ == json_text(session_of(*values)) && (
        is_storable_session(session_of(*values)) ==> json_object(text@) == Some(
            session_of(*values),
        )),
{
    let ghost session = session_of(*values);
    let ghost keys = values.keys();
    let n: usize = values.len();
    let mut pairs: Vec<(String, SessionValue)> = Vec::new();
    let mut i: usize = 0;
    assert(pairs_session(pairs@) =~= session.restrict(keys.take(0).to_set()));
    while i < n
        invariant
            values.wf(),
            session == session_of(*values),
            keys == values.keys(),
            i <= n == keys.len(),
            pairs@.len() == i,
            forall|k: int|
                0 <= k < i ==> session.contains_key((#[trigger] pairs@[k]).0@) && session[pairs@[k].0@]
                    == pairs@[k].1.json(),
            pairs_session(pairs@) == session.restrict(keys.take(i as int).to_set()),
        decreases n - i,
    {
        let key = values.key_at(i);
        let value = values.value_at(i).copy();
        let ghost before = pairs@;
        pairs.push((key.clone(), value));
        proof {
            assert(session.contains_key(key@) && session[key@] == value.json());
            assert(pairs@.drop_last() =~= before);
            let part = keys.take(i as int);
            let longer = keys.take(i + 1);
            assert(longer =~= part.push(key@));
            assert forall|k: Seq<char>| #[trigger] longer.to_set().contains(k) <==> part.to_set().contains(
                k,
            ) || k == key@ by {
                if part.contains(k) {
                    assert(longer[part.index_of(k)] == k);
                }
                assert(longer[i as int] == key@);
                if longer.contains(k) && k != key@ {
                    assert(part[longer.index_of(k)] == k);
                }
            }
            assert(pairs_session(pairs@) =~= session.restrict(longer.to_set()));
        }
        i = i + 1;
    }
    proof {
        assert(keys.take(n as int) =~= keys);
        values.lemma_names();
        assert(session.restrict(keys.to_set()) =~= session);
        lemma_pairs(pairs@);
        assert(are_writable(pairs@) == is_writable_session(session));
        assert(are_storable(pairs@) == is_storable_session(session));
    }
    write_json_pairs(&pairs)
}

/// A session that can be written stays so when a text is written or an object that can be written
/// is merged into it.
pub proof fn law_sessions_stay_writable(
    session: Map<Seq<char>, Json>,
    object: Map<Seq<char>, Json>,
    key: Seq<char>,
    text: Seq<char>,
)
    requires
        is_writable_session(session),
        is_writable_session(object),
    ensures
        is_writable_session(session.insert(key, Json::Text(text))),
        is_writable_session(merged(session, object)),
{
}

/// A value can be written if and only if every number in it can, wherever in it the number stands;
/// and JSON holds a list or an object as it is if and only if it holds so each value in it.
pub proof fn law_values_are_written_by_their_parts(
    items: Seq<Json>,
    entries: Seq<(Seq<char>, Json)>,
    text: Seq<char>,
    depth: nat,
)
    ensures
        is_writable(Json::Number(text)) <==> is_number_text(text),
        is_writable(Json::Text(text)) && is_writable(Json::Null),
        is_writable(Json::Array(items)) <==> forall|i: int|
            0 <= i < items.len() ==> is_writable(#[trigger] items[i]),
        is_writable(Json::Object(entries)) <==> forall|i: int|
            0 <= i < entries.len() ==> is_writable((#[trigger] entries[i]).1),
        is_storable(Json::Text(text), depth) && is_storable(Json::Null, depth),
        is_storable(Json::Array(items), depth + 1) <==> forall|i: int|
            0 <= i < items.len() ==> is_storable(#[trigger] items[i], depth),
        is_storable(Json::Object(entries), depth + 1) <==> ascending(
            Seq::new(entries.len(), |i: int| entries[i].0),
        ) && forall|i: int| 0 <= i < entries.len() ==> is_storable((#[trigger] entries[i]).1, depth),
        !is_storable(Json::Array(items), 0) && !is_storable(Json::Object(entries), 0),
{
    let list = Json::Array(items);
    let object = Json::Object(entries);
    if is_writable(list) {
        assert forall|i: int| 0 <= i < items.len() implies is_writable(#[trigger] items[i]) by {
            assert(list->Array_0[i] == items[i]);
        }
    }
    if is_writable(object) {
        assert forall|i: int| 0 <= i < entries.len() implies is_writable((#[trigger] entries[i]).1) by {
            assert(object->Object_0[i] == entries[i]);
        }
    }
    if forall|i: int| 0 <= i < items.len() ==> is_writable(#[trigger] items[i]) {
        assert(is_writable(list));
    }
    if forall|i: int| 0 <= i < entries.len() ==> is_writable((#[trigger] entries[i]).1) {
        assert(is_writable(object));
    }
}

/// The decimal form of every integer that fits is that of an integer, with a hyphen in front where
/// it is negative.
pub proof fn law_integers_are_held(n: u64, m: u64)
    ensures
        is_integer_text(decimal(n as nat)),
        0 < m && m <= 0x8000_0000_0000_0000 ==> is_integer_text(seq!['-'] + decimal(m as nat)),
{
    reveal_strlit("-");
    assert("-"@ =~= seq!['-']);
    assert(decimal(n as nat) == decimal(n as nat));
    if 0 < m && m <= 0x8000_0000_0000_0000 {
        assert(seq!['-'] + decimal(m as nat) == "-"@ + decimal(m as nat));
    }
}

} // verus!
