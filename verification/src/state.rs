//! The session state: what its keys hold, and when it is to be saved.

use crate::json::{
    is_storable_session, is_writable_session, json_object, json_text, read_json_object,
    write_json_object,
};
use crate::name_map::{lemma_ascending_unique, NameMap};
use crate::template::{
    is_key, law_references_stand_for_the_text_of_their_key, reference_to, render_template_values,
    rendered,
};
use crate::text::same_text;
use crate::value::{
    copy_session, lemma_same_json_reflexive, same_json, session_of, Json, SessionValue,
};
use vstd::prelude::*;

verus! {

/// Why the session state cannot be loaded or saved.
#[derive(Debug, Clone, PartialEq, Eq)]
pub enum StateError {
    /// The file does not hold a JSON object.
    NotAnObject { path: String },
    /// A number of the state is none to JSON.
    NotJson,
}

impl StateError {
    /// The text of the error.
    pub fn message(&self) -> (text: String)
        ensures
            text@ == match *self {
                StateError::NotAnObject { path } => "failed to parse state file "@ + path@,
                StateError::NotJson => "session state cannot be written as JSON"@,
            },
    {
        match self {
            StateError::NotAnObject { path } => "failed to parse state file ".to_owned().concat(
                path.as_str(),
            ),
            StateError::NotJson => "session state cannot be written as JSON".to_owned(),
        }
    }
}

/// The text that a key of a session holds.
pub open spec fn text_held(session: Map<Seq<char>, Json>, key: Seq<char>) -> Option<Seq<char>> {
    if session.contains_key(key) {
        match session[key] {
            Json::Text(text) => Some(text),
            _ => None,
        }
    } else {
        None
    }
}

/// Whether a key holds a value already.
pub open spec fn holds(session: Map<Seq<char>, Json>, key: Seq<char>, value: Json) -> bool {
    session.contains_key(key) && same_json(session[key], value)
}

/// The session after a key has been given a value: where it holds the value already, it keeps what
/// it holds.
pub open spec fn written(session: Map<Seq<char>, Json>, key: Seq<char>, value: Json) -> Map<
    Seq<char>,
    Json,
> {
    if holds(session, key, value) {
        session
    } else {
        session.insert(key, value)
    }
}

/// What an object holds that a session does not hold already.
pub open spec fn news(session: Map<Seq<char>, Json>, object: Map<Seq<char>, Json>) -> Map<
    Seq<char>,
    Json,
> {
    object.restrict(object.dom().filter(|key: Seq<char>| !holds(session, key, object[key])))
}

/// The session after each key of an object has been given its value.
pub open spec fn merged(session: Map<Seq<char>, Json>, object: Map<Seq<char>, Json>) -> Map<
    Seq<char>,
    Json,
> {
    session.union_prefer_right(news(session, object))
}

/// Whether two sessions hold the same.
pub open spec fn same_session(a: Map<Seq<char>, Json>, b: Map<Seq<char>, Json>) -> bool {
    a.dom() == b.dom() && forall|key: Seq<char>| #[trigger]
        a.contains_key(key) ==> same_json(a[key], b[key])
}

/// Writing a text leaves exactly that text.
pub proof fn lemma_text_written(session: Map<Seq<char>, Json>, key: Seq<char>, text: Seq<char>)
    ensures
        written(session, key, Json::Text(text)) == session.insert(key, Json::Text(text)),
{
    if holds(session, key, Json::Text(text)) {
        assert(session[key] == Json::Text(text));
        assert(session.insert(key, Json::Text(text)) =~= session);
    }
}

/// The session state, and the file that it is saved to.
#[derive(Debug)]
pub struct SessionState {
    path: String,
    values: NameMap<SessionValue>,
}

impl SessionState {
    /// What the keys hold.
    pub closed spec fn view(&self) -> Map<Seq<char>, Json> {
        session_of(self.values)
    }

    /// The file that the state is saved to.
    pub closed spec fn file(&self) -> Seq<char> {
        self.path@
    }

    /// The state with these values, or an empty one where there are none.
    pub fn with_values(path: String, stored: Option<NameMap<SessionValue>>) -> (state: Self)
        ensures
            state.file() == path@,
            state@ == match stored {
                Some(values) => session_of(values),
                None => Map::<Seq<char>, Json>::empty(),
            },
    {
        let values = match stored {
            Some(values) => values,
            None => NameMap::new(),
        };
        let state = SessionState { path, values };
        assert(stored is None ==> state@ =~= Map::<Seq<char>, Json>::empty());
        state
    }

    /// The state that a file holds as this text, or an empty one where there is no file yet.
    pub fn load(path: String, stored: Option<&str>) -> (result: Result<Self, StateError>)
        ensures
            match stored {
                Some(text) => match json_object(text@) {
                    Some(session) => result matches Ok(state) && state.file() == path@ && state@
                        == session && is_writable_session(session),
                    None => result matches Err(StateError::NotAnObject { path: p }) && p@ == path@,
                },
                None => result matches Ok(state) && state.file() == path@ && state@ == Map::<
                    Seq<char>,
                    Json,
                >::empty(),
            },
    {
        match stored {
            Some(text) => match read_json_object(text) {
                Some(values) => Ok(SessionState::with_values(path, Some(values))),
                None => Err(StateError::NotAnObject { path }),
            },
            None => Ok(SessionState::with_values(path, None)),
        }
    }

    /// The text that the state is saved as; an error where a number of the state is none. Loading
    /// a text gives back the state that it was made of: all of it, where JSON holds it as it is.
    pub fn saved(&self) -> (result: Result<String, StateError>)
        ensures
            is_storable_session(self@) ==> result is Ok,
            match result {
                Ok(text) => {
                    &&& is_writable_session(self@)
                    &&& text@ == json_text(self@)
                    &&& is_storable_session(self@) ==> json_object(text@) == Some(self@)
                },
                Err(error) => error == StateError::NotJson && !is_writable_session(self@),
            },
    {
        match write_json_object(&self.values) {
            Some(text) => Ok(text),
            None => Err(StateError::NotJson),
        }
    }

    /// The file that the state is saved to.
    pub fn path(&self) -> (path: &str)
        ensures
            path@ == self.file(),
    {
        self.path.as_str()
    }

    /// Gives a key a value. The state is to be saved if this changed it: if the key did not hold
    /// the value already.
    pub fn set(&mut self, key: String, value: SessionValue) -> (changed: bool)
        ensures
            final(self)@ == written(old(self)@, key@, value.json()),
            changed == !holds(old(self)@, key@, value.json()),
            changed == (final(self)@ != old(self)@),
            final(self).file() == old(self).file(),
    {
        let ghost before = self@;
        if let Some(current) = self.values.get(key.as_str()) {
            assert(before.contains_key(key@) && before[key@] == current.json());
            if current.same(&value) {
                return false;
            }
        }
        let ghost held = self.values@;
        self.values.insert(key, value);
        proof {
            assert(self@ =~= before.insert(key@, value.json()));
            assert(self@.contains_key(key@) && self@[key@] == value.json());
            lemma_same_json_reflexive(value.json());
            if held.contains_key(key@) {
                assert(before[key@] == held[key@].json());
            } else {
                assert(!before.contains_key(key@));
            }
        }
        true
    }

    /// Gives a key a value, and says whether that is a new one.
    pub fn set_if_changed(&mut self, key: &str, value: SessionValue) -> (changed: bool)
        ensures
            final(self)@ == written(old(self)@, key@, value.json()),
            changed == !holds(old(self)@, key@, value.json()),
            changed == (final(self)@ != old(self)@),
            final(self).file() == old(self).file(),
    {
        self.set(key.to_owned(), value)
    }

    /// Gives each key of `object` its value. The state is to be saved if this changed it.
    pub fn merge_json_object(&mut self, object: &NameMap<SessionValue>) -> (changed: bool)
        ensures
            final(self)@ == merged(old(self)@, session_of(*object)),
            changed == (news(old(self)@, session_of(*object)) != Map::<Seq<char>, Json>::empty()),
            changed == (final(self)@ != old(self)@),
            final(self).file() == old(self).file(),
    {
        let ghost before = self@;
        let ghost given = session_of(*object);
        let ghost fresh = news(before, given);
        let ghost keys = object.keys();
        let n: usize = object.len();
        let mut changed = false;
        let mut i: usize = 0;
        assert(before =~= before.union_prefer_right(fresh.restrict(keys.take(0).to_set())));
        while i < n
            invariant
                object.wf(),
                i <= n == object.keys().len(),
                keys == object.keys(),
                given == session_of(*object),
                fresh == news(before, given),
                self.file() == old(self).file(),
                self@ == before.union_prefer_right(fresh.restrict(keys.take(i as int).to_set())),
                changed == exists|k: int| 0 <= k < i && fresh.contains_key(#[trigger] keys[k]),
            decreases n - i,
        {
            let key = object.key_at(i);
            let value = object.value_at(i);
            let ghost earlier = self@;
            let set = self.set(key.clone(), value.copy());
            proof {
                object.lemma_names();
                let part = keys.take(i as int);
                let longer = keys.take(i + 1);
                assert(longer =~= part.push(key@));
                assert(given.contains_key(key@) && given[key@] == value.json());
                assert forall|k: Seq<char>| #[trigger] longer.to_set().contains(k) <==> part.to_set().contains(
                    k,
                ) || k == key@ by {
                    if part.contains(k) {
                        assert(longer[part.index_of(k)] == k);
                    }
                    assert(longer[i as int] == key@);
                    if longer.contains(k) && k != key@ {
                        assert(part[longer.index_of(k)] == k);
                    }
                }
                assert(!part.to_set().contains(key@)) by {
                    if part.contains(key@) {
                        let p = part.index_of(key@);
                        assert(keys[p] == keys[i as int]);
                    }
                }
                assert(earlier.contains_key(key@) == before.contains_key(key@));
                assert(before.contains_key(key@) ==> earlier[key@] == before[key@]);
                assert(holds(earlier, key@, value.json()) == holds(before, key@, given[key@]));
                assert(set == fresh.contains_key(keys[i as int]));
                assert(self@ =~= before.union_prefer_right(fresh.restrict(longer.to_set())));
            }
            changed = changed || set;
            i = i + 1;
        }
        proof {
            assert(keys.take(n as int) =~= keys);
            object.lemma_names();
            assert forall|k: Seq<char>| #[trigger] fresh.contains_key(k) implies keys.contains(k) by {
                assert(given.contains_key(k));
                assert(object@.contains_key(k));
            }
            assert(fresh.restrict(keys.to_set()) =~= fresh);
            if changed {
                let k = choose|k: int| 0 <= k < n && fresh.contains_key(#[trigger] keys[k]);
                let key = keys[k];
                assert(fresh.contains_key(key));
                assert(self@.contains_key(key) && self@[key] == given[key]);
                lemma_same_json_reflexive(given[key]);
            } else {
                assert forall|k: Seq<char>| !fresh.contains_key(k) by {
                    if fresh.contains_key(k) {
                        assert(fresh.contains_key(keys[keys.index_of(k)]));
                    }
                }
                assert(fresh =~= Map::<Seq<char>, Json>::empty());
                assert(before.union_prefer_right(fresh) =~= before);
            }
        }
        changed
    }

    /// The text that a key holds.
    pub fn get_string(&self, key: &str) -> (text: Option<String>)
        ensures
            match text {
                Some(t) => text_held(self@, key@) == Some(t@),
                None => text_held(self@, key@) is None,
            },
    {
        match self.values.get(key) {
            Some(value) => {
                assert(self@.contains_key(key@) && self@[key@] == value.json());
                match value.as_str() {
                    Some(text) => Some(text.to_owned()),
                    None => None,
                }
            },
            None => None,
        }
    }

    /// What the keys hold now.
    pub fn snapshot(&self) -> (values: NameMap<SessionValue>)
        ensures
            session_of(values) == self@,
    {
        copy_session(&self.values)
    }

    /// A template filled in from the state.
    pub fn render_template(&self, template: &str) -> (text: String)
        ensures
            text@ == rendered(self@, template@),
    {
        render_template_values(&self.values, template)
    }
}

/// Whether two snapshots of the state hold different things.
pub fn snapshots_differ(before: &NameMap<SessionValue>, after: &NameMap<SessionValue>) -> (differ: bool)
    ensures
        differ == !same_session(session_of(*before), session_of(*after)),
{
    let ghost left = session_of(*before);
    let ghost right = session_of(*after);
    let n: usize = before.len();
    if n != after.len() {
        proof {
            before.lemma_names();
            after.lemma_names();
            assert(left.dom() =~= before@.dom());
            assert(right.dom() =~= after@.dom());
        }
        return true;
    }
    let mut i: usize = 0;
    while i < n
        invariant
            before.wf(),
            after.wf(),
            left == session_of(*before),
            right == session_of(*after),
            i <= n == before.keys().len() == after.keys().len(),
            forall|k: int|
                0 <= k < i ==> #[trigger] before.keys()[k] == after.keys()[k] && same_json(
                    left[before.keys()[k]],
                    right[before.keys()[k]],
                ),
        decreases n - i,
    {
        let key = before.key_at(i);
        let other = after.key_at(i);
        if !same_text(key.as_str(), other.as_str()) {
            proof {
                if left.dom() == right.dom() {
                    assert forall|name: Seq<char>| #[trigger]
                        before.keys().contains(name) <==> after.keys().contains(name) by {
                        assert(left.contains_key(name) <==> right.contains_key(name));
                    }
                    lemma_ascending_unique(before.keys(), after.keys());
                }
            }
            return true;
        }
        assert(left.contains_key(key@) && left[key@] == before.values()[i as int].json());
        assert(right.contains_key(key@) && right[key@] == after.values()[i as int].json());
        if !before.value_at(i).same(after.value_at(i)) {
            return true;
        }
        i = i + 1;
    }
    proof {
        assert(before.keys() =~= after.keys());
        assert(left.dom() =~= right.dom());
        assert forall|name: Seq<char>| #[trigger] left.contains_key(name) implies same_json(
            left[name],
            right[name],
        ) by {
            let k = before.keys().index_of(name);
            assert(before.keys()[k] == name);
        }
    }
    false
}

/// A read gives back the text that was written last, and what other keys hold stays.
pub proof fn law_reads_give_back_writes(
    session: Map<Seq<char>, Json>,
    key: Seq<char>,
    text: Seq<char>,
    other: Seq<char>,
)
    requires
        other != key,
    ensures
        text_held(written(session, key, Json::Text(text)), key) == Some(text),
        text_held(written(session, key, Json::Text(text)), other) == text_held(session, other),
{
    lemma_text_written(session, key, text);
}

/// After a write the key holds the value that was written, and no other key is touched.
pub proof fn law_written_values_are_held(
    session: Map<Seq<char>, Json>,
    key: Seq<char>,
    value: Json,
    other: Seq<char>,
)
    requires
        other != key,
    ensures
        holds(written(session, key, value), key, value),
        written(session, key, value).contains_key(other) == session.contains_key(other),
        session.contains_key(other) ==> written(session, key, value)[other] == session[other],
{
    lemma_same_json_reflexive(value);
}

/// A template that refers to a key shows the text that was written to the key last.
pub proof fn law_templates_show_what_was_written(
    session: Map<Seq<char>, Json>,
    key: Seq<char>,
    text: Seq<char>,
)
    requires
        is_key(key),
    ensures
        rendered(
            written(session, key, Json::Text(text)),
            reference_to(Seq::empty(), key, Seq::empty()),
        ) == text,
{
    lemma_text_written(session, key, text);
    law_references_stand_for_the_text_of_their_key(
        session.insert(key, Json::Text(text)),
        Seq::empty(),
        key,
        Seq::empty(),
    );
}

/// Writing what a key already holds changes nothing.
pub proof fn law_writing_again_changes_nothing(
    session: Map<Seq<char>, Json>,
    key: Seq<char>,
    value: Json,
)
    ensures
        written(written(session, key, value), key, value) == written(session, key, value),
{
    lemma_same_json_reflexive(value);
}

/// Merging the same object again changes nothing.
pub proof fn law_merging_again_changes_nothing(
    session: Map<Seq<char>, Json>,
    object: Map<Seq<char>, Json>,
)
    ensures
        merged(merged(session, object), object) == merged(session, object),
{
    let once = merged(session, object);
    assert forall|key: Seq<char>| object.contains_key(key) implies holds(once, key, object[key]) by {
        lemma_same_json_reflexive(object[key]);
        assert(news(session, object).contains_key(key) || holds(session, key, object[key]));
    }
    assert(news(once, object) =~= Map::<Seq<char>, Json>::empty());
    assert(merged(once, object) =~= once);
}

/// Merging gives every key of the object its value, and touches no other key. A key that held
/// something else holds exactly the value of the object.
pub proof fn law_merging_gives_each_key_its_value(
    session: Map<Seq<char>, Json>,
    object: Map<Seq<char>, Json>,
    key: Seq<char>,
)
    ensures
        object.contains_key(key) ==> holds(merged(session, object), key, object[key]),
        object.contains_key(key) && !(session.contains_key(key) && same_json(
            session[key],
            object[key],
        )) ==> merged(session, object)[key] == object[key],
        !object.contains_key(key) ==> merged(session, object).contains_key(key)
            == session.contains_key(key) && (session.contains_key(key) ==> merged(
            session,
            object,
        )[key] == session[key]),
{
    if object.contains_key(key) {
        lemma_same_json_reflexive(object[key]);
        assert(news(session, object).contains_key(key) || holds(session, key, object[key]));
    }
}

/// Writing another value than the one a key holds replaces it.
pub proof fn law_new_values_replace_old_ones(
    session: Map<Seq<char>, Json>,
    key: Seq<char>,
    value: Json,
)
    requires
        !session.contains_key(key) || !same_json(session[key], value),
    ensures
        written(session, key, value).contains_key(key),
        written(session, key, value)[key] == value,
        written(session, key, value) != session,
{
    lemma_same_json_reflexive(value);
    assert(written(session, key, value)[key] == value);
}

/// Only a text is read as a text.
pub proof fn law_only_texts_are_read_as_texts(session: Map<Seq<char>, Json>, key: Seq<char>)
    ensures
        !session.contains_key(key) ==> text_held(session, key) is None,
        session.contains_key(key) && !(session[key] is Text) ==> text_held(session, key) is None,
        session.contains_key(key) && session[key] is Text ==> text_held(session, key) == Some(
            session[key]->Text_0,
        ),
{
}

/// Two sessions hold the same if and only if they have the same keys and under each of them the
/// same value: a change of a text under any key is seen.
pub proof fn law_changes_of_texts_are_seen(
    session: Map<Seq<char>, Json>,
    key: Seq<char>,
    text: Seq<char>,
)
    ensures
        same_session(session, session),
        same_session(session, session.insert(key, Json::Text(text))) == (session.contains_key(key)
            && session[key] == Json::Text(text)),
{
    assert forall|k: Seq<char>| #[trigger] session.contains_key(k) implies same_json(
        session[k],
        session[k],
    ) by {
        lemma_same_json_reflexive(session[k]);
    }
    let after = session.insert(key, Json::Text(text));
    if session.contains_key(key) && session[key] == Json::Text(text) {
        assert(after =~= session);
    } else if session.contains_key(key) {
        assert(!same_json(session[key], after[key]));
    } else {
        assert(after.dom().contains(key));
    }
}

} // verus!
