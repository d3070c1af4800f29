//! Templates: text in which `{{ key }}` stands for a session value.

use crate::name_map::NameMap;
use crate::text::{after_white_space, is_white_space, lemma_after_white_space};
use crate::value::{session_of, Json, SessionValue};
use regex::Regex;
use vstd::prelude::*;

verus! {

/// The characters that a key is made of.
pub open spec fn is_key_char(c: char) -> bool {
    ||| 'a' <= c <= 'z'
    ||| 'A' <= c <= 'Z'
    ||| '0' <= c <= '9'
    ||| c == '_' || c == '.' || c == '-'
}

/// The first place from `i` on that holds no character of a key.
pub open spec fn after_key(text: Seq<char>, i: int) -> int
    decreases text.len() - i,
{
    if 0 <= i < text.len() && is_key_char(text[i]) {
        after_key(text, i + 1)
    } else {
        i
    }
}

/// Whether the two characters from `i` on are both `c`.
pub open spec fn twice_at(text: Seq<char>, i: int, c: char) -> bool {
    0 <= i && i + 1 < text.len() && text[i] == c && text[i + 1] == c
}

/// The reference that begins at `i`, if one does: its key, and the place behind it.
///
/// A reference is two opening braces, white space, a key of at least one character, white space
/// and two closing braces.
pub open spec fn reference_at(text: Seq<char>, i: int) -> Option<(Seq<char>, int)> {
    let from = after_white_space(text, i + 2);
    let to = after_key(text, from);
    let close = after_white_space(text, to);
    if twice_at(text, i, '{') && from < to && twice_at(text, close, '}') {
        Some((text.subrange(from, to), close + 2))
    } else {
        None
    }
}

/// Whether no reference begins before `i`.
pub open spec fn no_reference_before(text: Seq<char>, i: int) -> bool {
    forall|k: int| 0 <= k < i ==> #[trigger] reference_at(text, k) is None
}

/// What a key stands for: its text, or nothing where it holds no text.
pub open spec fn text_of(values: Map<Seq<char>, Json>, key: Seq<char>) -> Seq<char> {
    if values.contains_key(key) && values[key] is Text {
        values[key]->Text_0
    } else {
        Seq::empty()
    }
}

/// The template `text` from place `i` on, with what each reference stands for in its place.
pub open spec fn rendered_from(values: Map<Seq<char>, Json>, text: Seq<char>, i: int) -> Seq<char>
    decreases text.len() - i,
{
    if i < 0 || i >= text.len() {
        Seq::empty()
    } else if let Some((key, end)) = reference_at(text, i) {
        if i < end {
            text_of(values, key) + rendered_from(values, text, end)
        } else {
            Seq::empty()
        }
    } else {
        seq![text[i]] + rendered_from(values, text, i + 1)
    }
}

/// The template with what each reference stands for in its place.
pub open spec fn rendered(values: Map<Seq<char>, Json>, text: Seq<char>) -> Seq<char> {
    rendered_from(values, text, 0)
}

proof fn lemma_after_key(text: Seq<char>, i: int)
    requires
        0 <= i,
    ensures
        i <= after_key(text, i),
        i <= text.len() ==> after_key(text, i) <= text.len(),
    decreases text.len() - i,
{
    if i < text.len() && is_key_char(text[i]) {
        lemma_after_key(text, i + 1);
    }
}

proof fn lemma_reference_bounds(text: Seq<char>, i: int)
    requires
        0 <= i,
        reference_at(text, i) is Some,
    ensures
        i + 5 <= reference_at(text, i)->Some_0.1 <= text.len(),
{
    lemma_after_white_space(text, i + 2);
    let from = after_white_space(text, i + 2);
    lemma_after_key(text, from);
    lemma_after_white_space(text, after_key(text, from));
}

proof fn lemma_shift(text: Seq<char>, from: int, i: int)
    requires
        0 <= from <= text.len(),
        0 <= i,
    ensures
        after_white_space(text.skip(from), i) + from == after_white_space(text, i + from),
        after_key(text.skip(from), i) + from == after_key(text, i + from),
    decreases text.len() - i,
{
    if i < text.skip(from).len() {
        lemma_shift(text, from, i + 1);
    }
}

/// A reference in the rest of a text is the reference at the same place of the text.
proof fn lemma_reference_shift(text: Seq<char>, from: int, i: int)
    requires
        0 <= from <= text.len(),
        0 <= i,
    ensures
        reference_at(text.skip(from), i) is Some <==> reference_at(text, i + from) is Some,
        reference_at(text.skip(from), i) matches Some((key, end)) ==> reference_at(text, i + from)
            == Some((key, end + from)),
{
    let rest = text.skip(from);
    lemma_shift(text, from, i + 2);
    let a = after_white_space(rest, i + 2);
    lemma_after_white_space(rest, i + 2);
    lemma_shift(text, from, a);
    let b = after_key(rest, a);
    lemma_after_key(rest, a);
    lemma_shift(text, from, b);
    let c = after_white_space(rest, b);
    lemma_after_white_space(rest, b);
    if twice_at(rest, i, '{') && a < b && twice_at(rest, c, '}') {
        assert(rest.subrange(a, b) =~= text.subrange(a + from, b + from));
    }
}

proof fn lemma_rendered_shift(values: Map<Seq<char>, Json>, text: Seq<char>, from: int, i: int)
    requires
        0 <= from <= text.len(),
        0 <= i,
    ensures
        rendered_from(values, text.skip(from), i) == rendered_from(values, text, i + from),
    decreases text.len() - i,
{
    if i < text.skip(from).len() {
        lemma_reference_shift(text, from, i);
        match reference_at(text.skip(from), i) {
            Some((key, end)) => {
                lemma_reference_bounds(text.skip(from), i);
                lemma_rendered_shift(values, text, from, end);
            },
            None => {
                lemma_rendered_shift(values, text, from, i + 1);
            },
        }
    }
}

/// Text without references before `i` stands for itself up to there.
proof fn lemma_plain_prefix(values: Map<Seq<char>, Json>, text: Seq<char>, from: int, i: int)
    requires
        0 <= from <= i <= text.len(),
        no_reference_before(text, i),
    ensures
        rendered_from(values, text, from) == text.subrange(from, i) + rendered_from(values, text, i),
    decreases i - from,
{
    if from < i {
        lemma_plain_prefix(values, text, from + 1, i);
        assert(reference_at(text, from) is None);
        assert(text.subrange(from, i) =~= seq![text[from]] + text.subrange(from + 1, i));
        assert(seq![text[from]] + (text.subrange(from + 1, i) + rendered_from(values, text, i))
            =~= text.subrange(from, i) + rendered_from(values, text, i));
    } else {
        assert(text.subrange(from, i) =~= Seq::<char>::empty());
        assert(Seq::<char>::empty() + rendered_from(values, text, i) =~= rendered_from(
            values,
            text,
            i,
        ));
    }
}

/// A template without references stands for itself.
pub proof fn law_plain_text_renders_to_itself(values: Map<Seq<char>, Json>, text: Seq<char>)
    requires
        no_reference_before(text, text.len() as int),
    ensures
        rendered(values, text) == text,
{
    lemma_plain_prefix(values, text, 0, text.len() as int);
    assert(text.subrange(0, text.len() as int) + Seq::<char>::empty() =~= text);
}

/// A template that holds no two opening braces side by side stands for itself.
pub proof fn law_text_without_braces_renders_to_itself(values: Map<Seq<char>, Json>, text: Seq<char>)
    requires
        forall|i: int| !#[trigger] twice_at(text, i, '{'),
    ensures
        rendered(values, text) == text,
{
    law_plain_text_renders_to_itself(values, text);
}

/// Only what the session holds under the keys of its references decides how a template renders.
pub proof fn law_rendering_reads_only_texts(
    left: Map<Seq<char>, Json>,
    right: Map<Seq<char>, Json>,
    text: Seq<char>,
    i: int,
)
    requires
        forall|key: Seq<char>| #[trigger] text_of(left, key) == text_of(right, key),
    ensures
        rendered_from(left, text, i) == rendered_from(right, text, i),
    decreases text.len() - i,
{
    if 0 <= i < text.len() {
        match reference_at(text, i) {
            Some((key, end)) => {
                assert(text_of(left, key) == text_of(right, key));
                if i < end {
                    law_rendering_reads_only_texts(left, right, text, end);
                }
            },
            None => {
                law_rendering_reads_only_texts(left, right, text, i + 1);
            },
        }
    }
}

/// The pattern of a reference, with its key as the first group.
pub const REFERENCE: &'static str = "\\{\\{\\s*([a-zA-Z0-9_.-]+)\\s*\\}\\}";

/// `regex::Regex::captures` with the pattern of a reference: the leftmost reference of the text,
/// as the text before it, its key and the text behind it; nothing where the text holds none.
#[verifier::external_body]
fn first_reference(pattern: &str, text: &str) -> (found: Option<(String, String, String)>)
    requires
        pattern@ == REFERENCE@,
    ensures
        match found {
            Some((before, key, behind)) => {
                let i = before@.len() as int;
                &&& no_reference_before(text@, i)
                &&& before@ == text@.take(i)
                &&& reference_at(text@, i) matches Some((k, end)) && k == key@ && behind@
                    == text@.skip(end)
            },
            None => no_reference_before(text@, text@.len() as int),
        },
{
    let captures = Regex::new(pattern).ok()?.captures(text)?;
    let whole = captures.get(0)?;
    let before = text[..whole.start()].to_owned();
    let behind = text[whole.end()..].to_owned();
    Some((before, captures[1].to_owned(), behind))
}

/// The template with what each reference stands for in its place.
pub fn render_template_values(values: &NameMap<SessionValue>, template: &str) -> (text: String)
    ensures
        text@ == rendered(session_of(*values), template@),
{
    let ghost session = session_of(*values);
    let mut out = String::new();
    let mut rest = template.to_owned();
    assert(out@ + rendered(session, rest@) =~= rendered(session, template@));
    loop
        invariant
            session == session_of(*values),
            out@ + rendered(session, rest@) == rendered(session, template@),
        decreases rest@.len(),
    {
        match first_reference(REFERENCE, rest.as_str()) {
            Some((before, key, behind)) => {
                let ghost i = before@.len() as int;
                let ghost end = reference_at(rest@, i)->Some_0.1;
                proof {
                    lemma_plain_prefix(session, rest@, 0, i);
                    lemma_reference_bounds(rest@, i);
                    lemma_rendered_shift(session, rest@, end, 0);
                    assert(rest@.subrange(0, i) =~= before@);
                }
                let ghost done = out@;
                out.append(before.as_str());
                match values.get(key.as_str()) {
                    Some(value) => {
                        assert(session.contains_key(key@) && session[key@] == value.json());
                        if let Some(text) = value.as_str() {
                            out.append(text);
                        }
                    },
                    None => {},
                }
                proof {
                    assert(out@ =~= done + before@ + text_of(session, key@));
                    assert(out@ + rendered(session, behind@) =~= done + (before@ + (text_of(
                        session,
                        key@,
                    ) + rendered(session, behind@))));
                }
                rest = behind;
            },
            None => {
                proof {
                    law_plain_text_renders_to_itself(session, rest@);
                }
                out.append(rest.as_str());
                return out;
            },
        }
    }
}

/// Whether a text is white space throughout.
pub open spec fn is_blank_space(text: Seq<char>) -> bool {
    forall|i: int| 0 <= i < text.len() ==> is_white_space(#[trigger] text[i])
}

/// Whether a text is a key.
pub open spec fn is_key(text: Seq<char>) -> bool {
    text.len() > 0 && forall|i: int| 0 <= i < text.len() ==> is_key_char(#[trigger] text[i])
}

/// The reference to a key, with white space around the key.
pub open spec fn reference_to(before: Seq<char>, key: Seq<char>, behind: Seq<char>) -> Seq<char> {
    seq!['{', '{'] + before + key + behind + seq!['}', '}']
}

proof fn lemma_blank_run(text: Seq<char>, from: int, to: int)
    requires
        0 <= from <= to < text.len(),
        forall|k: int| from <= k < to ==> is_white_space(#[trigger] text[k]),
        !is_white_space(text[to]),
    ensures
        after_white_space(text, from) == to,
    decreases to - from,
{
    if from < to {
        lemma_blank_run(text, from + 1, to);
    }
}

proof fn lemma_key_run(text: Seq<char>, from: int, to: int)
    requires
        0 <= from <= to < text.len(),
        forall|k: int| from <= k < to ==> is_key_char(#[trigger] text[k]),
        !is_key_char(text[to]),
    ensures
        after_key(text, from) == to,
    decreases to - from,
{
    if from < to {
        lemma_key_run(text, from + 1, to);
    }
}

/// A reference stands for the text of its key, whatever white space stands around the key.
pub proof fn law_references_stand_for_the_text_of_their_key(
    values: Map<Seq<char>, Json>,
    before: Seq<char>,
    key: Seq<char>,
    behind: Seq<char>,
)
    requires
        is_key(key),
        is_blank_space(before),
        is_blank_space(behind),
    ensures
        rendered(values, reference_to(before, key, behind)) == text_of(values, key),
{
    let text = reference_to(before, key, behind);
    let from = 2 + before.len() as int;
    let to = from + key.len();
    let close = to + behind.len();
    assert(text.len() == close + 2);
    assert(text[0] == '{' && text[1] == '{' && text[close] == '}' && text[close + 1] == '}');
    assert forall|k: int| 2 <= k < from implies is_white_space(#[trigger] text[k]) by {
        assert(text[k] == before[k - 2]);
    }
    assert forall|k: int| from <= k < to implies is_key_char(#[trigger] text[k]) by {
        assert(text[k] == key[k - from]);
    }
    assert forall|k: int| to <= k < close implies is_white_space(#[trigger] text[k]) by {
        assert(text[k] == behind[k - to]);
    }
    assert(is_key_char(text[from]));
    lemma_blank_run(text, 2, from);
    assert(!is_key_char(text[to])) by {
        if to < close {
            assert(is_white_space(text[to]));
        }
    }
    lemma_key_run(text, from, to);
    lemma_blank_run(text, to, close);
    assert(text.subrange(from, to) =~= key);
    assert(reference_at(text, 0) == Some((key, close + 2)));
    let end = close + 2;
    assert(rendered_from(values, text, end) =~= Seq::empty());
    assert(rendered_from(values, text, 0) == text_of(values, key) + rendered_from(values, text, end));
    assert(text_of(values, key) + Seq::<char>::empty() =~= text_of(values, key));
}

/// A reference is filled in wherever it stands: the text before it is kept, the text of its key
/// takes its place, and what stands behind it is rendered as it would be alone. A key that is
/// missing or holds no text leaves nothing.
pub proof fn law_references_are_filled_in_where_they_stand(
    values: Map<Seq<char>, Json>,
    plain: Seq<char>,
    before: Seq<char>,
    key: Seq<char>,
    behind: Seq<char>,
    rest: Seq<char>,
)
    requires
        forall|i: int| 0 <= i < plain.len() ==> #[trigger] plain[i] != '{',
        key.len() > 0,
        forall|i: int|
            0 <= i < key.len() ==> ('a' <= #[trigger] key[i] <= 'z' || 'A' <= key[i] <= 'Z' || '0'
                <= key[i] <= '9' || key[i] == '_' || key[i] == '.' || key[i] == '-'),
        forall|i: int| 0 <= i < before.len() ==> is_white_space(#[trigger] before[i]),
        forall|i: int| 0 <= i < behind.len() ==> is_white_space(#[trigger] behind[i]),
    ensures
        rendered(values, plain + reference_to(before, key, behind) + rest) == plain + (
        if values.contains_key(key) {
            match values[key] {
                Json::Text(text) => text,
                _ => Seq::empty(),
            }
        } else {
            Seq::empty()
        }) + rendered(values, rest),
{
    let reference = reference_to(before, key, behind);
    let tail = reference + rest;
    let whole = plain + reference + rest;
    let p = plain.len() as int;
    assert(whole =~= plain + tail);
    assert forall|k: int| 0 <= k < p implies #[trigger] reference_at(whole, k) is None by {
        assert(whole[k] == plain[k]);
    }
    lemma_plain_prefix(values, whole, 0, p);
    assert(whole.subrange(0, p) =~= plain);
    assert(whole.skip(p) =~= tail);
    lemma_rendered_shift(values, whole, p, 0);
    let from = 2 + before.len() as int;
    let to = from + key.len();
    let close = to + behind.len();
    assert(tail[0] == '{' && tail[1] == '{' && tail[close] == '}' && tail[close + 1] == '}');
    assert forall|k: int| 2 <= k < from implies is_white_space(#[trigger] tail[k]) by {
        assert(tail[k] == before[k - 2]);
    }
    assert forall|k: int| from <= k < to implies is_key_char(#[trigger] tail[k]) by {
        assert(tail[k] == key[k - from]);
    }
    assert forall|k: int| to <= k < close implies is_white_space(#[trigger] tail[k]) by {
        assert(tail[k] == behind[k - to]);
    }
    assert(is_key_char(tail[from]));
    lemma_blank_run(tail, 2, from);
    assert(!is_key_char(tail[to])) by {
        if to < close {
            assert(is_white_space(tail[to]));
        }
    }
    lemma_key_run(tail, from, to);
    lemma_blank_run(tail, to, close);
    assert(tail.subrange(from, to) =~= key);
    let end = close + 2;
    assert(reference_at(tail, 0) == Some((key, end)));
    assert(tail.skip(end) =~= rest);
    lemma_rendered_shift(values, tail, end, 0);
    assert(rendered_from(values, tail, 0) == text_of(values, key) + rendered_from(values, tail, end));
    assert(plain + (text_of(values, key) + rendered(values, rest)) =~= plain + text_of(values, key)
        + rendered(values, rest));
}

/// A template that is cut where no reference goes over the cut renders piece by piece.
pub proof fn law_plain_text_is_kept_in_front(values: Map<Seq<char>, Json>, plain: Seq<char>, rest: Seq<char>)
    requires
        forall|i: int| 0 <= i < plain.len() ==> #[trigger] plain[i] != '{',
    ensures
        rendered(values, plain + rest) == plain + rendered(values, rest),
{
    let whole = plain + rest;
    let p = plain.len() as int;
    assert forall|k: int| 0 <= k < p implies #[trigger] reference_at(whole, k) is None by {
        assert(whole[k] == plain[k]);
    }
    lemma_plain_prefix(values, whole, 0, p);
    assert(whole.subrange(0, p) =~= plain);
    assert(whole.skip(p) =~= rest);
    lemma_rendered_shift(values, whole, p, 0);
}

} // verus!
