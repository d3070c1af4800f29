//! References to environment variables in configured texts.

use crate::name_map::NameMap;
use crate::text::{chars_of, decimal, decimal_text, string_of};
use vstd::prelude::*;

verus! {

/// What is wrong with a reference.
#[derive(Debug, Clone, PartialEq, Eq)]
pub enum ReferenceProblem<T> {
    /// A dollar stands at the end.
    TrailingDollar,
    /// An opening brace has no closing one.
    Unclosed,
    /// What stands between braces is not a name.
    InvalidName(T),
    /// What stands behind the dollar begins no name.
    InvalidReference(char),
    /// The environment lacks the variable.
    MissingVariable(T),
}

/// Why a text cannot be expanded: what is wrong, and in which field.
#[derive(Debug, Clone, PartialEq, Eq)]
pub struct ExpandError {
    pub field: String,
    pub problem: ReferenceProblem<String>,
}

/// What is wrong with a reference.
pub type ReferenceDefect = ReferenceProblem<Seq<char>>;

impl ReferenceProblem<String> {
    /// What is wrong.
    pub open spec fn view(&self) -> ReferenceDefect {
        match *self {
            ReferenceProblem::TrailingDollar => ReferenceProblem::TrailingDollar,
            ReferenceProblem::Unclosed => ReferenceProblem::Unclosed,
            ReferenceProblem::InvalidName(name) => ReferenceProblem::InvalidName(name@),
            ReferenceProblem::InvalidReference(c) => ReferenceProblem::InvalidReference(c),
            ReferenceProblem::MissingVariable(name) => ReferenceProblem::MissingVariable(name@),
        }
    }
}

/// The text of an error.
pub open spec fn expand_message(field: Seq<char>, problem: ReferenceDefect) -> Seq<char> {
    match problem {
        ReferenceProblem::TrailingDollar => field + " contains trailing '$'"@,
        ReferenceProblem::Unclosed => field + " contains unclosed environment reference"@,
        ReferenceProblem::InvalidName(name) => field + " contains invalid environment variable name '"@
            + name + "'"@,
        ReferenceProblem::InvalidReference(c) => (field
            + " contains invalid environment reference '$"@).push(c) + "'"@,
        ReferenceProblem::MissingVariable(name) => field
            + " references missing environment variable '"@ + name + "'"@,
    }
}

impl ExpandError {
    /// The text of the error.
    pub fn message(&self) -> (text: String)
        ensures
            text@ == expand_message(self.field@, self.problem@),
    {
        let field = self.field.clone();
        match &self.problem {
            ReferenceProblem::TrailingDollar => field.concat(" contains trailing '$'"),
            ReferenceProblem::Unclosed => field.concat(" contains unclosed environment reference"),
            ReferenceProblem::InvalidName(name) => field.concat(
                " contains invalid environment variable name '",
            ).concat(name.as_str()).concat("'"),
            ReferenceProblem::InvalidReference(c) => {
                let mut text = field.concat(" contains invalid environment reference '$");
                text.push(*c);
                text.concat("'")
            },
            ReferenceProblem::MissingVariable(name) => field.concat(
                " references missing environment variable '",
            ).concat(name.as_str()).concat("'"),
        }
    }
}

/// The characters that a name may begin with.
pub open spec fn begins_name(c: char) -> bool {
    c == '_' || 'a' <= c <= 'z' || 'A' <= c <= 'Z'
}

/// The characters that a name may go on with.
pub open spec fn continues_name(c: char) -> bool {
    begins_name(c) || '0' <= c <= '9'
}

/// Whether a text is a name.
pub open spec fn is_name(text: Seq<char>) -> bool {
    text.len() > 0 && begins_name(text[0]) && forall|i: int|
        1 <= i < text.len() ==> continues_name(#[trigger] text[i])
}

/// The first place from `i` on that holds a closing brace, or the end.
pub open spec fn brace_end(text: Seq<char>, i: int) -> int
    decreases text.len() - i,
{
    if 0 <= i < text.len() && text[i] != '}' {
        brace_end(text, i + 1)
    } else {
        i
    }
}

/// The first place from `i` on at which a name does not go on.
pub open spec fn name_end(text: Seq<char>, i: int) -> int
    decreases text.len() - i,
{
    if 0 <= i < text.len() && continues_name(text[i]) {
        name_end(text, i + 1)
    } else {
        i
    }
}

/// The reference whose dollar stands before place `i`: the name, and the place behind it.
///
/// The name stands between braces, or is as long as it goes on.
pub open spec fn reference(text: Seq<char>, i: int) -> Result<(Seq<char>, int), ReferenceDefect> {
    if text[i] == '{' {
        let end = brace_end(text, i + 1);
        if end >= text.len() {
            Err(ReferenceProblem::Unclosed)
        } else if !is_name(text.subrange(i + 1, end)) {
            Err(ReferenceProblem::InvalidName(text.subrange(i + 1, end)))
        } else {
            Ok((text.subrange(i + 1, end), end + 1))
        }
    } else if begins_name(text[i]) {
        Ok((text.subrange(i, name_end(text, i)), name_end(text, i)))
    } else {
        Err(ReferenceProblem::InvalidReference(text[i]))
    }
}

/// A text in front of the rest of an expansion.
pub open spec fn before(text: Seq<char>, rest: Result<Seq<char>, ReferenceDefect>) -> Result<
    Seq<char>,
    ReferenceDefect,
> {
    match rest {
        Ok(more) => Ok(text + more),
        Err(problem) => Err(problem),
    }
}

/// A text from place `i` on with the value of each variable in the place of its reference, or
/// what is wrong with the first reference that has none. Two dollars stand for one.
pub open spec fn expansion(env: Map<Seq<char>, String>, text: Seq<char>, i: int) -> Result<
    Seq<char>,
    ReferenceDefect,
>
    decreases text.len() - i,
    when 0 <= i
{
    if i >= text.len() {
        Ok(Seq::empty())
    } else if text[i] != '$' {
        before(seq![text[i]], expansion(env, text, i + 1))
    } else if i + 1 >= text.len() {
        Err(ReferenceProblem::TrailingDollar)
    } else if text[i + 1] == '$' {
        before(seq!['$'], expansion(env, text, i + 2))
    } else {
        match reference(text, i + 1) {
            Err(problem) => Err(problem),
            Ok((name, end)) => {
                proof {
                    lemma_reference(text, i + 1);
                }
                if env.contains_key(name) {
                    before(env[name]@, expansion(env, text, end))
                } else {
                    Err(ReferenceProblem::MissingVariable(name))
                }
            },
        }
    }
}

proof fn lemma_brace_end(text: Seq<char>, i: int)
    requires
        0 <= i,
    ensures
        i <= brace_end(text, i),
        i <= text.len() ==> brace_end(text, i) <= text.len(),
    decreases text.len() - i,
{
    if i < text.len() && text[i] != '}' {
        lemma_brace_end(text, i + 1);
    }
}

proof fn lemma_name_end(text: Seq<char>, i: int)
    requires
        0 <= i,
    ensures
        i <= name_end(text, i),
        i <= text.len() ==> name_end(text, i) <= text.len(),
        i < text.len() && continues_name(text[i]) ==> i < name_end(text, i),
    decreases text.len() - i,
{
    if i < text.len() && continues_name(text[i]) {
        lemma_name_end(text, i + 1);
    }
}

/// A reference ends behind its beginning.
pub proof fn lemma_reference(text: Seq<char>, i: int)
    requires
        0 <= i < text.len(),
    ensures
        reference(text, i) matches Ok((name, end)) ==> i < end <= text.len(),
{
    lemma_brace_end(text, i + 1);
    lemma_name_end(text, i);
}

fn is_env_name_start(c: char) -> (result: bool)
    ensures
        result == begins_name(c),
{
    c == '_' || ('a' <= c && c <= 'z') || ('A' <= c && c <= 'Z')
}

fn is_env_name_continue(c: char) -> (result: bool)
    ensures
        result == continues_name(c),
{
    is_env_name_start(c) || ('0' <= c && c <= '9')
}

fn is_valid_env_name(chars: &Vec<char>, from: usize, to: usize) -> (result: bool)
    requires
        from <= to <= chars@.len(),
    ensures
        result == is_name(chars@.subrange(from as int, to as int)),
{
    let ghost text = chars@.subrange(from as int, to as int);
    if from == to || !is_env_name_start(chars[from]) {
        return false;
    }
    let mut i: usize = from + 1;
    while i < to
        invariant
            from + 1 <= i <= to <= chars@.len(),
            text == chars@.subrange(from as int, to as int),
            forall|k: int| 1 <= k < i - from ==> continues_name(#[trigger] text[k]),
        decreases to - i,
    {
        if !is_env_name_continue(chars[i]) {
            assert(!continues_name(text[i - from]));
            return false;
        }
        i = i + 1;
    }
    true
}

/// The reference whose dollar stands before place `i`.
fn parse_reference_name(chars: &Vec<char>, i: usize) -> (result: Result<
    (String, usize),
    ReferenceProblem<String>,
>)
    requires
        i < chars@.len(),
    ensures
        match result {
            Ok((name, end)) => reference(chars@, i as int) == Ok::<_, ReferenceDefect>(
                (name@, end as int),
            ),
            Err(problem) => reference(chars@, i as int) == Err::<(Seq<char>, int), _>(problem@),
        },
{
    let n: usize = chars.len();
    if chars[i] == '{' {
        let mut end: usize = i + 1;
        while end < chars.len() && chars[end] != '}'
            invariant
                i + 1 <= end <= chars@.len(),
                brace_end(chars@, i + 1) == brace_end(chars@, end as int),
            decreases chars@.len() - end,
        {
            end = end + 1;
        }
        if end >= chars.len() {
            return Err(ReferenceProblem::Unclosed);
        }
        let name = string_of(chars, i + 1, end);
        if !is_valid_env_name(chars, i + 1, end) {
            return Err(ReferenceProblem::InvalidName(name));
        }
        return Ok((name, end + 1));
    }
    if is_env_name_start(chars[i]) {
        let mut end: usize = i;
        while end < chars.len() && is_env_name_continue(chars[end])
            invariant
                i <= end <= chars@.len(),
                name_end(chars@, i as int) == name_end(chars@, end as int),
            decreases chars@.len() - end,
        {
            end = end + 1;
        }
        return Ok((string_of(chars, i, end), end));
    }
    Err(ReferenceProblem::InvalidReference(chars[i]))
}

/// A text with the value of each variable in the place of its reference.
pub fn expand_value(value: &str, field: &str, env: &NameMap<String>) -> (result: Result<
    String,
    ExpandError,
>)
    ensures
        match result {
            Ok(text) => expansion(env@, value@, 0) == Ok::<_, ReferenceDefect>(text@),
            Err(error) => expansion(env@, value@, 0) == Err::<Seq<char>, _>(error.problem@)
                && error.field@ == field@,
        },
{
    let chars = chars_of(value);
    let mut text = String::new();
    let mut i: usize = 0;
    proof {
        assert(before(text@, expansion(env@, value@, 0)) == expansion(env@, value@, 0)) by {
            if let Ok(rest) = expansion(env@, value@, 0) {
                assert(text@ + rest =~= rest);
            }
        }
    }
    while i < chars.len()
        invariant
            i <= chars@.len(),
            chars@ == value@,
            before(text@, expansion(env@, value@, i as int)) == expansion(env@, value@, 0),
        decreases chars@.len() - i,
    {
        let ghost done = text@;
        if chars[i] != '$' {
            text.push(chars[i]);
            proof {
                lemma_before(done, seq![chars@[i as int]], expansion(env@, value@, i + 1));
                assert(text@ =~= done + seq![chars@[i as int]]);
            }
            i = i + 1;
        } else if i + 1 >= chars.len() {
            return Err(
                ExpandError { field: field.to_owned(), problem: ReferenceProblem::TrailingDollar },
            );
        } else if chars[i + 1] == '$' {
            text.push('$');
            proof {
                lemma_before(done, seq!['$'], expansion(env@, value@, i + 2));
                assert(text@ =~= done + seq!['$']);
            }
            i = i + 2;
        } else {
            match parse_reference_name(&chars, i + 1) {
                Err(problem) => {
                    return Err(ExpandError { field: field.to_owned(), problem });
                },
                Ok((name, end)) => {
                    proof {
                        lemma_reference(value@, i + 1);
                    }
                    match env.get(name.as_str()) {
                        None => {
                            return Err(
                                ExpandError {
                                    field: field.to_owned(),
                                    problem: ReferenceProblem::MissingVariable(name),
                                },
                            );
                        },
                        Some(replacement) => {
                            text.append(replacement.as_str());
                            proof {
                                lemma_before(
                                    done,
                                    replacement@,
                                    expansion(env@, value@, end as int),
                                );
                            }
                            i = end;
                        },
                    }
                },
            }
        }
    }
    assert(text@ + Seq::<char>::empty() =~= text@);
    Ok(text)
}

proof fn lemma_before(a: Seq<char>, b: Seq<char>, rest: Result<Seq<char>, ReferenceDefect>)
    ensures
        before(a, before(b, rest)) == before(a + b, rest),
{
    if let Ok(more) = rest {
        assert(a + (b + more) =~= (a + b) + more);
    }
}

/// The field of the value at a place of a list.
pub open spec fn indexed_field(field: Seq<char>, i: int) -> Seq<char> {
    field + "["@ + decimal(i as nat) + "]"@
}

/// The list with each of its texts expanded.
pub fn expand_vec(values: &Vec<String>, field: &str, env: &NameMap<String>) -> (result: Result<
    Vec<String>,
    ExpandError,
>)
    ensures
        match result {
            Ok(list) => list@.len() == values@.len() && forall|i: int|
                0 <= i < list@.len() ==> expansion(env@, values@[i]@, 0) == Ok::<_, ReferenceDefect>(
                    (#[trigger] list@[i])@,
                ),
            Err(error) => exists|i: int|
                0 <= i < values@.len() && expansion(env@, (#[trigger] values@[i])@, 0) == Err::<
                    Seq<char>,
                    _,
                >(error.problem@) && error.field@ == indexed_field(field@, i) && forall|k: int|
                    0 <= k < i ==> expansion(env@, (#[trigger] values@[k])@, 0) is Ok,
        },
{
    let mut list: Vec<String> = Vec::new();
    let mut i: usize = 0;
    while i < values.len()
        invariant
            i <= values@.len(),
            list@.len() == i,
            forall|k: int|
                0 <= k < i ==> expansion(env@, values@[k]@, 0) == Ok::<_, ReferenceDefect>(
                    (#[trigger] list@[k])@,
                ),
            forall|k: int| 0 <= k < i ==> expansion(env@, (#[trigger] values@[k])@, 0) is Ok,
        decreases values@.len() - i,
    {
        let name = field.to_owned().concat("[").concat(decimal_text(i as u64).as_str()).concat("]");
        match expand_value(values[i].as_str(), name.as_str(), env) {
            Ok(text) => {
                list.push(text);
            },
            Err(error) => {
                assert(expansion(env@, values@[i as int]@, 0) == Err::<Seq<char>, _>(error.problem@));
                return Err(error);
            },
        }
        i = i + 1;
    }
    Ok(list)
}

/// The field of the value of a key.
pub open spec fn keyed_field(field: Seq<char>, key: Seq<char>) -> Seq<char> {
    field + "."@ + key
}

/// The map with each of its texts expanded.
pub fn expand_map(values: &NameMap<String>, field: &str, env: &NameMap<String>) -> (result: Result<
    NameMap<String>,
    ExpandError,
>)
    ensures
        match result {
            Ok(map) => map@.dom() == values@.dom() && forall|key: Seq<char>| #[trigger]
                map@.contains_key(key) ==> expansion(env@, values@[key]@, 0) == Ok::<
                    _,
                    ReferenceDefect,
                >(map@[key]@),
            Err(error) => exists|i: int|
                0 <= i < values.keys().len() && expansion(env@, (#[trigger] values.values()[i])@, 0)
                    == Err::<Seq<char>, _>(error.problem@) && error.field@ == keyed_field(
                    field@,
                    values.keys()[i],
                ) && forall|k: int|
                    0 <= k < i ==> expansion(env@, (#[trigger] values.values()[k])@, 0) is Ok,
        },
{
    let mut map: NameMap<String> = NameMap::new();
    let ghost keys = values.keys();
    let n: usize = values.len();
    let mut i: usize = 0;
    while i < n
        invariant
            values.wf(),
            i <= n == keys.len(),
            keys == values.keys(),
            forall|key: Seq<char>| #[trigger]
                map@.contains_key(key) <==> keys.take(i as int).contains(key),
            forall|key: Seq<char>| #[trigger]
                map@.contains_key(key) ==> expansion(env@, values@[key]@, 0) == Ok::<
                    _,
                    ReferenceDefect,
                >(map@[key]@),
            forall|k: int| 0 <= k < i ==> expansion(env@, (#[trigger] values.values()[k])@, 0) is Ok,
        decreases n - i,
    {
        let key = values.key_at(i);
        let name = field.to_owned().concat(".").concat(key.as_str());
        let ghost earlier = map@;
        match expand_value(values.value_at(i).as_str(), name.as_str(), env) {
            Ok(text) => {
                map.insert(key.clone(), text);
                proof {
                    let part = keys.take(i as int);
                    let longer = keys.take(i + 1);
                    assert(longer =~= part.push(keys[i as int]));
                    assert forall|k: Seq<char>| #[trigger]
                        map@.contains_key(k) <==> longer.contains(k) by {
                        if part.contains(k) {
                            assert(longer[part.index_of(k)] == k);
                        }
                        if longer.contains(k) && k != keys[i as int] {
                            assert(part[longer.index_of(k)] == k);
                        }
                        assert(longer[i as int] == keys[i as int]);
                        assert(earlier.contains_key(k) || k == keys[i as int] || !map@.contains_key(k));
                    }
                }
            },
            Err(error) => {
                assert(expansion(env@, values.values()[i as int]@, 0) == Err::<Seq<char>, _>(
                    error.problem@,
                ));
                return Err(error);
            },
        }
        i = i + 1;
    }
    assert(keys.take(n as int) =~= keys);
    assert(map@.dom() =~= values@.dom());
    Ok(map)
}

/// A text without dollars is its own expansion.
pub proof fn law_texts_without_dollars_stay(env: Map<Seq<char>, String>, text: Seq<char>, i: int)
    requires
        0 <= i <= text.len(),
        forall|k: int| 0 <= k < text.len() ==> #[trigger] text[k] != '$',
    ensures
        expansion(env, text, i) == Ok::<_, ReferenceDefect>(text.skip(i)),
    decreases text.len() - i,
{
    if i < text.len() {
        law_texts_without_dollars_stay(env, text, i + 1);
        assert(text.skip(i) =~= seq![text[i]] + text.skip(i + 1));
    } else {
        assert(text.skip(i) =~= Seq::empty());
    }
}

/// A text with every dollar doubled.
pub open spec fn doubled(text: Seq<char>) -> Seq<char>
    decreases text.len(),
{
    if text.len() == 0 {
        Seq::empty()
    } else if text[0] == '$' {
        seq!['$', '$'] + doubled(text.skip(1))
    } else {
        seq![text[0]] + doubled(text.skip(1))
    }
}

proof fn lemma_expansion_skip(env: Map<Seq<char>, String>, text: Seq<char>, from: int, i: int)
    requires
        0 <= from <= text.len(),
        0 <= i,
    ensures
        expansion(env, text.skip(from), i) == expansion(env, text, i + from),
    decreases text.len() - i,
{
    let rest = text.skip(from);
    if i < rest.len() {
        if rest[i] != '$' {
            lemma_expansion_skip(env, text, from, i + 1);
        } else if i + 1 < rest.len() {
            if rest[i + 1] == '$' {
                lemma_expansion_skip(env, text, from, i + 2);
            } else {
                lemma_reference_skip(text, from, i + 1);
                lemma_reference(rest, i + 1);
                if let Ok((name, end)) = reference(rest, i + 1) {
                    lemma_expansion_skip(env, text, from, end);
                }
            }
        }
    }
}

proof fn lemma_ends_skip(text: Seq<char>, from: int, i: int)
    requires
        0 <= from <= text.len(),
        0 <= i,
    ensures
        brace_end(text.skip(from), i) + from == brace_end(text, i + from),
        name_end(text.skip(from), i) + from == name_end(text, i + from),
    decreases text.len() - i,
{
    if i < text.skip(from).len() {
        lemma_ends_skip(text, from, i + 1);
    }
}

proof fn lemma_reference_skip(text: Seq<char>, from: int, i: int)
    requires
        0 <= from <= text.len(),
        0 <= i < text.len() - from,
    ensures
        reference(text, i + from) == match reference(text.skip(from), i) {
            Ok((name, end)) => Ok::<_, ReferenceDefect>((name, end + from)),
            Err(problem) => Err(problem),
        },
{
    let rest = text.skip(from);
    lemma_ends_skip(text, from, i + 1);
    lemma_ends_skip(text, from, i);
    lemma_brace_end(rest, i + 1);
    lemma_name_end(rest, i);
    let end = brace_end(rest, i + 1);
    if end <= rest.len() {
        assert(rest.subrange(i + 1, end) =~= text.subrange(i + 1 + from, end + from));
    }
    let stop = name_end(rest, i);
    assert(rest.subrange(i, stop) =~= text.subrange(i + from, stop + from));
}

/// Every text can be written: with its dollars doubled it expands to itself.
pub proof fn law_doubled_dollars_are_literal(env: Map<Seq<char>, String>, text: Seq<char>)
    ensures
        expansion(env, doubled(text), 0) == Ok::<_, ReferenceDefect>(text),
    decreases text.len(),
{
    if text.len() == 0 {
        assert(text =~= Seq::empty());
    } else {
        let rest = text.skip(1);
        law_doubled_dollars_are_literal(env, rest);
        let whole = doubled(text);
        let head: int = if text[0] == '$' {
            2
        } else {
            1
        };
        assert(whole.skip(head) =~= doubled(rest));
        lemma_expansion_skip(env, whole, head, 0);
        assert(seq![text[0]] + rest =~= text);
    }
}

/// A reference in braces expands to the value of its variable, whatever follows it.
pub proof fn law_references_in_braces_expand(
    env: Map<Seq<char>, String>,
    name: Seq<char>,
    rest: Seq<char>,
)
    requires
        is_name(name),
        env.contains_key(name),
    ensures
        expansion(env, seq!['$', '{'] + name + seq!['}'] + rest, 0) == before(
            env[name]@,
            expansion(env, rest, 0),
        ),
{
    let text = seq!['$', '{'] + name + seq!['}'] + rest;
    let end = 2 + name.len() as int;
    assert(text[end] == '}');
    assert forall|k: int| 2 <= k < end implies #[trigger] text[k] != '}' by {
        assert(text[k] == name[k - 2]);
    }
    lemma_brace_at(text, 2, end);
    assert(text.subrange(2, end) =~= name);
    assert(reference(text, 1) == Ok::<_, ReferenceDefect>((name, end + 1)));
    assert(text.skip(end + 1) =~= rest);
    lemma_expansion_skip(env, text, end + 1, 0);
}

proof fn lemma_brace_at(text: Seq<char>, from: int, to: int)
    requires
        0 <= from <= to < text.len(),
        forall|k: int| from <= k < to ==> #[trigger] text[k] != '}',
        text[to] == '}',
    ensures
        brace_end(text, from) == to,
    decreases to - from,
{
    if from < to {
        lemma_brace_at(text, from + 1, to);
    }
}

/// A reference without braces expands to the value of its variable, where what follows does not
/// go on with the name.
pub proof fn law_plain_references_expand(
    env: Map<Seq<char>, String>,
    name: Seq<char>,
    rest: Seq<char>,
)
    requires
        is_name(name),
        env.contains_key(name),
        rest.len() > 0 ==> !continues_name(rest[0]),
    ensures
        expansion(env, seq!['$'] + name + rest, 0) == before(env[name]@, expansion(env, rest, 0)),
{
    let text = seq!['$'] + name + rest;
    let end = 1 + name.len() as int;
    assert forall|k: int| 1 <= k < end implies continues_name(#[trigger] text[k]) by {
        assert(text[k] == name[k - 1]);
    }
    assert(text[1] == name[0]);
    if rest.len() > 0 {
        assert(text[end] == rest[0]);
    }
    lemma_name_to(text, 1, end);
    assert(text.subrange(1, end) =~= name);
    assert(reference(text, 1) == Ok::<_, ReferenceDefect>((name, end)));
    assert(text.skip(end) =~= rest);
    lemma_expansion_skip(env, text, end, 0);
}

proof fn lemma_name_to(text: Seq<char>, from: int, to: int)
    requires
        0 <= from <= to <= text.len(),
        forall|k: int| from <= k < to ==> continues_name(#[trigger] text[k]),
        to < text.len() ==> !continues_name(text[to]),
    ensures
        name_end(text, from) == to,
    decreases to - from,
{
    if from < to {
        lemma_name_to(text, from + 1, to);
    }
}

/// Text without dollars is passed over: what stands behind it expands as it would alone, with the
/// text in front; and where that cannot be expanded, the problem is the same.
pub proof fn law_plain_text_is_passed_over(
    env: Map<Seq<char>, String>,
    plain: Seq<char>,
    rest: Seq<char>,
)
    requires
        forall|k: int| 0 <= k < plain.len() ==> #[trigger] plain[k] != '$',
    ensures
        expansion(env, plain + rest, 0) == match expansion(env, rest, 0) {
            Ok(text) => Ok::<_, ReferenceDefect>(plain + text),
            Err(problem) => Err(problem),
        },
    decreases plain.len(),
{
    let whole = plain + rest;
    if plain.len() == 0 {
        assert(whole =~= rest);
        if let Ok(text) = expansion(env, rest, 0) {
            assert(plain + text =~= text);
        }
    } else {
        let first = plain[0];
        assert(whole[0] == first && first != '$');
        assert(whole.skip(1) =~= plain.skip(1) + rest);
        lemma_expansion_skip(env, whole, 1, 0);
        law_plain_text_is_passed_over(env, plain.skip(1), rest);
        if let Ok(text) = expansion(env, rest, 0) {
            assert(seq![first] + (plain.skip(1) + text) =~= plain + text);
        }
    }
}

/// Two dollars stand for one, wherever they stand.
pub proof fn law_two_dollars_stand_for_one(env: Map<Seq<char>, String>, plain: Seq<char>, rest: Seq<char>)
    requires
        forall|k: int| 0 <= k < plain.len() ==> #[trigger] plain[k] != '$',
    ensures
        expansion(env, plain + seq!['$', '$'] + rest, 0) == match expansion(env, rest, 0) {
            Ok(text) => Ok::<_, ReferenceDefect>(plain + seq!['$'] + text),
            Err(problem) => Err(problem),
        },
{
    let tail = seq!['$', '$'] + rest;
    assert(plain + seq!['$', '$'] + rest =~= plain + tail);
    law_plain_text_is_passed_over(env, plain, tail);
    assert(tail[0] == '$' && tail[1] == '$');
    assert(tail.skip(2) =~= rest);
    lemma_expansion_skip(env, tail, 2, 0);
    if let Ok(text) = expansion(env, rest, 0) {
        assert(plain + (seq!['$'] + text) =~= plain + seq!['$'] + text);
    }
}

/// Whether a text is made as the name of a variable is: a letter or an underscore, and then letters,
/// digits and underscores.
pub open spec fn names_variable(name: Seq<char>) -> bool {
    &&& name.len() > 0
    &&& forall|k: int|
        0 <= k < name.len() ==> ('a' <= #[trigger] name[k] <= 'z' || 'A' <= name[k] <= 'Z' || name[k]
            == '_' || (k > 0 && '0' <= name[k] <= '9'))
}

proof fn lemma_names_variable(name: Seq<char>)
    requires
        names_variable(name),
    ensures
        is_name(name),
{
    assert(begins_name(name[0]));
}

/// A reference, with braces or without, gives the value of its variable wherever it stands, with the
/// text before it in front and what follows it expanded. A variable that the environment lacks is
/// reported by its name.
pub proof fn law_references_expand_wherever_they_stand(
    env: Map<Seq<char>, String>,
    plain: Seq<char>,
    name: Seq<char>,
    rest: Seq<char>,
)
    requires
        forall|k: int| 0 <= k < plain.len() ==> #[trigger] plain[k] != '$',
        names_variable(name),
    ensures
        expansion(env, plain + seq!['$', '{'] + name + seq!['}'] + rest, 0) == expected_reference(
            env,
            plain,
            name,
            expansion(env, rest, 0),
        ),
        (rest.len() == 0 || !('a' <= rest[0] <= 'z' || 'A' <= rest[0] <= 'Z' || rest[0] == '_' || '0'
            <= rest[0] <= '9')) ==> expansion(env, plain + seq!['$'] + name + rest, 0)
            == expected_reference(env, plain, name, expansion(env, rest, 0)),
{
    lemma_names_variable(name);
    let braced = seq!['$', '{'] + name + seq!['}'] + rest;
    assert(plain + seq!['$', '{'] + name + seq!['}'] + rest =~= plain + braced);
    law_plain_text_is_passed_over(env, plain, braced);
    let bare = seq!['$'] + name + rest;
    assert(plain + seq!['$'] + name + rest =~= plain + bare);
    law_plain_text_is_passed_over(env, plain, bare);
    let end = 2 + name.len() as int;
    assert(braced[0] == '$' && braced[1] == '{' && braced[end] == '}');
    assert forall|k: int| 2 <= k < end implies #[trigger] braced[k] != '}' by {
        assert(braced[k] == name[k - 2]);
    }
    lemma_brace_at(braced, 2, end);
    assert(braced.subrange(2, end) =~= name);
    assert(reference(braced, 1) == Ok::<_, ReferenceDefect>((name, end + 1)));
    if env.contains_key(name) {
        law_references_in_braces_expand(env, name, rest);
        if let Ok(text) = expansion(env, rest, 0) {
            assert(plain + (env[name]@ + text) =~= plain + env[name]@ + text);
        }
    }
    if rest.len() == 0 || !continues_name(rest[0]) {
        let stop = 1 + name.len() as int;
        assert forall|k: int| 1 <= k < stop implies continues_name(#[trigger] bare[k]) by {
            assert(bare[k] == name[k - 1]);
        }
        assert(bare[0] == '$' && bare[1] == name[0]);
        if rest.len() > 0 {
            assert(bare[stop] == rest[0]);
        }
        lemma_name_to(bare, 1, stop);
        assert(bare.subrange(1, stop) =~= name);
        assert(reference(bare, 1) == Ok::<_, ReferenceDefect>((name, stop)));
        if env.contains_key(name) {
            law_plain_references_expand(env, name, rest);
        }
    }
}

/// What a reference behind plain text gives: the text, the value of the variable, and the expansion
/// of what follows.
pub open spec fn expected_reference(
    env: Map<Seq<char>, String>,
    plain: Seq<char>,
    name: Seq<char>,
    rest: Result<Seq<char>, ReferenceDefect>,
) -> Result<Seq<char>, ReferenceDefect> {
    if env.contains_key(name) {
        match rest {
            Ok(text) => Ok(plain + env[name]@ + text),
            Err(problem) => Err(problem),
        }
    } else {
        Err(ReferenceProblem::MissingVariable(name))
    }
}

/// What is not a reference is refused, wherever it stands: a dollar at the end, a brace that is not
/// closed, braces around what is no name, and a dollar before a character that begins no name.
pub proof fn law_malformed_references_are_refused(
    env: Map<Seq<char>, String>,
    plain: Seq<char>,
    inner: Seq<char>,
    rest: Seq<char>,
    c: char,
)
    requires
        forall|k: int| 0 <= k < plain.len() ==> #[trigger] plain[k] != '$',
        forall|k: int| 0 <= k < inner.len() ==> #[trigger] inner[k] != '}',
    ensures
        expansion(env, plain + seq!['$'], 0) == Err::<Seq<char>, ReferenceDefect>(ReferenceProblem::TrailingDollar),
        expansion(env, plain + seq!['$', '{'] + inner, 0) == Err::<Seq<char>, ReferenceDefect>(
            ReferenceProblem::Unclosed,
        ),
        !names_variable(inner) ==> expansion(
            env,
            plain + seq!['$', '{'] + inner + seq!['}'] + rest,
            0,
        ) == Err::<Seq<char>, ReferenceDefect>(ReferenceProblem::InvalidName(inner)),
        !('a' <= c <= 'z' || 'A' <= c <= 'Z' || c == '_' || c == '{' || c == '$') ==> expansion(
            env,
            plain + seq!['$', c] + rest,
            0,
        ) == Err::<Seq<char>, ReferenceDefect>(ReferenceProblem::InvalidReference(c)),
{
    let dollar = seq!['$'];
    law_plain_text_is_passed_over(env, plain, dollar);
    let open = seq!['$', '{'] + inner;
    assert(plain + seq!['$', '{'] + inner =~= plain + open);
    law_plain_text_is_passed_over(env, plain, open);
    assert(open[0] == '$' && open[1] == '{');
    assert forall|k: int| 2 <= k < open.len() implies #[trigger] open[k] != '}' by {
        assert(open[k] == inner[k - 2]);
    }
    lemma_no_brace(open, 2);
    let closed = seq!['$', '{'] + inner + seq!['}'] + rest;
    assert(plain + seq!['$', '{'] + inner + seq!['}'] + rest =~= plain + closed);
    law_plain_text_is_passed_over(env, plain, closed);
    let end = 2 + inner.len() as int;
    assert(closed[0] == '$' && closed[1] == '{' && closed[end] == '}');
    assert forall|k: int| 2 <= k < end implies #[trigger] closed[k] != '}' by {
        assert(closed[k] == inner[k - 2]);
    }
    lemma_brace_at(closed, 2, end);
    assert(closed.subrange(2, end) =~= inner);
    if is_name(inner) {
        assert(names_variable(inner)) by {
            assert forall|k: int| 0 <= k < inner.len() implies ('a' <= #[trigger] inner[k] <= 'z' || 'A'
                <= inner[k] <= 'Z' || inner[k] == '_' || (k > 0 && '0' <= inner[k] <= '9')) by {
                if k == 0 {
                    assert(begins_name(inner[0]));
                } else {
                    assert(continues_name(inner[k]));
                }
            }
        }
    }
    let wrong = seq!['$', c] + rest;
    assert(plain + seq!['$', c] + rest =~= plain + wrong);
    law_plain_text_is_passed_over(env, plain, wrong);
    assert(wrong[0] == '$' && wrong[1] == c);
}

proof fn lemma_no_brace(text: Seq<char>, i: int)
    requires
        0 <= i <= text.len(),
        forall|k: int| i <= k < text.len() ==> #[trigger] text[k] != '}',
    ensures
        brace_end(text, i) == text.len(),
    decreases text.len() - i,
{
    if i < text.len() {
        lemma_no_brace(text, i + 1);
    }
}

} // verus!
