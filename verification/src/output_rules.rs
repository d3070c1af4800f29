//! Session values that are taken from the output of a process.

use crate::config::{OutputExtract, OutputRule};
use crate::patterns::{is_regex, regex_capture, regex_compiles, regex_group};
use crate::render::{read_utf8_lossy, utf8_lossy};
use crate::state::{lemma_text_written, SessionState};
use crate::text::{after_white_space, chars_of, is_white_space, lemma_after_white_space};
use crate::text::{string_of, white_space};
use crate::value::{Json, SessionValue};
use vstd::prelude::*;

verus! {

/// An output rule whose pattern compiles.
#[derive(Debug, Clone)]
pub struct CompiledOutputRule {
    pub pattern: Option<String>,
    pub state_key: String,
    pub extract: OutputExtract,
    pub capture_group: usize,
}

/// Whether `compiled` is what is made of `rule`.
pub open spec fn is_compiled_rule(rule: OutputRule, compiled: CompiledOutputRule) -> bool {
    &&& match rule.pattern {
        Some(pattern) => regex_compiles(pattern@) && compiled.pattern is Some && compiled.pattern->0@
            == pattern@,
        None => compiled.pattern is None,
    }
    &&& compiled.state_key@ == rule.state_key@
    &&& compiled.extract == rule.extract
    &&& compiled.capture_group == rule.capture_group
}

/// Whether the pattern of a rule does not compile.
pub open spec fn has_bad_pattern(rule: OutputRule) -> bool {
    rule.pattern is Some && !regex_compiles(rule.pattern->0@)
}

/// The rules ready for use. The first pattern that does not compile refuses them all.
pub fn compile_output_rules(rules: &Vec<OutputRule>) -> (result: Result<Vec<CompiledOutputRule>, String>)
    ensures
        match result {
            Ok(compiled) => compiled@.len() == rules@.len() && forall|i: int|
                0 <= i < rules@.len() ==> is_compiled_rule(#[trigger] rules@[i], compiled@[i]),
            Err(pattern) => exists|i: int|
                0 <= i < rules@.len() && has_bad_pattern(#[trigger] rules@[i]) && rules@[i].pattern->0@
                    == pattern@ && forall|k: int| 0 <= k < i ==> !has_bad_pattern(#[trigger] rules@[k]),
        },
{
    let mut compiled: Vec<CompiledOutputRule> = Vec::new();
    let mut i: usize = 0;
    while i < rules.len()
        invariant
            i <= rules@.len(),
            compiled@.len() == i,
            forall|k: int| 0 <= k < i ==> is_compiled_rule(#[trigger] rules@[k], compiled@[k]),
            forall|k: int| 0 <= k < i ==> !has_bad_pattern(#[trigger] rules@[k]),
        decreases rules@.len() - i,
    {
        let rule = &rules[i];
        if let Some(pattern) = &rule.pattern {
            if !is_regex(pattern.as_str()) {
                assert(has_bad_pattern(rules@[i as int]));
                return Err(pattern.clone());
            }
        }
        let pattern = match &rule.pattern {
            Some(pattern) => Some(pattern.clone()),
            None => None,
        };
        compiled.push(
            CompiledOutputRule {
                pattern,
                state_key: rule.state_key.clone(),
                extract: rule.extract,
                capture_group: rule.capture_group,
            },
        );
        i = i + 1;
    }
    Ok(compiled)
}

/// The first place from `i` on that holds white space, or the end.
pub open spec fn token_end(line: Seq<char>, i: int) -> int
    decreases line.len() - i,
{
    if 0 <= i < line.len() && !is_white_space(line[i]) {
        token_end(line, i + 1)
    } else {
        i
    }
}

/// Whether a text holds another from place `i` on.
pub open spec fn holds_at(text: Seq<char>, part: Seq<char>, i: int) -> bool {
    0 <= i && i + part.len() <= text.len() && text.subrange(i, i + part.len()) == part
}

/// Whether a text holds another.
pub open spec fn holds_text(text: Seq<char>, part: Seq<char>) -> bool {
    exists|i: int| #[trigger] holds_at(text, part, i)
}

/// Whether a token is the address of a tunnel.
pub open spec fn is_tunnel_address(token: Seq<char>) -> bool {
    "https://"@.is_prefix_of(token) && holds_text(token, "trycloudflare.com"@)
}

/// The place of the first character from `i` on that is no bar.
pub open spec fn bars_end(token: Seq<char>, i: int) -> int
    decreases token.len() - i,
{
    if 0 <= i < token.len() && token[i] == '|' {
        bars_end(token, i + 1)
    } else {
        i
    }
}

/// The place behind the last character before `i` that is no bar.
pub open spec fn bars_start(token: Seq<char>, from: int, i: int) -> int
    decreases i - from,
{
    if from < i <= token.len() && token[i - 1] == '|' {
        bars_start(token, from, i - 1)
    } else {
        i
    }
}

/// A token without the bars around it.
pub open spec fn without_bars(token: Seq<char>) -> Seq<char> {
    let from = bars_end(token, 0);
    token.subrange(from, bars_start(token, from, token.len() as int))
}

/// The first token from place `i` on that is the address of a tunnel, without the bars around it.
pub open spec fn tunnel_address(line: Seq<char>, i: int) -> Option<Seq<char>>
    decreases line.len() - i,
    when 0 <= i
{
    let from = after_white_space(line, i);
    let to = token_end(line, from);
    if from >= line.len() {
        None
    } else {
        proof {
            lemma_after_white_space(line, i);
            lemma_token_end(line, from);
        }
        if is_tunnel_address(line.subrange(from, to)) {
            Some(without_bars(line.subrange(from, to)))
        } else {
            tunnel_address(line, to)
        }
    }
}

/// Where a token ends.
pub proof fn lemma_token_end(line: Seq<char>, i: int)
    requires
        0 <= i,
    ensures
        i <= token_end(line, i),
        i <= line.len() ==> token_end(line, i) <= line.len(),
        i < line.len() && !is_white_space(line[i]) ==> i < token_end(line, i),
    decreases line.len() - i,
{
    if i < line.len() && !is_white_space(line[i]) {
        lemma_token_end(line, i + 1);
    }
}

/// The value that a rule takes from a line.
pub open spec fn extracted(rule: CompiledOutputRule, line: Seq<char>) -> Option<Seq<char>> {
    match rule.extract {
        OutputExtract::Regex => match rule.pattern {
            Some(pattern) => if regex_compiles(pattern@) {
                regex_group(pattern@, line, rule.capture_group)
            } else {
                None
            },
            None => None,
        },
        OutputExtract::UrlToken => tunnel_address(line, 0),
    }
}

/// Whether a text holds another from a place on.
fn text_at(chars: &Vec<char>, part: &Vec<char>, i: usize) -> (result: bool)
    requires
        i <= chars@.len(),
    ensures
        result == holds_at(chars@, part@, i as int),
{
    let n: usize = chars.len();
    if part.len() > n - i {
        return false;
    }
    let mut k: usize = 0;
    while k < part.len()
        invariant
            k <= part@.len(),
            i + part@.len() <= chars@.len() == n,
            forall|j: int| 0 <= j < k ==> chars@[i + j] == part@[j],
        decreases part@.len() - k,
    {
        if chars[i + k] != part[k] {
            assert(chars@.subrange(i as int, i + part@.len())[k as int] != part@[k as int]);
            return false;
        }
        k = k + 1;
    }
    assert(chars@.subrange(i as int, i + part@.len()) =~= part@);
    true
}

fn tunnel_token(token: &Vec<char>) -> (result: bool)
    ensures
        result == is_tunnel_address(token@),
{
    let scheme = chars_of("https://");
    let host = chars_of("trycloudflare.com");
    proof {
        assert(holds_at(token@, "https://"@, 0) <==> "https://"@.is_prefix_of(token@)) by {
            if "https://"@.len() <= token@.len() {
                assert(token@.subrange(0, "https://"@.len() as int) =~= token@.take(
                    "https://"@.len() as int,
                ));
            }
        }
    }
    if !text_at(token, &scheme, 0) {
        return false;
    }
    let mut i: usize = 0;
    while i < token.len()
        invariant
            i <= token@.len(),
            host@ == "trycloudflare.com"@,
            "https://"@.is_prefix_of(token@),
            forall|k: int| 0 <= k < i ==> !#[trigger] holds_at(token@, host@, k),
        decreases token@.len() - i,
    {
        if text_at(token, &host, i) {
            return true;
        }
        i = i + 1;
    }
    proof {
        reveal_strlit("trycloudflare.com");
        assert forall|k: int| !#[trigger] holds_at(token@, host@, k) by {}
    }
    false
}

fn trim_bars(token: &Vec<char>) -> (text: String)
    ensures
        text@ == without_bars(token@),
{
    let mut from: usize = 0;
    while from < token.len() && token[from] == '|'
        invariant
            from <= token@.len(),
            bars_end(token@, 0) == bars_end(token@, from as int),
        decreases token@.len() - from,
    {
        from = from + 1;
    }
    let mut to: usize = token.len();
    while to > from && token[to - 1] == '|'
        invariant
            from <= to <= token@.len(),
            bars_start(token@, from as int, token@.len() as int) == bars_start(
                token@,
                from as int,
                to as int,
            ),
        decreases to - from,
    {
        to = to - 1;
    }
    string_of(token, from, to)
}

/// The first tunnel address of a line.
fn find_tunnel_address(line: &str) -> (found: Option<String>)
    ensures
        match found {
            Some(text) => tunnel_address(line@, 0) == Some(text@),
            None => tunnel_address(line@, 0) is None,
        },
{
    let chars = chars_of(line);
    let mut i: usize = 0;
    loop
        invariant
            i <= chars@.len(),
            chars@ == line@,
            tunnel_address(line@, 0) == tunnel_address(line@, i as int),
        decreases chars@.len() - i,
    {
        let mut from: usize = i;
        while from < chars.len() && white_space(chars[from])
            invariant
                i <= from <= chars@.len(),
                chars@ == line@,
                after_white_space(line@, i as int) == after_white_space(line@, from as int),
            decreases chars@.len() - from,
        {
            from = from + 1;
        }
        if from >= chars.len() {
            return None;
        }
        let mut to: usize = from;
        let mut token: Vec<char> = Vec::new();
        while to < chars.len() && !white_space(chars[to])
            invariant
                from <= to <= chars@.len(),
                chars@ == line@,
                token_end(line@, from as int) == token_end(line@, to as int),
                token@ == line@.subrange(from as int, to as int),
            decreases chars@.len() - to,
        {
            token.push(chars[to]);
            assert(line@.subrange(from as int, to + 1) =~= line@.subrange(from as int, to as int).push(
                line@[to as int],
            ));
            to = to + 1;
        }
        proof {
            lemma_after_white_space(line@, i as int);
            lemma_token_end(line@, from as int);
        }
        if tunnel_token(&token) {
            return Some(trim_bars(&token));
        }
        i = to;
    }
}

/// The value that a rule takes from a line.
pub fn extract_output_value(rule: &CompiledOutputRule, line: &str) -> (value: Option<String>)
    ensures
        match value {
            Some(text) => extracted(*rule, line@) == Some(text@),
            None => extracted(*rule, line@) is None,
        },
{
    match rule.extract {
        OutputExtract::Regex => match &rule.pattern {
            Some(pattern) => regex_capture(pattern.as_str(), line, rule.capture_group),
            None => None,
        },
        OutputExtract::UrlToken => find_tunnel_address(line),
    }
}

/// A text without the newlines and carriage returns at its end.
pub open spec fn without_line_end(text: Seq<char>) -> Seq<char>
    decreases text.len(),
{
    if text.len() > 0 && (text.last() == '\n' || text.last() == '\r') {
        without_line_end(text.drop_last())
    } else {
        text
    }
}

fn trim_line_end(text: &str) -> (result: String)
    ensures
        result@ == without_line_end(text@),
{
    let chars = chars_of(text);
    let mut n: usize = chars.len();
    assert(text@.take(n as int) =~= text@);
    while n > 0 && (chars[n - 1] == '\n' || chars[n - 1] == '\r')
        invariant
            n <= chars@.len(),
            chars@ == text@,
            without_line_end(text@) == without_line_end(text@.take(n as int)),
        decreases n,
    {
        assert(text@.take(n as int).drop_last() =~= text@.take(n - 1));
        n = n - 1;
    }
    assert(text@.take(n as int) =~= text@.subrange(0, n as int));
    string_of(&chars, 0, n)
}

/// The session after the first `n` rules have taken their values from a line.
pub open spec fn after_rules(
    session: Map<Seq<char>, Json>,
    rules: Seq<CompiledOutputRule>,
    line: Seq<char>,
    n: int,
) -> Map<Seq<char>, Json>
    decreases n,
{
    if n <= 0 {
        session
    } else {
        let before = after_rules(session, rules, line, n - 1);
        match extracted(rules[n - 1], line) {
            Some(value) => before.insert(rules[n - 1].state_key@, Json::Text(value)),
            None => before,
        }
    }
}

/// Whether one of the first `n` rules writes something new when a line comes.
pub open spec fn rules_write(
    session: Map<Seq<char>, Json>,
    rules: Seq<CompiledOutputRule>,
    line: Seq<char>,
    n: int,
) -> bool
    decreases n,
{
    n > 0 && (rules_write(session, rules, line, n - 1) || after_rules(session, rules, line, n)
        != after_rules(session, rules, line, n - 1))
}

/// The line of text that the bytes of a line of output stand for.
pub open spec fn line_text(bytes: Seq<u8>) -> Seq<char> {
    without_line_end(utf8_lossy(bytes))
}

/// Writes what the rules take from a line of output of a process. Output of an earlier run of the
/// process, whose generation is not the current one, writes nothing. The state is to be saved if
/// one of the rules wrote something new.
pub fn process_output_line(
    bytes: &[u8],
    rules: &Vec<CompiledOutputRule>,
    state: &mut SessionState,
    generation: u64,
    current_generation: u64,
) -> (changed: bool)
    ensures
        final(state)@ == if generation == current_generation {
            after_rules(old(state)@, rules@, line_text(bytes@), rules@.len() as int)
        } else {
            old(state)@
        },
        changed == (generation == current_generation && rules_write(
            old(state)@,
            rules@,
            line_text(bytes@),
            rules@.len() as int,
        )),
        final(state).file() == old(state).file(),
{
    if generation != current_generation {
        return false;
    }
    let line = trim_line_end(read_utf8_lossy(bytes).as_str());
    let mut changed = false;
    let mut i: usize = 0;
    while i < rules.len()
        invariant
            i <= rules@.len(),
            line@ == line_text(bytes@),
            state@ == after_rules(old(state)@, rules@, line@, i as int),
            changed == rules_write(old(state)@, rules@, line@, i as int),
            state.file() == old(state).file(),
        decreases rules@.len() - i,
    {
        if let Some(value) = extract_output_value(&rules[i], line.as_str()) {
            proof {
                lemma_text_written(state@, rules@[i as int].state_key@, value@);
            }
            let set = state.set(rules[i].state_key.clone(), SessionValue::String(value));
            changed = changed || set;
        }
        i = i + 1;
    }
    changed
}

/// The session after the keys of the first `n` rules have been emptied.
pub open spec fn after_clearing(
    session: Map<Seq<char>, Json>,
    rules: Seq<OutputRule>,
    n: int,
) -> Map<Seq<char>, Json>
    decreases n,
{
    if n <= 0 {
        session
    } else {
        after_clearing(session, rules, n - 1).insert(rules[n - 1].state_key@, Json::Text(Seq::empty()))
    }
}

/// Whether emptying the keys of the first `n` rules changes one of them.
pub open spec fn clearing_writes(session: Map<Seq<char>, Json>, rules: Seq<OutputRule>, n: int) -> bool
    decreases n,
{
    n > 0 && (clearing_writes(session, rules, n - 1) || after_clearing(session, rules, n)
        != after_clearing(session, rules, n - 1))
}

/// Empties the keys of the rules. The state is to be saved if this changed one of them.
pub fn clear_output_state_keys(rules: &Vec<OutputRule>, state: &mut SessionState) -> (changed: bool)
    ensures
        final(state)@ == after_clearing(old(state)@, rules@, rules@.len() as int),
        changed == clearing_writes(old(state)@, rules@, rules@.len() as int),
        final(state).file() == old(state).file(),
{
    let mut changed = false;
    let mut i: usize = 0;
    while i < rules.len()
        invariant
            i <= rules@.len(),
            state@ == after_clearing(old(state)@, rules@, i as int),
            changed == clearing_writes(old(state)@, rules@, i as int),
            state.file() == old(state).file(),
        decreases rules@.len() - i,
    {
        let nothing = String::new();
        assert(nothing@ =~= Seq::empty());
        proof {
            lemma_text_written(state@, rules@[i as int].state_key@, nothing@);
        }
        let set = state.set(rules[i].state_key.clone(), SessionValue::String(nothing));
        changed = changed || set;
        i = i + 1;
    }
    changed
}

/// After the keys of the rules have been emptied each of them holds an empty text, and the other
/// keys hold what they held.
pub proof fn law_clearing_empties_the_keys(
    session: Map<Seq<char>, Json>,
    rules: Seq<OutputRule>,
    n: int,
    key: Seq<char>,
)
    requires
        0 <= n <= rules.len(),
    ensures
        ({
            let after = after_clearing(session, rules, n);
            if exists|i: int| 0 <= i < n && (#[trigger] rules[i]).state_key@ == key {
                after.contains_key(key) && after[key] == Json::Text(Seq::empty())
            } else {
                after.contains_key(key) == session.contains_key(key) && (session.contains_key(key)
                    ==> after[key] == session[key])
            }
        }),
    decreases n,
{
    if n > 0 {
        law_clearing_empties_the_keys(session, rules, n - 1, key);
        if rules[n - 1].state_key@ != key {
            assert((exists|i: int| 0 <= i < n && (#[trigger] rules[i]).state_key@ == key)
                ==> exists|i: int| 0 <= i < n - 1 && (#[trigger] rules[i]).state_key@ == key);
        } else {
            assert(rules[n - 1].state_key@ == key);
        }
    }
}

/// Whether a piece of a line is one of its tokens: it holds no white space, and white space or an
/// end of the line stands on either side.
pub open spec fn is_token(line: Seq<char>, from: int, to: int) -> bool {
    &&& 0 <= from < to <= line.len()
    &&& forall|k: int| from <= k < to ==> !is_white_space(#[trigger] line[k])
    &&& from == 0 || is_white_space(line[from - 1])
    &&& to == line.len() || is_white_space(line[to])
}

/// The text of a tunnel address with what stands before and behind the name of its host.
pub open spec fn tunnel_text(host: Seq<char>, rest: Seq<char>) -> Seq<char> {
    "https://"@ + host + "trycloudflare.com"@ + rest
}

proof fn lemma_tunnel_text(host: Seq<char>, rest: Seq<char>)
    ensures
        is_tunnel_address(tunnel_text(host, rest)),
{
    let token = tunnel_text(host, rest);
    let scheme = "https://"@;
    assert(token.take(scheme.len() as int) =~= scheme);
    let i = scheme.len() + host.len();
    assert(token.subrange(i as int, (i + "trycloudflare.com"@.len()) as int) =~= "trycloudflare.com"@);
    assert(holds_at(token, "trycloudflare.com"@, i as int));
}

proof fn lemma_tunnel_parts(token: Seq<char>) -> (parts: (Seq<char>, Seq<char>))
    requires
        is_tunnel_address(token),
    ensures
        token == tunnel_text(parts.0, parts.1),
{
    let scheme = "https://"@;
    let name = "trycloudflare.com"@;
    reveal_strlit("https://");
    reveal_strlit("trycloudflare.com");
    let i = choose|i: int| #[trigger] holds_at(token, name, i);
    assert(token.take(8) == scheme);
    assert forall|k: int| 0 <= k < 8 implies token[k] == scheme[k] by {
        assert(token.take(8)[k] == scheme[k]);
    }
    assert forall|k: int| 0 <= k < 17 implies token[i + k] == name[k] by {
        assert(token.subrange(i, i + 17)[k] == name[k]);
    }
    assert(i >= 8) by {
        if i < 8 {
            assert(name[0] == 't' && name[1] == 'r');
            assert(token[i + 0] == name[0] && token[i + 1] == name[1]);
            assert(token[0] == scheme[0] && token[1] == scheme[1] && token[2] == scheme[2] && token[3]
                == scheme[3] && token[4] == scheme[4] && token[5] == scheme[5] && token[6] == scheme[6]
                && token[7] == scheme[7]);
            assert(i == 1 || i == 2);
        }
    }
    let host = token.subrange(8, i);
    let rest = token.skip(i + 17);
    assert(token =~= tunnel_text(host, rest));
    (host, rest)
}

proof fn lemma_token_to(line: Seq<char>, from: int, i: int, to: int)
    requires
        is_token(line, from, to),
        from <= i <= to,
    ensures
        token_end(line, i) == to,
    decreases to - i,
{
    if i < to {
        assert(!is_white_space(line[i]));
        lemma_token_to(line, from, i + 1, to);
    }
}

proof fn lemma_space_to(line: Seq<char>, i: int, from: int)
    requires
        0 <= i <= from < line.len(),
        !is_white_space(line[from]),
    ensures
        i <= after_white_space(line, i) <= from,
        forall|k: int| i <= k < after_white_space(line, i) ==> is_white_space(#[trigger] line[k]),
    decreases from - i,
{
    if i < from && is_white_space(line[i]) {
        lemma_space_to(line, i + 1, from);
    }
}

proof fn lemma_token_from(line: Seq<char>, from: int, i: int)
    requires
        0 <= from <= i <= line.len(),
        forall|k: int| from <= k < i ==> !is_white_space(#[trigger] line[k]),
    ensures
        i <= token_end(line, i) <= line.len(),
        forall|k: int| from <= k < token_end(line, i) ==> !is_white_space(#[trigger] line[k]),
        token_end(line, i) == line.len() || is_white_space(line[token_end(line, i)]),
    decreases line.len() - i,
{
    if i < line.len() && !is_white_space(line[i]) {
        lemma_token_from(line, from, i + 1);
    }
}

proof fn lemma_first_token(line: Seq<char>, i: int, from: int, to: int)
    requires
        is_token(line, from, to),
        is_tunnel_address(line.subrange(from, to)),
        forall|f: int, t: int| #[trigger]
            is_token(line, f, t) && f < from ==> !is_tunnel_address(line.subrange(f, t)),
        0 <= i <= from,
        i == 0 || is_white_space(line[i]),
    ensures
        tunnel_address(line, i) == Some(without_bars(line.subrange(from, to))),
    decreases from - i,
{
    lemma_space_to(line, i, from);
    lemma_after_white_space(line, i);
    let f = after_white_space(line, i);
    let t = token_end(line, f);
    lemma_token_from(line, f, f);
    if f > i {
        assert(is_white_space(line[f - 1]));
    }
    assert(t > f);
    assert(is_token(line, f, t));
    if f == from {
        lemma_token_to(line, from, from, to);
    } else {
        assert(is_white_space(line[from - 1]));
        assert(t <= from);
        lemma_first_token(line, t, from, to);
    }
}

proof fn lemma_no_token(line: Seq<char>, i: int)
    requires
        forall|f: int, t: int| #[trigger]
            is_token(line, f, t) ==> !is_tunnel_address(line.subrange(f, t)),
        0 <= i <= line.len(),
        i == 0 || i == line.len() || is_white_space(line[i]),
    ensures
        tunnel_address(line, i) is None,
    decreases line.len() - i,
{
    lemma_after_white_space(line, i);
    let f = after_white_space(line, i);
    if f < line.len() {
        lemma_space_to(line, i, f);
        let t = token_end(line, f);
        lemma_token_from(line, f, f);
        if f > i {
            assert(is_white_space(line[f - 1]));
        }
        assert(is_token(line, f, t));
        lemma_no_token(line, t);
    }
}

proof fn lemma_bars_cut(token: Seq<char>, i: int)
    requires
        0 < i <= token.len(),
        token[0] != '|',
    ensures
        0 < bars_start(token, 0, i) <= i,
        token[bars_start(token, 0, i) - 1] != '|',
        forall|k: int| bars_start(token, 0, i) <= k < i ==> #[trigger] token[k] == '|',
    decreases i,
{
    if token[i - 1] == '|' {
        lemma_bars_cut(token, i - 1);
    }
}

/// The first token of a line that begins with `https://` and names `trycloudflare.com`, whatever
/// else it holds, is what the rule takes, without the bars at its end.
pub proof fn law_the_first_tunnel_address_is_taken(
    rule: CompiledOutputRule,
    line: Seq<char>,
    from: int,
    to: int,
    host: Seq<char>,
    rest: Seq<char>,
)
    requires
        rule.extract == OutputExtract::UrlToken,
        is_token(line, from, to),
        line.subrange(from, to) == "https://"@ + host + "trycloudflare.com"@ + rest,
        forall|f: int, t: int, h: Seq<char>, r: Seq<char>|
            #![trigger is_token(line, f, t), tunnel_text(h, r)]
            is_token(line, f, t) && f < from ==> line.subrange(f, t) != tunnel_text(h, r),
    ensures
        ({
            let token = line.subrange(from, to);
            extracted(rule, line) matches Some(value) && value.len() > 0 && value[value.len() - 1] != '|'
                && value.is_prefix_of(token) && forall|k: int|
                value.len() <= k < token.len() ==> #[trigger] token[k] == '|'
        }),
{
    let token = line.subrange(from, to);
    assert(token == tunnel_text(host, rest));
    lemma_tunnel_text(host, rest);
    assert forall|f: int, t: int| #[trigger] is_token(line, f, t) && f < from implies !is_tunnel_address(
        line.subrange(f, t),
    ) by {
        if is_tunnel_address(line.subrange(f, t)) {
            let (h, r) = lemma_tunnel_parts(line.subrange(f, t));
            assert(line.subrange(f, t) == tunnel_text(h, r));
        }
    }
    lemma_first_token(line, 0, from, to);
    reveal_strlit("https://");
    assert(token[0] == 'h');
    lemma_bars_cut(token, token.len() as int);
    let value = without_bars(token);
    let end = bars_start(token, 0, token.len() as int);
    assert(bars_end(token, 0) == 0);
    assert(value == token.subrange(0, end));
    assert(value[value.len() - 1] == token[end - 1]);
    assert(value =~= token.take(value.len() as int));
}

/// Where a line has no such token, the rule takes nothing.
pub proof fn law_lines_without_tunnel_address_give_nothing(rule: CompiledOutputRule, line: Seq<char>)
    requires
        rule.extract == OutputExtract::UrlToken,
        forall|f: int, t: int, h: Seq<char>, r: Seq<char>|
            #![trigger is_token(line, f, t), tunnel_text(h, r)]
            is_token(line, f, t) ==> line.subrange(f, t) != tunnel_text(h, r),
    ensures
        extracted(rule, line) is None,
{
    assert forall|f: int, t: int| #[trigger] is_token(line, f, t) implies !is_tunnel_address(
        line.subrange(f, t),
    ) by {
        if is_tunnel_address(line.subrange(f, t)) {
            let (h, r) = lemma_tunnel_parts(line.subrange(f, t));
            assert(line.subrange(f, t) == tunnel_text(h, r));
        }
    }
    lemma_no_token(line, 0);
}

/// A rule with a pattern takes the group that is configured from the first match; one without takes
/// nothing.
pub proof fn law_pattern_rules_take_their_group(rule: CompiledOutputRule, line: Seq<char>)
    requires
        rule.extract == OutputExtract::Regex,
    ensures
        rule.pattern is None ==> extracted(rule, line) is None,
        rule.pattern matches Some(pattern) ==> (regex_compiles(pattern@) ==> extracted(rule, line)
            == regex_group(pattern@, line, rule.capture_group)),
{
}

/// A rule that finds a value in a line writes it to its key, unless a later rule with the same key
/// finds one too; where no rule of a key finds a value, the key keeps what it held.
pub proof fn law_rules_write_what_they_find(
    session: Map<Seq<char>, Json>,
    rules: Seq<CompiledOutputRule>,
    line: Seq<char>,
    n: int,
    key: Seq<char>,
    i: int,
)
    requires
        0 <= n <= rules.len(),
    ensures
        ({
            let after = after_rules(session, rules, line, n);
            &&& (0 <= i < n && rules[i].state_key@ == key && extracted(rules[i], line) is Some && forall|
                k: int,
            |
                i < k < n && (#[trigger] rules[k]).state_key@ == key ==> extracted(rules[k], line)
                    is None) ==> after.contains_key(key) && after[key] == Json::Text(
                extracted(rules[i], line)->0,
            )
            &&& (forall|k: int|
                0 <= k < n && (#[trigger] rules[k]).state_key@ == key ==> extracted(rules[k], line)
                    is None) ==> after.contains_key(key) == session.contains_key(key) && (
            session.contains_key(key) ==> after[key] == session[key])
        }),
    decreases n,
{
    if n > 0 {
        law_rules_write_what_they_find(session, rules, line, n - 1, key, i);
        let last = rules[n - 1];
        assert(last.state_key@ == key ==> rules[n - 1].state_key@ == key);
    }
}

/// A line is read without the returns and newlines at its end, and with all before them.
pub proof fn law_line_ends_are_left_out(text: Seq<char>, end: Seq<char>)
    requires
        text.len() > 0 ==> text[text.len() - 1] != '\n' && text[text.len() - 1] != '\r',
        forall|i: int| 0 <= i < end.len() ==> #[trigger] end[i] == '\n' || end[i] == '\r',
    ensures
        without_line_end(text + end) == text,
    decreases end.len(),
{
    if end.len() > 0 {
        let whole = text + end;
        assert(whole.last() == end[end.len() - 1]);
        assert(whole.drop_last() =~= text + end.drop_last());
        law_line_ends_are_left_out(text, end.drop_last());
    } else {
        assert(text + end =~= text);
    }
}

/// Where nothing is written anew, the session stays as it was; so it is saved whenever it changed.
pub proof fn law_unwritten_sessions_stay(
    session: Map<Seq<char>, Json>,
    rules: Seq<CompiledOutputRule>,
    own: Seq<OutputRule>,
    line: Seq<char>,
    n: int,
)
    ensures
        !rules_write(session, rules, line, n) ==> after_rules(session, rules, line, n) == session,
        !clearing_writes(session, own, n) ==> after_clearing(session, own, n) == session,
    decreases n,
{
    if n > 0 {
        law_unwritten_sessions_stay(session, rules, own, line, n - 1);
    }
}

/// A rule that is ready for use has the pattern, the key, the kind and the group that are
/// configured, and only a pattern that does not compile refuses it.
pub proof fn law_rules_are_used_as_configured(rule: OutputRule, compiled: CompiledOutputRule)
    ensures
        is_compiled_rule(rule, compiled) ==> {
            &&& compiled.state_key@ == rule.state_key@
            &&& compiled.extract == rule.extract
            &&& compiled.capture_group == rule.capture_group
            &&& compiled.pattern is Some <==> rule.pattern is Some
            &&& rule.pattern matches Some(pattern) ==> compiled.pattern->0@ == pattern@
                && regex_compiles(pattern@)
        },
        has_bad_pattern(rule) <==> (rule.pattern matches Some(pattern) && !regex_compiles(pattern@)),
{
}

} // verus!
