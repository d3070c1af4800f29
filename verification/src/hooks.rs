//! What becomes of what a hook prints.

use crate::config::{CaptureMode, HookSpec};
use crate::json::{is_writable_session, json_object, read_json_object};
use crate::lines::{line_step, no_line, LineModel, LineSplitter};
use crate::name_map::NameMap;
use crate::render::{read_utf8, Utf8Text};
use crate::session_log::{labeled_record, log_record};
use crate::state::{lemma_text_written, merged, SessionState};
use crate::text::{trim, trimmed};
use crate::value::{session_of, Json, SessionValue};
use vstd::prelude::*;
use vstd::utf8::{decode_utf8, valid_utf8};

verus! {

/// Why what a hook printed cannot be used.
#[derive(Debug, Clone, PartialEq, Eq)]
pub enum HookError {
    /// The hook failed.
    Failed { name: String, status: String },
    /// What the hook printed is not UTF-8.
    NotUtf8 { name: String },
    /// What the hook printed is not a JSON object.
    NotJson,
}

impl HookError {
    /// The text of the error.
    pub fn message(&self) -> (text: String)
        ensures
            text@ == match *self {
                HookError::Failed { name, status } => "hook '"@ + name@ + "' failed with status "@
                    + status@,
                HookError::NotUtf8 { name } => "hook '"@ + name@ + "' produced non-utf8 stdout"@,
                HookError::NotJson => "hook stdout was not valid JSON"@,
            },
    {
        match self {
            HookError::Failed { name, status } => "hook '".to_owned().concat(name.as_str()).concat(
                "' failed with status ",
            ).concat(status.as_str()),
            HookError::NotUtf8 { name } => "hook '".to_owned().concat(name.as_str()).concat(
                "' produced non-utf8 stdout",
            ),
            HookError::NotJson => "hook stdout was not valid JSON".to_owned(),
        }
    }
}

/// How the output of a hook is captured.
pub open spec fn capture_of(hook: HookSpec) -> CaptureMode {
    match hook.capture {
        Some(mode) => mode,
        None => CaptureMode::Ignore,
    }
}

/// The session after the output of a hook has been captured; `object` is the object that a JSON
/// capture reads.
pub open spec fn captured_session(
    hook: HookSpec,
    stdout: Seq<char>,
    object: Option<Map<Seq<char>, Json>>,
    session: Map<Seq<char>, Json>,
) -> Option<Map<Seq<char>, Json>> {
    match capture_of(hook) {
        CaptureMode::Ignore => Some(session),
        CaptureMode::Text => Some(session.insert(hook.state_key->0@, Json::Text(stdout))),
        CaptureMode::Json => match object {
            Some(object) => Some(merged(session, object)),
            None => None,
        },
    }
}

/// Merges the object that a hook printed, where it printed one.
pub fn merge_capture(object: Option<&NameMap<SessionValue>>, state: &mut SessionState) -> (result: Result<
    bool,
    HookError,
>)
    ensures
        final(state).file() == old(state).file(),
        match object {
            Some(object) => {
                &&& final(state)@ == merged(old(state)@, session_of(*object))
                &&& result == Ok::<bool, HookError>(final(state)@ != old(state)@)
            },
            None => result == Err::<bool, HookError>(HookError::NotJson) && final(state)@ == old(state)@,
        },
{
    match object {
        Some(object) => Ok(state.merge_json_object(object)),
        None => Err(HookError::NotJson),
    }
}

/// Captures what a hook printed. The state is to be saved if this changed it.
pub fn apply_hook_capture(hook: &HookSpec, stdout: &str, state: &mut SessionState) -> (result: Result<
    bool,
    HookError,
>)
    requires
        hook.capture == Some(CaptureMode::Text) ==> hook.state_key is Some,
    ensures
        final(state).file() == old(state).file(),
        is_writable_session(old(state)@) ==> is_writable_session(final(state)@),
        match captured_session(*hook, stdout@, json_object(stdout@), old(state)@) {
            Some(session) => {
                &&& final(state)@ == session
                &&& result == Ok::<bool, HookError>(final(state)@ != old(state)@)
            },
            None => result == Err::<bool, HookError>(HookError::NotJson) && final(state)@ == old(state)@,
        },
{
    match hook.capture {
        None | Some(CaptureMode::Ignore) => Ok(false),
        Some(CaptureMode::Text) => match &hook.state_key {
            Some(key) => {
                proof {
                    lemma_text_written(state@, key@, stdout@);
                }
                Ok(state.set(key.clone(), SessionValue::String(stdout.to_owned())))
            },
            None => Ok(false),
        },
        Some(CaptureMode::Json) => match read_json_object(stdout) {
            Some(object) => merge_capture(Some(&object), state),
            None => merge_capture(None, state),
        },
    }
}

/// What comes of a hook that has exited: a failure, or what its output does to the session.
pub fn finish_hook(
    hook: &HookSpec,
    name: &str,
    success: bool,
    status: &str,
    stdout: &[u8],
    state: &mut SessionState,
) -> (result: Result<bool, HookError>)
    requires
        hook.capture == Some(CaptureMode::Text) ==> hook.state_key is Some,
    ensures
        final(state).file() == old(state).file(),
        is_writable_session(old(state)@) ==> is_writable_session(final(state)@),
        if !success {
            &&& result matches Err(HookError::Failed { name: n, status: s }) && n@ == name@ && s@
                == status@
            &&& final(state)@ == old(state)@
        } else if !valid_utf8(stdout@) {
            &&& result matches Err(HookError::NotUtf8 { name: n }) && n@ == name@
            &&& final(state)@ == old(state)@
        } else {
            let text = trimmed(decode_utf8(stdout@));
            match captured_session(*hook, text, json_object(text), old(state)@) {
                Some(session) => {
                    &&& final(state)@ == session
                    &&& result == Ok::<bool, HookError>(final(state)@ != old(state)@)
                },
                None => result == Err::<bool, HookError>(HookError::NotJson) && final(state)@
                    == old(state)@,
            }
        },
{
    if !success {
        return Err(HookError::Failed { name: name.to_owned(), status: status.to_owned() });
    }
    match read_utf8(stdout) {
        Utf8Text::Complete(text) => {
            let text = trim(text.as_str());
            apply_hook_capture(hook, text.as_str(), state)
        },
        _ => Err(HookError::NotUtf8 { name: name.to_owned() }),
    }
}

/// Collects the output of a hook, and the records of its lines for the session log.
#[derive(Debug)]
pub struct HookOutput {
    label: String,
    output: Vec<u8>,
    lines: LineSplitter,
    logging: bool,
}

/// What has been collected of the output of a hook.
pub struct HookOutputView {
    pub label: Seq<char>,
    pub output: Seq<u8>,
    pub lines: LineModel,
    pub logging: bool,
}

impl HookOutput {
    /// What has been collected.
    pub closed spec fn view(&self) -> HookOutputView {
        HookOutputView {
            label: self.label@,
            output: self.output@,
            lines: self.lines@,
            logging: self.logging,
        }
    }

    /// Nothing has been collected.
    pub fn new(label: String, logging: bool) -> (output: Self)
        ensures
            output@ == (HookOutputView {
                label: label@,
                output: Seq::empty(),
                lines: no_line(),
                logging,
            }),
    {
        let output = HookOutput { label, output: Vec::new(), lines: LineSplitter::new(), logging };
        assert(output@.output =~= Seq::empty());
        output
    }

    /// Takes in a byte, and returns the record for the session log that it completes.
    pub fn push(&mut self, byte: u8) -> (record: Option<Vec<u8>>)
        ensures
            final(self)@.label == old(self)@.label,
            final(self)@.logging == old(self)@.logging,
            final(self)@.output == old(self)@.output.push(byte),
            if old(self)@.logging {
                let (lines, line) = line_step(old(self)@.lines, byte);
                &&& final(self)@.lines == lines
                &&& match line {
                    Some(line) => record matches Some(bytes) && bytes@ == log_record(
                        old(self)@.label,
                        line,
                    ),
                    None => record is None,
                }
            } else {
                record is None && final(self)@.lines == old(self)@.lines
            },
    {
        self.output.push(byte);
        if !self.logging {
            return None;
        }
        match self.lines.push(byte) {
            Some(line) => Some(labeled_record(self.label.as_str(), line.as_slice())),
            None => None,
        }
    }

    /// Notes that the session log failed: no more records are made.
    pub fn stop_logging(&mut self)
        ensures
            final(self)@ == (HookOutputView { logging: false, ..old(self)@ }),
    {
        self.logging = false;
    }

    /// The whole output, and the record of a line that was not ended.
    pub fn finish(self) -> (result: (Vec<u8>, Option<Vec<u8>>))
        ensures
            result.0@ == self@.output,
            if self@.logging && self@.lines.line.len() > 0 {
                result.1 matches Some(bytes) && bytes@ == log_record(self@.label, self@.lines.line)
            } else {
                result.1 is None
            },
    {
        let record = if self.logging {
            match self.lines.finish() {
                Some(line) => Some(labeled_record(self.label.as_str(), line.as_slice())),
                None => None,
            }
        } else {
            None
        };
        (self.output, record)
    }
}

/// What a capture does: nothing where it is left out or to be ignored; the text under the key that
/// is named, and nothing else; or each key of the object that was printed, and a refusal where none
/// was.
pub proof fn law_captures_do_what_they_say(
    hook: HookSpec,
    stdout: Seq<char>,
    object: Map<Seq<char>, Json>,
    session: Map<Seq<char>, Json>,
)
    ensures
        hook.capture is None || hook.capture == Some(CaptureMode::Ignore) ==> captured_session(
            hook,
            stdout,
            Some(object),
            session,
        ) == Some(session),
        hook.capture == Some(CaptureMode::Text) && hook.state_key is Some ==> captured_session(
            hook,
            stdout,
            Some(object),
            session,
        ) == Some(session.insert(hook.state_key->0@, Json::Text(stdout))),
        hook.capture == Some(CaptureMode::Json) ==> captured_session(
            hook,
            stdout,
            Some(object),
            session,
        ) == Some(merged(session, object)) && captured_session(hook, stdout, None, session) is None,
{
}

} // verus!
