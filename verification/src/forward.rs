//! Forwarding the output of a process: to the session log, to the terminal, and to the rules.

use crate::config::OutputBodyStyle;
use crate::lines::{line_step, no_line, LineModel, LineSplitter};
use crate::output::output_prefix;
use crate::output_rules::{
    after_rules, line_text, process_output_line, rules_write, CompiledOutputRule,
};
use crate::render::{
    byte_prepared, bytes_prepared, flushed, fresh_model, is_printable,
    law_empty_lines_and_last_lines_are_shown, prepare_flush_rendered_output, prepare_output_byte,
    OutputRenderState, RenderModel,
};
use crate::session_log::{labeled_record, log_record};
use crate::state::SessionState;
use crate::value::Json;
use vstd::prelude::*;
use vstd::utf8::encode_utf8;

verus! {

/// How the output of a process is forwarded.
#[derive(Debug)]
pub struct ForwardConfig {
    pub label: String,
    pub inherit: bool,
    pub style: OutputBodyStyle,
    pub colorize: bool,
    pub rules: Vec<CompiledOutputRule>,
    pub generation: u64,
}

/// What a byte of output, or the end of the output, gives rise to.
#[derive(Debug)]
pub struct Forwarded {
    /// A record for the session log.
    pub log: Option<Vec<u8>>,
    /// A record for the terminal.
    pub terminal: Option<Vec<u8>>,
    /// Whether the state is to be saved.
    pub save_state: bool,
}

/// What is kept between two bytes of output.
pub struct ForwardView {
    pub logging: bool,
    pub log_lines: LineModel,
    pub rule_lines: LineModel,
    pub terminal: RenderModel,
}

/// Forwards the output of a process, byte by byte.
#[derive(Debug)]
pub struct OutputForwarder {
    config: ForwardConfig,
    logging: bool,
    log_lines: LineSplitter,
    rule_lines: LineSplitter,
    terminal: OutputRenderState,
}

/// The contents of a record.
pub open spec fn bytes_of(record: Option<Vec<u8>>) -> Option<Seq<u8>> {
    match record {
        Some(bytes) => Some(bytes@),
        None => None,
    }
}

/// The record of a line for the session log.
pub open spec fn logged(label: Seq<char>, line: Option<Seq<u8>>) -> Option<Seq<u8>> {
    match line {
        Some(line) => Some(log_record(label, line)),
        None => None,
    }
}

/// The session after the rules have seen a line of output of the generation `config.generation`.
pub open spec fn session_after_line(
    config: ForwardConfig,
    session: Map<Seq<char>, Json>,
    line: Option<Seq<u8>>,
    current: u64,
) -> Map<Seq<char>, Json> {
    match line {
        Some(line) => if config.generation == current {
            after_rules(session, config.rules@, line_text(line), config.rules@.len() as int)
        } else {
            session
        },
        None => session,
    }
}

/// Whether the rules write something new when they see a line of output.
pub open spec fn line_writes(
    config: ForwardConfig,
    session: Map<Seq<char>, Json>,
    line: Option<Seq<u8>>,
    current: u64,
) -> bool {
    line is Some && config.generation == current && rules_write(
        session,
        config.rules@,
        line_text(line->0),
        config.rules@.len() as int,
    )
}

/// What a byte of output, or the end of the output, gives rise to.
pub struct ForwardStep {
    pub log: Option<Seq<u8>>,
    pub terminal: Option<Seq<u8>>,
    pub session: Map<Seq<char>, Json>,
    pub save_state: bool,
}

/// What a byte of output gives rise to, and what is kept afterwards.
pub open spec fn forward_step(
    config: ForwardConfig,
    before: ForwardView,
    session: Map<Seq<char>, Json>,
    byte: u8,
    current: u64,
) -> (ForwardView, ForwardStep) {
    let (log_lines, log_line) = line_step(before.log_lines, byte);
    let (rule_lines, rule_line) = line_step(before.rule_lines, byte);
    let (terminal, record) = byte_prepared(
        before.terminal,
        config.label@,
        byte,
        config.colorize,
        config.style,
    );
    (
        ForwardView {
            logging: before.logging,
            log_lines: if before.logging {
                log_lines
            } else {
                before.log_lines
            },
            rule_lines,
            terminal: if config.inherit {
                terminal
            } else {
                before.terminal
            },
        },
        ForwardStep {
            log: if before.logging {
                logged(config.label@, log_line)
            } else {
                None
            },
            terminal: if config.inherit {
                record
            } else {
                None
            },
            session: session_after_line(config, session, rule_line, current),
            save_state: line_writes(config, session, rule_line, current),
        },
    )
}

/// What the end of the output gives rise to.
pub open spec fn forward_end(
    config: ForwardConfig,
    left: ForwardView,
    session: Map<Seq<char>, Json>,
    current: u64,
) -> ForwardStep {
    let rule_line = if left.rule_lines.line.len() > 0 {
        Some(left.rule_lines.line)
    } else {
        None
    };
    ForwardStep {
        log: if left.logging && left.log_lines.line.len() > 0 {
            Some(log_record(config.label@, left.log_lines.line))
        } else {
            None
        },
        terminal: if config.inherit {
            flushed(left.terminal, false).1
        } else {
            None
        },
        session: session_after_line(config, session, rule_line, current),
        save_state: line_writes(config, session, rule_line, current),
    }
}

impl OutputForwarder {
    /// How the output is forwarded.
    pub closed spec fn settings(&self) -> ForwardConfig {
        self.config
    }

    /// What is kept of the output.
    pub closed spec fn view(&self) -> ForwardView {
        ForwardView {
            logging: self.logging,
            log_lines: self.log_lines@,
            rule_lines: self.rule_lines@,
            terminal: self.terminal@,
        }
    }

    /// Nothing has been seen of the output.
    pub fn new(config: ForwardConfig, logging: bool) -> (forwarder: Self)
        ensures
            forwarder.settings() == config,
            forwarder@ == (ForwardView {
                logging,
                log_lines: no_line(),
                rule_lines: no_line(),
                terminal: fresh_model(),
            }),
    {
        OutputForwarder {
            config,
            logging,
            log_lines: LineSplitter::new(),
            rule_lines: LineSplitter::new(),
            terminal: OutputRenderState::new(),
        }
    }

    /// Takes in a byte of output. The rules see a line only while `current_generation` is the
    /// generation of this output.
    pub fn push(&mut self, byte: u8, state: &mut SessionState, current_generation: u64) -> (result:
        Forwarded)
        ensures
            final(self).settings() == old(self).settings(),
            final(state).file() == old(state).file(),
            ({
                let (after, step) = forward_step(
                    old(self).settings(),
                    old(self)@,
                    old(state)@,
                    byte,
                    current_generation,
                );
                &&& final(self)@ == after
                &&& bytes_of(result.log) == step.log
                &&& bytes_of(result.terminal) == step.terminal
                &&& final(state)@ == step.session
                &&& result.save_state == step.save_state
            }),
    {
        let log = if self.logging {
            match self.log_lines.push(byte) {
                Some(line) => Some(labeled_record(self.config.label.as_str(), line.as_slice())),
                None => None,
            }
        } else {
            None
        };
        let terminal = if self.config.inherit {
            prepare_output_byte(
                self.config.label.as_str(),
                byte,
                self.config.colorize,
                self.config.style,
                &mut self.terminal,
            )
        } else {
            None
        };
        let save_state = match self.rule_lines.push(byte) {
            Some(line) => process_output_line(
                line.as_slice(),
                &self.config.rules,
                state,
                self.config.generation,
                current_generation,
            ),
            None => false,
        };
        Forwarded { log, terminal, save_state }
    }

    /// Notes that the session log failed: no more records are made for it.
    pub fn stop_logging(&mut self)
        ensures
            final(self).settings() == old(self).settings(),
            final(self)@ == (ForwardView { logging: false, ..old(self)@ }),
    {
        self.logging = false;
    }

    /// Takes in the end of the output: what was not ended is forwarded too.
    pub fn finish(self, state: &mut SessionState, current_generation: u64) -> (result: Forwarded)
        ensures
            final(state).file() == old(state).file(),
            ({
                let step = forward_end(self.settings(), self@, old(state)@, current_generation);
                &&& bytes_of(result.log) == step.log
                &&& bytes_of(result.terminal) == step.terminal
                &&& final(state)@ == step.session
                &&& result.save_state == step.save_state
            }),
    {
        let mut forwarder = self;
        let save_state = match forwarder.rule_lines.finish() {
            Some(line) => process_output_line(
                line.as_slice(),
                &forwarder.config.rules,
                state,
                forwarder.config.generation,
                current_generation,
            ),
            None => false,
        };
        let log = if forwarder.logging {
            match forwarder.log_lines.finish() {
                Some(line) => Some(labeled_record(forwarder.config.label.as_str(), line.as_slice())),
                None => None,
            }
        } else {
            None
        };
        let terminal = if forwarder.config.inherit {
            prepare_flush_rendered_output(&mut forwarder.terminal, false)
        } else {
            None
        };
        Forwarded { log, terminal, save_state }
    }
}

/// Output of a generation that is no longer the current one writes nothing to the session.
pub proof fn law_retired_output_writes_nothing(
    config: ForwardConfig,
    session: Map<Seq<char>, Json>,
    line: Option<Seq<u8>>,
    current: u64,
)
    requires
        config.generation != current,
    ensures
        session_after_line(config, session, line, current) == session,
        !line_writes(config, session, line, current),
{
}

/// What is logged and what the rules write does not depend on whether the output is shown, and what
/// is not to be shown is not.
pub proof fn law_logging_does_not_depend_on_the_terminal(
    shown: ForwardConfig,
    hidden: ForwardConfig,
    before: ForwardView,
    session: Map<Seq<char>, Json>,
    byte: u8,
    current: u64,
)
    requires
        shown.inherit,
        !hidden.inherit,
        hidden == (ForwardConfig { inherit: false, ..shown }),
    ensures
        ({
            let (seen, first) = forward_step(shown, before, session, byte, current);
            let (unseen, second) = forward_step(hidden, before, session, byte, current);
            &&& first.log == second.log
            &&& first.session == second.session
            &&& first.save_state == second.save_state
            &&& seen.log_lines == unseen.log_lines && seen.rule_lines == unseen.rule_lines
            &&& second.terminal is None
            &&& first.terminal == byte_prepared(
                before.terminal,
                shown.label@,
                byte,
                shown.colorize,
                shown.style,
            ).1
        }),
        forward_end(shown, before, session, current).log == forward_end(
            hidden,
            before,
            session,
            current,
        ).log,
        forward_end(shown, before, session, current).session == forward_end(
            hidden,
            before,
            session,
            current,
        ).session,
        forward_end(hidden, before, session, current).terminal is None,
{
}

/// A line that is ended, or left at the end, is logged behind its label while the log works, and is
/// seen by the rules while the output is of the current run; bytes within a line are kept.
pub proof fn law_each_line_is_logged_and_seen(
    config: ForwardConfig,
    before: ForwardView,
    session: Map<Seq<char>, Json>,
    byte: u8,
    current: u64,
)
    requires
        !before.log_lines.after_return,
        !before.rule_lines.after_return,
    ensures
        ({
            let (after, step) = forward_step(config, before, session, byte, current);
            let ends = byte == 0x0a || byte == 0x0d;
            &&& before.logging && ends ==> step.log == Some(
                log_record(config.label@, before.log_lines.line),
            )
            &&& !before.logging || !ends ==> step.log is None
            &&& before.logging && !ends ==> after.log_lines.line == before.log_lines.line.push(byte)
            &&& !ends ==> after.rule_lines.line == before.rule_lines.line.push(byte) && step.session
                == session && !step.save_state
            &&& ends && config.generation == current ==> step.session == after_rules(
                session,
                config.rules@,
                line_text(before.rule_lines.line),
                config.rules@.len() as int,
            )
            &&& after.logging == before.logging
        }),
        ({
            let step = forward_end(config, before, session, current);
            &&& before.logging && before.log_lines.line.len() > 0 ==> step.log == Some(
                log_record(config.label@, before.log_lines.line),
            )
            &&& before.rule_lines.line.len() > 0 && config.generation == current ==> step.session
                == after_rules(
                session,
                config.rules@,
                line_text(before.rule_lines.line),
                config.rules@.len() as int,
            )
        }),
{
}

/// What is left of a line at the end of the output is shown as it is behind its label, and nothing
/// is shown where nothing is left.
pub proof fn law_unended_lines_are_shown_at_the_end(
    config: ForwardConfig,
    left: ForwardView,
    session: Map<Seq<char>, Json>,
    current: u64,
    text: Seq<char>,
)
    requires
        config.inherit,
        !config.colorize,
        is_printable(text),
    ensures
        text.len() > 0 && left.terminal == bytes_prepared(
            fresh_model(),
            config.label@,
            encode_utf8(text),
            config.colorize,
            config.style,
        ).0 ==> forward_end(config, left, session, current).terminal == Some(
            encode_utf8(output_prefix(config.label@, None, config.style) + text),
        ),
        left.terminal == fresh_model() ==> forward_end(config, left, session, current).terminal is None,
{
    law_empty_lines_and_last_lines_are_shown(
        fresh_model(),
        config.label@,
        text,
        config.colorize,
        config.style,
    );
}

} // verus!
