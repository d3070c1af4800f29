use devloop::config::{
    BrowserReloadServerConfig, Config, EventServerConfig, OutputBodyStyle,
};
use devloop::lines::LineSplitter;
use devloop::markdown::render_markdown_for_terminal;
use devloop::name_map::NameMap;
use devloop::output::strip_ansi_csi_sequences;
use devloop::paths::{join, normalize_path, strip_prefix};
use devloop::render::render_captured_output;
use devloop::runtime::{RuntimeEffect, RuntimeEvent, RuntimeMachine};
use devloop::state::SessionState;
use devloop::value::SessionValue;

fn base_config() -> Config {
    Config {
        root: ".".into(),
        debounce_ms: 100,
        state_file: Some("./state.json".into()),
        startup_workflows: vec![],
        watch: NameMap::new(),
        process: NameMap::new(),
        hook: NameMap::new(),
        event_server: EventServerConfig::default(),
        browser_reload_server: BrowserReloadServerConfig::default(),
        event: NameMap::new(),
        workflow: NameMap::new(),
    }
}

fn start_event() -> RuntimeEvent {
    RuntimeEvent::Start { root_display: "/w".into(), startup_workflows: vec!["startup".into()] }
}

fn effects(runtime: &mut RuntimeMachine) -> Vec<RuntimeEffect> {
    let mut effects = Vec::new();
    while let Some(effect) = runtime.next_effect() {
        effects.push(effect);
    }
    effects
}

#[test]
fn a_start_is_taken_in_once_and_first() {
    let mut runtime = RuntimeMachine::new(&base_config());
    runtime.handle_event(RuntimeEvent::MaintainTick { now_ms: 1 });
    runtime.handle_event(RuntimeEvent::WorkflowTrigger { workflow_name: "early".into() });
    assert_eq!(effects(&mut runtime), vec![]);

    runtime.handle_event(start_event());
    let mut once = RuntimeMachine::new(&base_config());
    once.handle_event(start_event());
    runtime.handle_event(start_event());
    assert_eq!(effects(&mut runtime), effects(&mut once));
}

#[test]
fn pending_effects_stay_behind_a_workflow_that_is_asked_for() {
    let mut runtime = RuntimeMachine::new(&base_config());
    runtime.handle_event(start_event());
    effects(&mut runtime);
    runtime.handle_event(RuntimeEvent::MaintainTick { now_ms: 1 });
    runtime.handle_event(RuntimeEvent::WorkflowTrigger { workflow_name: "now".into() });
    runtime.handle_event(RuntimeEvent::CtrlC);
    let all = effects(&mut runtime);
    assert!(matches!(&all[0], RuntimeEffect::RunWorkflow { workflow_name, .. } if workflow_name == "now"));
    assert_eq!(all[1], RuntimeEffect::MaintainProcesses);
    assert_eq!(all.last(), Some(&RuntimeEffect::Exit));
}

#[test]
fn joined_paths_are_seen_from_their_directory() {
    for base in ["/", "/w", "/w/", "w/./x", "..", "."] {
        for path in ["a", "a/b.rs", "a//b/", "../a", ".hidden/x", "a/."] {
            let seen = strip_prefix(&join(base, path), base).expect("below the directory");
            assert_eq!(normalize_path(&seen), normalize_path(path), "{path} below {base}");
        }
    }
    assert_eq!(strip_prefix(&join("/w", "./a"), "/w").as_deref(), Some("a"));
    assert_eq!(normalize_path("./a"), "./a");
}

#[test]
fn output_is_shown_in_whole_lines() {
    for colorize in [false, true] {
        for style in [OutputBodyStyle::Plain, OutputBodyStyle::Dim] {
            let bytes = "one\r\n\n\u{3bc}\u{1b}[31mtwo\rthree\n".as_bytes();
            let records = render_captured_output("server web", bytes, colorize, style);
            assert_eq!(records.len(), 4);
            for record in &records {
                assert_eq!(record.last(), Some(&b'\n'));
                assert_eq!(record.iter().filter(|byte| **byte == b'\n').count(), 1);
                let line = String::from_utf8_lossy(record);
                assert!(line == "\n" || line.contains("[server web]"));
            }
            assert_eq!(records[1], b"\n");
        }
    }
}

#[test]
fn templates_show_what_was_written() {
    let mut state = SessionState::with_values("s.json".into(), None);
    for (key, template) in [("a", "{{a}}"), ("a-b.C_9", "{{ \t\u{2003}a-b.C_9\n}}")] {
        state.set(key.into(), SessionValue::String("{{a}} $x".into()));
        assert_eq!(state.render_template(template), "{{a}} $x");
    }
}

#[test]
fn lines_keep_all_but_line_ends() {
    let bytes = b"a\r\nb\n\n\rc\r\rd";
    let mut splitter = LineSplitter::new();
    let mut lines: Vec<Vec<u8>> = bytes.iter().filter_map(|byte| splitter.push(*byte)).collect();
    lines.extend(splitter.finish());
    assert_eq!(lines.concat(), b"abcd");
    assert_eq!(lines.len(), 7);
}

#[test]
fn stripping_never_adds_and_keeps_plain_bytes() {
    for bytes in [&b""[..], b"plain \x1b text", b"\x1b[1;31mred\x1b[0m", b"\x1b\x1b[m[31m"] {
        let stripped = strip_ansi_csi_sequences(bytes);
        assert!(stripped.len() <= bytes.len());
        if !bytes.windows(2).any(|pair| pair == b"\x1b[") {
            assert_eq!(stripped, bytes);
        }
    }
}

#[test]
fn pages_end_with_one_newline() {
    for page in ["", "text", "# Title\n\n", "- a\n- b\n\n\n", "```\ncode\n```"] {
        let shown = render_markdown_for_terminal(page);
        assert!(shown.ends_with('\n'));
        assert!(shown == "\n" || !shown[..shown.len() - 1].ends_with(char::is_whitespace));
    }
}
