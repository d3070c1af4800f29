use devloop::config::OutputBodyStyle;
use devloop::output::{
    color_of_hash, dim_start, format_output_line, format_output_prefix,
    format_output_prefix_with_style, format_tracing_prefix, normalize_internal_log_label,
    normalize_source_label, output_color_code, prefix_in_color, should_colorize_output,
    strip_ansi_csi_sequences, style_output_text, style_reset,
};
use devloop::render::{
    prepare_flush_rendered_output, prepare_output_byte, render_captured_output, render_output_byte,
    AnsiEscapeState, OutputRenderState,
};
use std::hash::{DefaultHasher, Hash, Hasher};

#[test]
fn normalize_source_label_rewrites_module_path() {
    assert_eq!(normalize_source_label("devloop::processes"), "devloop processes");
}

#[test]
fn labels_lose_each_pair_of_colons() {
    assert_eq!(normalize_source_label("a:b:::c::"), "a:b :c ");
    assert_eq!(normalize_internal_log_label("devloop"), "devloop");
    assert_eq!(normalize_internal_log_label("devloop::engine"), "devloop engine");
    assert_eq!(normalize_internal_log_label("devloopx"), "devloop devloopx");
}

#[test]
fn format_output_prefix_falls_back_without_color() {
    assert_eq!(format_output_prefix("tunnel cloudflared", false), "[tunnel cloudflared] ");
}

#[test]
fn format_output_prefix_colors_label() {
    let rendered = format_output_prefix("tunnel cloudflared", true);

    assert!(rendered.contains("[tunnel cloudflared]"));
    assert!(rendered.starts_with("\u{1b}[1;"));
    assert!(rendered.ends_with(" "));
}

#[test]
fn output_output_color_code_is_stable_for_same_process() {
    assert_eq!(output_color_code("tunnel"), output_color_code("tunnel"));
}

#[test]
fn processes_output_color_code_is_stable_for_same_process() {
    assert_eq!(output_color_code("tunnel"), output_color_code("tunnel"));
}

#[test]
fn colors_are_those_of_the_default_hasher() {
    let palette: [u8; 6] = [31, 32, 33, 34, 36, 37];
    for name in ["", "tunnel", "server", "μ", "a longer name"] {
        let mut hasher = DefaultHasher::new();
        name.hash(&mut hasher);
        let code = palette[(hasher.finish() as usize) % palette.len()];
        assert_eq!(output_color_code(name), code);
        assert_eq!(color_of_hash(hasher.finish()), code);
    }
    assert_eq!(color_of_hash(0), 31);
    assert_eq!(color_of_hash(10), 36);
    assert_eq!(color_of_hash(5), 37);
}

#[test]
fn prefixes_carry_color_and_style() {
    assert_eq!(
        prefix_in_color("a b", Some(36), OutputBodyStyle::Plain),
        "\u{1b}[1;36m[a b]\u{1b}[0m "
    );
    assert_eq!(
        prefix_in_color("a b", Some(36), OutputBodyStyle::Dim),
        "\u{1b}[2;1;36m[a b]\u{1b}[0m "
    );
    assert_eq!(format_output_prefix_with_style("a b", false, OutputBodyStyle::Dim), "[a b] ");
}

#[test]
fn style_output_text_defaults_to_plain() {
    assert_eq!(style_output_text("ready", OutputBodyStyle::Plain, true), "ready");
}

#[test]
fn style_output_text_can_dim_body() {
    assert_eq!(
        style_output_text("ready", OutputBodyStyle::Dim, true),
        "\u{1b}[2mready\u{1b}[0m"
    );
    assert_eq!(style_output_text("ready", OutputBodyStyle::Dim, false), "ready");
}

#[test]
fn dim_helpers_emit_sequences_when_colorized() {
    assert_eq!(dim_start(true), "\u{1b}[2m");
    assert_eq!(style_reset(true), "\u{1b}[0m");
}

#[test]
fn colors_need_a_terminal_and_no_refusal() {
    assert!(should_colorize_output(true, false));
    assert!(!should_colorize_output(true, true));
    assert!(!should_colorize_output(false, false));
}

#[test]
fn tracing_prefix_reuses_shared_output_label_format() {
    assert_eq!(
        format_output_prefix(&normalize_source_label("devloop::processes"), false),
        "[devloop processes] "
    );
}

#[test]
fn strip_ansi_csi_sequences_removes_color_codes() {
    assert_eq!(strip_ansi_csi_sequences(b"a\x1b[2;31mb\x1b[0mc"), b"abc");
}

#[test]
fn stripping_keeps_other_escapes_and_drops_open_sequences() {
    assert_eq!(strip_ansi_csi_sequences(b"a\x1bXb\x1b"), b"a\x1bXb\x1b");
    assert_eq!(strip_ansi_csi_sequences(b"a\x1b[12"), b"a");
    assert_eq!(strip_ansi_csi_sequences(b""), b"");
}

#[test]
fn tracing_prefix_wraps_dependency_targets_under_devloop() {
    assert_eq!(
        format_output_prefix(
            &normalize_internal_log_label("hyper_util::client::legacy::connect::http"),
            false
        ),
        "[devloop hyper_util client legacy connect http] "
    );
}

#[test]
fn tracing_prefix_colorizes_internal_targets() {
    let rendered = format_tracing_prefix("devloop::engine", true);

    assert!(rendered.contains("[devloop engine]"));
    assert!(rendered.starts_with("\u{1b}[1;"));
    assert!(rendered.ends_with(" "));
}

#[test]
fn tracing_prefix_colorizes_dependency_targets_under_devloop() {
    let rendered = format_tracing_prefix("hyper_util::client::legacy::connect::http", true);

    assert!(rendered.contains("[devloop hyper_util client legacy connect http]"));
    assert!(rendered.starts_with("\u{1b}[1;"));
    assert!(rendered.ends_with(" "));
}

#[test]
fn format_output_line_prefixes_source() {
    let rendered =
        format_output_line("tunnel cloudflared", "INF ready", false, OutputBodyStyle::Plain);

    assert_eq!(rendered, "[tunnel cloudflared] INF ready");
}

#[test]
fn format_output_line_colors_label_and_dims_body() {
    let rendered =
        format_output_line("tunnel cloudflared", "INF ready", true, OutputBodyStyle::Dim);

    assert!(rendered.contains("[tunnel cloudflared]"));
    assert!(rendered.starts_with("\u{1b}[2;1;"));
    assert!(rendered.contains("\u{1b}[2mINF ready\u{1b}[0m"));
}

#[test]
fn render_output_byte_does_not_dim_newlines() {
    assert_eq!(
        render_output_byte(b'\n', true, OutputBodyStyle::Plain, &mut OutputRenderState::new()),
        "\n"
    );
}

#[test]
fn render_output_byte_does_not_dim_carriage_returns() {
    assert_eq!(
        render_output_byte(b'\r', true, OutputBodyStyle::Plain, &mut OutputRenderState::new()),
        "\r"
    );
}

#[test]
fn render_output_byte_preserves_ansi_escape_sequences() {
    let mut render_state = OutputRenderState::new();
    let rendered = [
        render_output_byte(0x1b, true, OutputBodyStyle::Dim, &mut render_state),
        render_output_byte(b'[', true, OutputBodyStyle::Dim, &mut render_state),
        render_output_byte(b'3', true, OutputBodyStyle::Dim, &mut render_state),
        render_output_byte(b'4', true, OutputBodyStyle::Dim, &mut render_state),
        render_output_byte(b'm', true, OutputBodyStyle::Dim, &mut render_state),
        render_output_byte(b'D', true, OutputBodyStyle::Dim, &mut render_state),
    ]
    .concat();

    assert_eq!(rendered, "\u{1b}[34m\u{1b}[2mD");
}

#[test]
fn render_output_byte_reapplies_dim_after_reset_sequence() {
    let mut render_state = OutputRenderState::new();
    let rendered = [0x1b_u8, b'[', b'0', b'm']
        .into_iter()
        .map(|byte| render_output_byte(byte, true, OutputBodyStyle::Dim, &mut render_state))
        .collect::<String>();

    assert_eq!(rendered, "\u{1b}[0m\u{1b}[2m");
}

#[test]
fn render_output_byte_preserves_utf8_multibyte_characters() {
    let mut render_state = OutputRenderState::new();
    let rendered = [0xCE_u8, 0xBC_u8, b's']
        .into_iter()
        .map(|byte| render_output_byte(byte, false, OutputBodyStyle::Plain, &mut render_state))
        .collect::<String>();

    assert_eq!(rendered, "\u{3bc}s");
    assert!(render_state.utf8_buffer.is_empty());
}

fn rendered(bytes: &[u8], colorize: bool, style: OutputBodyStyle) -> String {
    let mut state = OutputRenderState::new();
    bytes.iter().map(|byte| render_output_byte(*byte, colorize, style, &mut state)).collect()
}

#[test]
fn characters_survive_whatever_their_length() {
    let text = "aé漢🦀~ \u{80}\u{7ff}\u{800}\u{ffff}\u{10000}\u{10ffff}z";
    assert_eq!(rendered(text.as_bytes(), false, OutputBodyStyle::Plain), text);
}

#[test]
fn bytes_that_are_not_utf8_are_replaced() {
    assert_eq!(rendered(b"a\xffb", false, OutputBodyStyle::Plain), "a\u{fffd}b");
    assert_eq!(rendered(b"\xe2\x82a", false, OutputBodyStyle::Plain), "\u{fffd}a");
    assert_eq!(rendered(b"\xe2\x82\x1b[0m", false, OutputBodyStyle::Plain), "\u{fffd}\u{1b}[0m");
}

fn state_at(at_line_start: bool, last_was_carriage_return: bool) -> OutputRenderState {
    OutputRenderState {
        at_line_start,
        last_was_carriage_return,
        ansi_escape_state: AnsiEscapeState::Ground,
        utf8_buffer: Vec::new(),
        body_style: OutputBodyStyle::Plain,
        colorize: false,
        dim_active: false,
        rendered_line: String::new(),
    }
}

#[test]
fn write_output_byte_renders_carriage_return_as_visible_newline() {
    let mut state = state_at(false, false);
    let record = prepare_output_byte(
        "css_watch tailwindcss",
        b'\r',
        false,
        OutputBodyStyle::Plain,
        &mut state,
    );

    assert_eq!(record.as_deref(), Some(b"\n".as_slice()));
    assert!(state.at_line_start);
    assert!(state.last_was_carriage_return);
}

#[test]
fn write_output_byte_suppresses_line_feed_after_carriage_return() {
    let mut state = state_at(true, true);
    let record = prepare_output_byte(
        "css_watch tailwindcss",
        b'\n',
        false,
        OutputBodyStyle::Plain,
        &mut state,
    );

    assert_eq!(record, None);
    assert!(state.at_line_start);
    assert!(!state.last_was_carriage_return);
}

fn written(label: &str, bytes: &[u8], colorize: bool, style: OutputBodyStyle) -> String {
    let mut state = OutputRenderState::new();
    let mut written = Vec::new();
    for byte in bytes {
        if let Some(record) = prepare_output_byte(label, *byte, colorize, style, &mut state) {
            written.extend_from_slice(&record);
        }
    }
    String::from_utf8(written).expect("utf8")
}

#[test]
fn write_output_byte_flushes_complete_line_atomically() {
    assert_eq!(
        written("echo python3", b"alpha\n", false, OutputBodyStyle::Plain),
        "[echo python3] alpha\n"
    );
    assert_eq!(written("echo python3", b"alpha", false, OutputBodyStyle::Plain), "");
}

#[test]
fn write_output_byte_preserves_utf8_multibyte_characters() {
    assert_eq!(
        written(
            "css_watch tailwindcss",
            "Done in 73μs\n".as_bytes(),
            false,
            OutputBodyStyle::Plain
        ),
        "[css_watch tailwindcss] Done in 73μs\n"
    );
}

#[test]
fn write_output_byte_can_dim_entire_line_once() {
    let text = written("echo python3", b"alpha\n", true, OutputBodyStyle::Dim);

    assert!(text.starts_with("\u{1b}[2;1;"));
    assert!(text.contains("[echo python3]"));
    assert!(text.ends_with("\u{1b}[2malpha\u{1b}[0m\n"));
}

#[test]
fn write_captured_output_dims_hook_body_by_default() {
    let records =
        render_captured_output("build-css.sh build_css", b"Done in 73ms\n", true, OutputBodyStyle::Dim);
    let text = String::from_utf8(records.concat()).expect("utf8");
    assert!(text.contains("[build-css.sh build_css]"));
    assert!(text.contains("\u{1b}[2mDone in 73ms\u{1b}[0m"));

    let records = render_captured_output(
        "build-css.sh build_css",
        b"Done in 73ms\n",
        false,
        OutputBodyStyle::Dim,
    );
    let text = String::from_utf8(records.concat()).expect("utf8");
    assert!(text.ends_with("Done in 73ms\n"));
}

#[test]
fn returns_and_newlines_end_one_line() {
    assert_eq!(
        written("p", b"a\r\nb\rc\n\n", false, OutputBodyStyle::Plain),
        "[p] a\n[p] b\n[p] c\n\n"
    );
}

#[test]
fn what_is_left_is_flushed_without_a_newline() {
    let mut state = OutputRenderState::new();
    assert_eq!(prepare_flush_rendered_output(&mut state, false), None);
    for byte in b"ab" {
        prepare_output_byte("p", *byte, false, OutputBodyStyle::Plain, &mut state);
    }
    assert_eq!(
        prepare_flush_rendered_output(&mut state, false).as_deref(),
        Some(b"[p] ab".as_slice())
    );
    assert_eq!(prepare_flush_rendered_output(&mut state, false), None);
}
