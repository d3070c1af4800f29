use devloop::docs::{docs_text, render_docs_index, render_docs_text, DocsTopic, HELP_FOOTER};
use devloop::markdown::{render_events, render_markdown_for_terminal, MarkdownEvent};

#[test]
fn docs_text_uses_embedded_configuration_reference() {
    let rendered = docs_text(DocsTopic::Config);

    assert!(rendered.starts_with("# Configuration Reference"));
    assert!(rendered.contains("startup_workflows"));
    assert!(rendered.contains("## State and session logs"));
    assert!(rendered.contains(".devloop/logs/"));
}

#[test]
fn docs_text_uses_embedded_session_log_behavior_reference() {
    let rendered = docs_text(DocsTopic::Behavior);

    assert!(rendered.starts_with("# Behavior Reference"));
    assert!(rendered.contains("### Session logs"));
    assert!(rendered.contains("output.inherit"));
}

#[test]
fn docs_text_uses_embedded_development_reference() {
    let rendered = docs_text(DocsTopic::Development);

    assert!(rendered.starts_with("# Development Guide"));
    assert!(rendered.contains("DEVLOOP_RUN_WATCH_FLAKE_SMOKE"));
}

#[test]
fn docs_text_has_security_notes() {
    assert!(docs_text(DocsTopic::Security).starts_with("# Security Notes"));
}

#[test]
fn rendered_docs_drop_markdown_heading_markers() {
    let rendered = render_docs_text(DocsTopic::Config);

    assert!(rendered.starts_with("CONFIGURATION REFERENCE"));
    assert!(!rendered.contains("# Configuration Reference"));
}

#[test]
fn markdown_renderer_formats_lists_and_code_blocks() {
    let rendered =
        render_markdown_for_terminal("# Title\n\n- one\n- two\n\n```bash\ncargo test\n```\n");

    assert!(rendered.contains("TITLE"));
    assert!(rendered.contains("- one"));
    assert!(rendered.contains("[bash]"));
    assert!(rendered.contains("    cargo test"));
}

#[test]
fn markdown_renderer_formats_links_inline_code_rules_and_nested_lists() {
    let rendered = render_markdown_for_terminal(
        "## Section\n\nParagraph with [link](https://example.com) and `inline`.\n\n- parent\n  - child\n\n---\n",
    );

    assert!(rendered.contains("Section\n======="));
    assert!(rendered.contains("link (https://example.com)"));
    assert!(rendered.contains("`inline`"));
    assert!(rendered.contains("- parent"));
    assert!(rendered.contains("  - child"));
    assert!(rendered.contains("----------------------------------------"));
}

#[test]
fn pages_are_shown_exactly() {
    assert_eq!(
        render_markdown_for_terminal("# straße\n\ntext\nmore\n\n### Sub é\n\n* a\n* b\n"),
        "STRASSE\n\ntext more\n\nSub é\n------\n\n- a\n- b\n"
    );
    assert_eq!(render_markdown_for_terminal(""), "\n");
    assert_eq!(
        render_markdown_for_terminal("    indented\n\nafter\n"),
        "    indented\n\nafter\n"
    );
}

#[test]
fn events_are_shown_in_order() {
    let events = vec![
        MarkdownEvent::StartHeading(4),
        MarkdownEvent::Text("Deep".into()),
        MarkdownEvent::EndHeading,
        MarkdownEvent::StartCodeBlock(Some("".into())),
        MarkdownEvent::Text("a\r\nb\n".into()),
        MarkdownEvent::SoftBreak,
        MarkdownEvent::Text("c".into()),
        MarkdownEvent::EndCodeBlock,
        MarkdownEvent::StartParagraph,
        MarkdownEvent::Text("x".into()),
        MarkdownEvent::HardBreak,
        MarkdownEvent::HardBreak,
        MarkdownEvent::Other,
        MarkdownEvent::StartLink("u".into()),
        MarkdownEvent::Text("y".into()),
        MarkdownEvent::EndLink,
        MarkdownEvent::EndLink,
        MarkdownEvent::EndParagraph,
        MarkdownEvent::EndList,
    ];
    assert_eq!(
        render_events(&events),
        "Deep\n\n    a\n    b\n    c\n\nx\ny (u)\n"
    );
}

#[test]
fn bare_docs_prints_the_topic_index() {
    let shown = render_docs_index();

    assert!(shown.starts_with("DEVLOOP DOCUMENTATION"));
    assert!(shown.contains("devloop docs artifacts"));
    assert!(shown.contains("replaces files that a managed process is serving"));
}

#[test]
fn root_help_names_the_artifact_use_case_and_guide() {
    assert!(HELP_FOOTER.contains("Serving generated files that are replaced during rebuilds?"));
    assert!(HELP_FOOTER.contains("devloop docs artifacts"));
    assert!(render_docs_text(DocsTopic::Artifacts).starts_with("TRANSACTIONAL ARTIFACT GENERATIONS"));
}
