use codex_sidebar::history::{is_contextual_user_message_content, ContentItem, ResponseItem};
use codex_sidebar::thread_title::{
    apply_title_stream_event, generated_thread_title, normalize_thread_name, prepare_thread_name,
    sanitize_generated_thread_title, should_generate_thread_title, strip_user_message_prefix,
    thread_title_to_persist, title_prompt_input, title_prompt_input_len, ThreadNameError, TitleStreamEvent,
    TitleStreamStep,
};

fn user_message(text: &str) -> ResponseItem {
    ResponseItem::Message {
        role: "user".to_string(),
        content: vec![ContentItem::InputText {
            text: text.to_string(),
        }],
    }
}

fn developer_message(text: &str) -> ResponseItem {
    ResponseItem::Message {
        role: "developer".to_string(),
        content: vec![ContentItem::InputText {
            text: text.to_string(),
        }],
    }
}

fn assistant_message(text: &str) -> ResponseItem {
    ResponseItem::Message {
        role: "assistant".to_string(),
        content: vec![ContentItem::OutputText {
            text: text.to_string(),
        }],
    }
}

#[test]
fn title_prompt_input_uses_only_first_real_user_turn() {
    let items = vec![
        developer_message("context"),
        user_message("first prompt"),
        assistant_message("reply"),
    ];

    let prompt_input = title_prompt_input(&items).expect("prompt input");

    assert_eq!(prompt_input, items[..=1].to_vec());
}

#[test]
fn title_prompt_input_skips_follow_up_turns() {
    let items = vec![user_message("first"), user_message("second")];

    assert_eq!(title_prompt_input(&items), None);
}

#[test]
fn sanitize_generated_thread_title_keeps_first_non_empty_line() {
    assert_eq!(
        sanitize_generated_thread_title("\n  Investigate flaky test failures  \nextra"),
        Some("Investigate flaky test failures".to_string())
    );
}

#[test]
fn sanitize_generated_thread_title_truncates_long_output() {
    assert_eq!(
        sanitize_generated_thread_title(
            "This title is definitely much longer than fifty characters for the sidebar"
        ),
        Some("This title is definitely much longer than fi...".to_string())
    );
}

#[test]
fn title_prompt_input_ignores_injected_context_messages() {
    let items = vec![
        user_message("<environment_context>\n  <cwd>/repo</cwd>\n</environment_context>"),
        user_message("fix the build"),
        assistant_message("done"),
    ];
    assert_eq!(title_prompt_input(&items), Some(items[..=1].to_vec()));
}

#[test]
fn title_prompt_input_without_user_message_is_none() {
    let items = vec![developer_message("context"), assistant_message("hello")];
    assert_eq!(title_prompt_input(&items), None);
    assert_eq!(title_prompt_input(&[]), None);
    assert_eq!(title_prompt_input(&[ResponseItem::Other]), None);
}

#[test]
fn title_prompt_input_ends_with_the_user_message() {
    let items = vec![
        ResponseItem::Other,
        developer_message("a"),
        user_message("only one"),
        ResponseItem::Other,
    ];
    let prefix = title_prompt_input(&items).expect("prefix");
    assert_eq!(prefix.len(), 3);
    assert_eq!(prefix.last(), Some(&user_message("only one")));
}

#[test]
fn contextual_fragments_need_both_markers_in_any_ascii_case() {
    let text = |t: &str| vec![ContentItem::InputText { text: t.to_string() }];
    assert!(is_contextual_user_message_content(&text(
        "  <ENVIRONMENT_CONTEXT>x</environment_context>\n"
    )));
    assert!(is_contextual_user_message_content(&text(
        "# AGENTS.md instructions for /repo\n\n<INSTRUCTIONS>be nice</INSTRUCTIONS>"
    )));
    assert!(!is_contextual_user_message_content(&text("<environment_context> no end")));
    assert!(!is_contextual_user_message_content(&text("hello")));
    assert!(!is_contextual_user_message_content(&[ContentItem::OutputText {
        text: "<skill>x</skill>".to_string()
    }]));
    assert!(is_contextual_user_message_content(&[
        ContentItem::InputImage { image_url: "data:".to_string() },
        ContentItem::InputText { text: "<skill>x</skill>".to_string() },
    ]));
}

#[test]
fn sanitize_strips_quotes_and_blank_input() {
    assert_eq!(
        sanitize_generated_thread_title("\"Refactoring user service\""),
        Some("Refactoring user service".to_string())
    );
    assert_eq!(sanitize_generated_thread_title("  \n \r\n\t"), None);
    assert_eq!(sanitize_generated_thread_title(""), None);
    assert_eq!(sanitize_generated_thread_title("\"\"\""), None);
    assert_eq!(
        sanitize_generated_thread_title("\r\n  \" Postgres API connection \" \r\nnext"),
        Some("Postgres API connection".to_string())
    );
}

#[test]
fn sanitize_keeps_titles_at_the_limit() {
    let fifty = "a".repeat(50);
    assert_eq!(sanitize_generated_thread_title(&fifty), Some(fifty.clone()));
    let fifty_one = "b".repeat(51);
    let cut = sanitize_generated_thread_title(&fifty_one).unwrap();
    assert_eq!(cut, format!("{}...", "b".repeat(44)));
    assert_eq!(cut.chars().count(), 47);
}

#[test]
fn sanitize_counts_characters_not_bytes() {
    let title = "é".repeat(50);
    assert_eq!(sanitize_generated_thread_title(&title), Some(title.clone()));
}

#[test]
fn normalize_thread_name_trims_and_rejects_blank() {
    assert_eq!(normalize_thread_name("  name \n"), Some("name".to_string()));
    assert_eq!(normalize_thread_name(" \u{3000} "), None);
}

#[test]
fn strip_user_message_prefix_takes_text_after_marker() {
    assert_eq!(
        strip_user_message_prefix("context\n## My request for Codex:\n  fix tests  "),
        "fix tests"
    );
    assert_eq!(strip_user_message_prefix("  plain text "), "plain text");
    assert_eq!(
        strip_user_message_prefix("## My request for Codex: a ## My request for Codex: b"),
        "a ## My request for Codex: b"
    );
}

#[test]
fn generated_title_prefers_json_title() {
    assert_eq!(
        generated_thread_title(Some("From JSON"), "{\"title\":\"From JSON\"}"),
        Some("From JSON".to_string())
    );
    assert_eq!(
        generated_thread_title(Some("   "), "Raw title"),
        Some("Raw title".to_string())
    );
    assert_eq!(generated_thread_title(None, "Raw title"), Some("Raw title".to_string()));
    assert_eq!(generated_thread_title(None, " "), None);
}

#[test]
fn title_repeating_user_text_is_not_persisted() {
    assert_eq!(
        thread_title_to_persist(None, "fix tests", "## My request for Codex: fix tests"),
        None
    );
    assert_eq!(
        thread_title_to_persist(None, "Test fixes", "## My request for Codex: fix tests"),
        Some("Test fixes".to_string())
    );
    assert_eq!(thread_title_to_persist(None, "", "anything"), None);
}

#[test]
fn title_generation_only_for_unnamed_main_threads() {
    assert!(should_generate_thread_title(&None, false));
    assert!(!should_generate_thread_title(&Some("named".to_string()), false));
    assert!(!should_generate_thread_title(&None, true));
}

#[test]
fn stream_events_collect_output_text() {
    let mut result = String::new();
    assert_eq!(
        apply_title_stream_event(&mut result, TitleStreamEvent::OutputTextDelta("Fix ".into())),
        TitleStreamStep::Continue
    );
    assert_eq!(
        apply_title_stream_event(&mut result, TitleStreamEvent::OutputTextDelta("tests".into())),
        TitleStreamStep::Continue
    );
    assert_eq!(
        apply_title_stream_event(&mut result, TitleStreamEvent::MessageDone(Some("other".into()))),
        TitleStreamStep::Continue
    );
    assert_eq!(result, "Fix tests");
    assert_eq!(
        apply_title_stream_event(&mut result, TitleStreamEvent::Completed),
        TitleStreamStep::Finished
    );
    assert_eq!(
        apply_title_stream_event(&mut result, TitleStreamEvent::Failed),
        TitleStreamStep::Failed
    );
    assert_eq!(
        apply_title_stream_event(&mut result, TitleStreamEvent::Other),
        TitleStreamStep::Continue
    );
    assert_eq!(result, "Fix tests");

    let mut empty = String::new();
    apply_title_stream_event(&mut empty, TitleStreamEvent::MessageDone(None));
    assert_eq!(empty, "");
    apply_title_stream_event(&mut empty, TitleStreamEvent::MessageDone(Some("Whole".into())));
    assert_eq!(empty, "Whole");
}

#[test]
fn prepare_thread_name_errors() {
    assert_eq!(prepare_thread_name("  ", true), Err(ThreadNameError::Empty));
    assert_eq!(prepare_thread_name("  ", false), Err(ThreadNameError::Empty));
    assert_eq!(
        prepare_thread_name(" name ", false),
        Err(ThreadNameError::PersistenceDisabled)
    );
    assert_eq!(prepare_thread_name(" name ", true), Ok("name".to_string()));
    assert_eq!(ThreadNameError::Empty.message(), "thread name cannot be empty");
    assert_eq!(
        ThreadNameError::PersistenceDisabled.message(),
        "session persistence is disabled"
    );
}

#[test]
fn title_prompt_input_len_counts_the_prefix() {
    let items = vec![developer_message("c"), user_message("u"), assistant_message("a")];
    assert_eq!(title_prompt_input_len(&items), Some(2));
    assert_eq!(title_prompt_input_len(&[user_message("x"), user_message("y")]), None);
}

#[test]
fn only_the_first_non_blank_line_decides_the_title() {
    let first = "  Fix flaky login test\r";
    for rest in ["", "other line", "\n\nmore\nlines", "\"quoted\""] {
        assert_eq!(
            sanitize_generated_thread_title(&format!("{first}\n{rest}")),
            sanitize_generated_thread_title(first)
        );
    }
}

#[test]
fn sanitized_titles_are_fixed_points() {
    for raw in [
        "\n  Investigate flaky test failures  \nextra",
        "This title is definitely much longer than fifty characters for the sidebar",
        "  short ",
    ] {
        let t = sanitize_generated_thread_title(raw).unwrap();
        assert_eq!(sanitize_generated_thread_title(&t), Some(t.clone()));
    }
}
