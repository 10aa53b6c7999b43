use cc_switch::json::Json;
use cc_switch::transform_codex_responses_third_party::{
    apply_codex_third_party_request_compat, flatten_agent_message_content, is_synthetic_instruction,
    rewrite_codex_agent_message_input_items, rewrite_standalone_function_call_outputs,
    tool_output_text,
};

fn json(text: &str) -> Json {
    Json::parse(text).expect("json")
}

fn item(body: &Json, i: usize) -> &Json {
    &body.get_array("input").expect("input")[i]
}

fn content_text(item: &Json, i: usize) -> &str {
    item.get_array("content").expect("content")[i]
        .get_str("text")
        .expect("text")
}

#[test]
fn rewrites_agent_message_with_encrypted_content_to_user_message() {
    let mut body = json(
        r#"{
            "input": [
                {
                    "type": "agent_message",
                    "id": "amsg_child",
                    "author": "/root",
                    "recipient": "/root/worker",
                    "content": [
                        {"type": "input_text", "text": "Message Type: NEW_TASK\nPayload:\n"},
                        {"type": "encrypted_content", "encrypted_content": "Review the diff."}
                    ]
                }
            ]
        }"#,
    );

    assert!(rewrite_codex_agent_message_input_items(&mut body));
    let first = item(&body, 0);
    assert_eq!(first.get_str("type"), Some("message"));
    assert_eq!(first.get_str("role"), Some("user"));
    assert_eq!(first.get_str("id"), Some("amsg_child"));
    assert_eq!(
        content_text(first, 0),
        "Message Type: NEW_TASK\nPayload:\n"
    );
    assert_eq!(content_text(first, 1), "Review the diff.");
    assert!(first.get("author").is_none());
    assert!(first.get("recipient").is_none());
    assert!(!rewrite_codex_agent_message_input_items(&mut body));
}

#[test]
fn leaves_function_call_output_with_call_id_untouched() {
    let mut body = json(
        r#"{
            "input": [
                {"type": "function_call", "call_id": "c1", "name": "read_file"},
                {"type": "function_call_output", "call_id": "c1", "output": "file content"}
            ]
        }"#,
    );
    let original = body.clone();

    assert!(!rewrite_standalone_function_call_outputs(&mut body));
    assert_eq!(body, original);
}

#[test]
fn rewrites_standalone_delegation_output_without_call_id() {
    let mut body = json(
        r#"{
            "input": [
                {
                    "type": "function_call_output",
                    "id": "fco_delegation",
                    "name": "create_thread",
                    "namespace": "codex_app",
                    "output": "<codex_delegation>\n  <source_thread_id>src-1</source_thread_id>\n  <input>Count README files.</input>\n</codex_delegation>"
                }
            ]
        }"#,
    );

    assert!(rewrite_standalone_function_call_outputs(&mut body));
    let first = item(&body, 0);
    assert_eq!(first.get_str("type"), Some("message"));
    assert_eq!(first.get_str("role"), Some("user"));
    assert_eq!(first.get_str("id"), Some("fco_delegation"));
    assert!(first.get("name").is_none());
    assert!(first.get("namespace").is_none());
    assert!(content_text(first, 0).contains("<codex_delegation>"));
    assert!(!rewrite_standalone_function_call_outputs(&mut body));
}

#[test]
fn rewrites_standalone_delegation_with_object_output_text() {
    let mut body = json(
        r#"{
            "input": [
                {
                    "type": "function_call_output",
                    "name": "create_thread",
                    "namespace": "codex_app",
                    "output": {
                        "text": "<codex_delegation>object task</codex_delegation>"
                    }
                }
            ]
        }"#,
    );

    assert!(rewrite_standalone_function_call_outputs(&mut body));
    assert_eq!(item(&body, 0).get_str("type"), Some("message"));
    assert_eq!(item(&body, 0).get_str("role"), Some("user"));
    assert!(content_text(item(&body, 0), 0).contains("<codex_delegation>"));
}

#[test]
fn rewrites_heartbeat_output_without_call_id() {
    let mut body = json(
        r#"{
            "input": [
                {
                    "type": "function_call_output",
                    "name": "automation_update",
                    "namespace": "codex_app",
                    "output": "<heartbeat>\n  <instructions>Check the status.</instructions>\n</heartbeat>"
                }
            ]
        }"#,
    );

    assert!(rewrite_standalone_function_call_outputs(&mut body));
    assert_eq!(item(&body, 0).get_str("type"), Some("message"));
    assert_eq!(item(&body, 0).get_str("role"), Some("user"));
}

#[test]
fn leaves_plain_missing_call_id_output_untouched() {
    let mut body = json(
        r#"{
            "input": [
                {
                    "type": "function_call_output",
                    "output": "plain tool output without call id"
                }
            ]
        }"#,
    );
    let original = body.clone();

    assert!(!rewrite_standalone_function_call_outputs(&mut body));
    assert_eq!(body, original);
}

#[test]
fn apply_compat_rewrites_both_synthetic_items() {
    let mut body = json(
        r#"{
            "input": [
                {
                    "type": "agent_message",
                    "content": [{"type": "input_text", "text": "NEW_TASK"}]
                },
                {
                    "type": "function_call_output",
                    "name": "send_message_to_thread",
                    "output": "<codex_delegation>do it</codex_delegation>"
                }
            ]
        }"#,
    );

    assert!(apply_codex_third_party_request_compat(
        &mut body, "deepseek"
    ));
    assert_eq!(item(&body, 0).get_str("type"), Some("message"));
    assert_eq!(item(&body, 0).get_str("role"), Some("user"));
    assert_eq!(item(&body, 1).get_str("type"), Some("message"));
    assert_eq!(item(&body, 1).get_str("role"), Some("user"));
}

#[test]
fn rewrites_nested_synthetic_items() {
    let mut body = json(
        r#"{
            "input": {
                "collaboration": {
                    "items": [
                        {
                            "type": "agent_message",
                            "content": [{"type": "input_text", "text": "nested task"}]
                        },
                        {
                            "type": "function_call_output",
                            "output": "<codex_delegation>nested delegation</codex_delegation>"
                        }
                    ]
                }
            }
        }"#,
    );

    assert!(apply_codex_third_party_request_compat(&mut body, "kimi"));
    let items = body
        .get("input")
        .and_then(|input| input.get("collaboration"))
        .and_then(|collaboration| collaboration.get_array("items"))
        .expect("items");
    assert_eq!(items[0].get_str("type"), Some("message"));
    assert_eq!(items[1].get_str("type"), Some("message"));
}

#[test]
fn a_body_without_carriers_stays_as_it_is() {
    let mut body = json(r#"{"model": "m", "input": [{"type": "message", "role": "user"}, 3, null]}"#);
    let original = body.clone();
    assert!(!apply_codex_third_party_request_compat(&mut body, "any"));
    assert_eq!(body, original);
}

#[test]
fn a_rewritten_body_is_not_rewritten_again() {
    let mut body = json(
        r#"{"input": [
            {"type": "agent_message", "content": "task"},
            {"type": "function_call_output", "output": "  <heartbeat>x</heartbeat>"}
        ]}"#,
    );
    assert!(apply_codex_third_party_request_compat(&mut body, "any"));
    let once = body.clone();
    assert!(!apply_codex_third_party_request_compat(&mut body, "any"));
    assert_eq!(body, once);
}

#[test]
fn a_promoted_item_is_a_user_message_of_input_texts() {
    let mut body = json(
        r#"{"input": [{
            "type": " agent_message ",
            "id": 7,
            "content": [{"text": "a"}, {"text": ""}, 4, "c", {"type": "encrypted_content", "text": "b"}]
        }]}"#,
    );
    assert!(rewrite_codex_agent_message_input_items(&mut body));
    let first = item(&body, 0);
    assert_eq!(first.get_str("type"), Some("message"));
    assert_eq!(first.get_str("role"), Some("user"));
    assert_eq!(first.get("id").and_then(|id| id.as_u64()), Some(7));
    assert_eq!(first.get_array("content").map(|parts| parts.len()), Some(2));
    assert_eq!(content_text(first, 0), "a");
    assert_eq!(content_text(first, 1), "b");
    assert_eq!(
        first.get_array("content").expect("content")[0].get_str("type"),
        Some("input_text")
    );
}

#[test]
fn the_two_rewrites_do_not_touch_each_others_items() {
    let mut body = json(
        r#"{"input": [
            {"type": "agent_message", "content": "task"},
            {"type": "function_call_output", "output": "<heartbeat>"}
        ]}"#,
    );
    let output = item(&body, 1).clone();
    assert!(rewrite_codex_agent_message_input_items(&mut body));
    assert_eq!(item(&body, 1), &output);
    assert!(rewrite_standalone_function_call_outputs(&mut body));
    assert_eq!(item(&body, 1).get_str("type"), Some("message"));
}

#[test]
fn the_text_of_a_tool_output() {
    assert_eq!(tool_output_text(Some(&json("\"s\""))).as_deref(), Some("s"));
    assert_eq!(
        tool_output_text(Some(&json(r#"{"b": 1, "a": [true]}"#))).as_deref(),
        Some(r#"{"a":[true],"b":1}"#)
    );
    assert_eq!(
        tool_output_text(Some(&json(r#"[1, "x"]"#))).as_deref(),
        Some(r#"[1,"x"]"#)
    );
    assert_eq!(tool_output_text(Some(&json("5"))), None);
    assert_eq!(tool_output_text(None), None);
}

#[test]
fn a_synthetic_instruction_starts_with_its_tag() {
    assert!(is_synthetic_instruction("\n <heartbeat>"));
    assert!(is_synthetic_instruction("<codex_delegation>x"));
    assert!(!is_synthetic_instruction("see <heartbeat>"));
}

#[test]
fn content_that_is_missing_has_no_parts() {
    assert!(flatten_agent_message_content(None).is_empty());
    assert_eq!(flatten_agent_message_content(Some(&json("\"a\""))).len(), 1);
}
