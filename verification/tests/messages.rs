use claude_sessions::json::JsonValue;
use claude_sessions::messages::{decode_block, decode_message, decode_stdout_line, ClaudeMessage, ContentBlock};

fn obj(fields: Vec<(&str, JsonValue)>) -> JsonValue {
    JsonValue::Obj(fields.into_iter().map(|(k, v)| (k.to_string(), v)).collect())
}

fn s(text: &str) -> JsonValue {
    JsonValue::Str(text.to_string())
}

#[test]
fn unknown_block_decodes_to_unknown() {
    // A content block with an unrecognized tag decodes to Unknown rather
    // than failing the whole message.
    let block = obj(vec![("type", s("thinking")), ("thought", s("hmm"))]);
    assert!(matches!(decode_block(&block), Some(ContentBlock::Unknown)));

    let line = r#"{"type":"assistant","message":{"content":[{"type":"signature","data":"x"}]}}"#;
    match decode_stdout_line(line) {
        Some(ClaudeMessage::Assistant { message, .. }) => {
            assert_eq!(message.content.len(), 1);
            assert!(matches!(message.content[0], ContentBlock::Unknown));
        }
        _ => panic!("the message with an unknown block must decode"),
    }
}

#[test]
fn block_without_string_tag_fails() {
    assert!(decode_block(&obj(vec![("text", s("hi"))])).is_none());
    assert!(decode_block(&obj(vec![("type", JsonValue::Num("3".to_string()))])).is_none());
    assert!(decode_block(&s("just text")).is_none());
}

#[test]
fn known_blocks_decode_with_fields() {
    let line = r#"{"type":"assistant","message":{"id":"m1","model":"x","content":[{"type":"text","text":"hello","mood":"calm"},{"type":"tool_use","id":"t1","name":"Bash","input":{"command":"ls"}},{"type":"tool_result","tool_use_id":"t1","is_error":false}],"stop_reason":"end_turn"}}"#;
    match decode_stdout_line(line) {
        Some(ClaudeMessage::Assistant { message, .. }) => {
            assert_eq!(message.id.as_deref(), Some("m1"));
            assert_eq!(message.model.as_deref(), Some("x"));
            assert_eq!(message.stop_reason.as_deref(), Some("end_turn"));
            assert_eq!(message.content.len(), 3);
            match &message.content[0] {
                ContentBlock::Text { text, extra } => {
                    assert_eq!(text, "hello");
                    // The unrecognized field is preserved, not dropped.
                    assert!(extra.iter().any(|(k, _)| k == "mood"));
                }
                _ => panic!("first block is text"),
            }
            match &message.content[1] {
                ContentBlock::ToolUse { id, name, .. } => {
                    assert_eq!(id, "t1");
                    assert_eq!(name, "Bash");
                }
                _ => panic!("second block is tool_use"),
            }
            match &message.content[2] {
                ContentBlock::ToolResult { tool_use_id, is_error, content, .. } => {
                    assert_eq!(tool_use_id, "t1");
                    assert_eq!(*is_error, Some(false));
                    assert!(content.is_none());
                }
                _ => panic!("third block is tool_result"),
            }
        }
        _ => panic!("the assistant message must decode"),
    }
}

#[test]
fn system_message_preserves_unknown_fields() {
    let line = r#"{"type":"system","subtype":"init","session_id":"s9","apiKeySource":"env"}"#;
    match decode_stdout_line(line) {
        Some(ClaudeMessage::System { subtype, session_id, extra, .. }) => {
            assert_eq!(subtype, "init");
            assert_eq!(session_id.as_deref(), Some("s9"));
            assert!(extra.iter().any(|(k, _)| k == "apiKeySource"));
        }
        _ => panic!("the system message must decode"),
    }
}

#[test]
fn result_metrics_kept_as_number_text() {
    let line = r#"{"type":"result","subtype":"success","total_cost_usd":0.25,"duration_ms":1200}"#;
    match decode_stdout_line(line) {
        Some(ClaudeMessage::Result { total_cost_usd, duration_ms, duration_api_ms, .. }) => {
            assert_eq!(total_cost_usd.as_deref(), Some("0.25"));
            assert_eq!(duration_ms.as_deref(), Some("1200"));
            assert!(duration_api_ms.is_none());
        }
        _ => panic!("the result message must decode"),
    }
}

#[test]
fn missing_required_fields_fail_the_message() {
    // system without subtype
    assert!(decode_stdout_line(r#"{"type":"system"}"#).is_none());
    // user without message
    assert!(decode_stdout_line(r#"{"type":"user"}"#).is_none());
    // assistant whose message has no content list
    assert!(decode_stdout_line(r#"{"type":"assistant","message":{}}"#).is_none());
    // unknown top-level tag
    assert!(decode_stdout_line(r#"{"type":"banter"}"#).is_none());
    // no tag at all
    assert!(decode_stdout_line(r#"{"subtype":"init"}"#).is_none());
    // not an object
    assert!(decode_stdout_line(r#"[1,2,3]"#).is_none());
    // not JSON
    assert!(decode_stdout_line("plain diagnostics").is_none());
}

#[test]
fn encoding_round_trips_preserved_fields() {
    let line = r#"{"type":"assistant","zeta":1,"message":{"alpha":true,"content":[{"type":"text","text":"hi","mood":"calm"},{"type":"mystery"}]}}"#;
    let m = decode_stdout_line(line).expect("the message decodes");
    let encoded = m.to_json();
    let m2 = decode_message(&encoded).expect("the encoded value decodes back");
    match (&m, &m2) {
        (
            ClaudeMessage::Assistant { message: a1, extra: e1 },
            ClaudeMessage::Assistant { message: a2, extra: e2 },
        ) => {
            // The unknown top-level field survives encode and decode.
            assert!(e1.iter().any(|(k, _)| k == "zeta"));
            assert!(e2.iter().any(|(k, _)| k == "zeta"));
            assert!(a1.extra.iter().any(|(k, _)| k == "alpha"));
            assert!(a2.extra.iter().any(|(k, _)| k == "alpha"));
            assert_eq!(a1.content.len(), 2);
            assert_eq!(a2.content.len(), 2);
            match (&a1.content[0], &a2.content[0]) {
                (
                    ContentBlock::Text { text: t1, extra: x1 },
                    ContentBlock::Text { text: t2, extra: x2 },
                ) => {
                    assert_eq!(t1, "hi");
                    assert_eq!(t2, "hi");
                    assert!(x1.iter().any(|(k, _)| k == "mood"));
                    assert!(x2.iter().any(|(k, _)| k == "mood"));
                }
                _ => panic!("the text block must survive the round trip"),
            }
            assert!(matches!(a1.content[1], ContentBlock::Unknown));
            assert!(matches!(a2.content[1], ContentBlock::Unknown));
        }
        _ => panic!("both decodings must be assistant messages"),
    }
}

#[test]
fn result_metrics_round_trip_as_numbers() {
    let line = r#"{"type":"result","subtype":"success","total_cost_usd":0.25,"note":"x"}"#;
    let m = decode_stdout_line(line).expect("the message decodes");
    let m2 = decode_message(&m.to_json()).expect("the encoded value decodes back");
    match m2 {
        ClaudeMessage::Result { subtype, total_cost_usd, extra, .. } => {
            assert_eq!(subtype, "success");
            assert_eq!(total_cost_usd.as_deref(), Some("0.25"));
            assert!(extra.iter().any(|(k, _)| k == "note"));
        }
        _ => panic!("a result message must round-trip as one"),
    }
}

#[test]
fn duplicate_keys_last_one_wins() {
    // The JSON parser keeps one entry per key, the last occurrence winning,
    // so the decoder sees a single value.
    let line = r#"{"type":"system","subtype":"first","subtype":"second"}"#;
    match decode_stdout_line(line) {
        Some(ClaudeMessage::System { subtype, .. }) => assert_eq!(subtype, "second"),
        _ => panic!("the message must decode"),
    }
}

#[test]
fn non_ascii_text_survives_decoding() {
    let line = "{\"type\":\"result\",\"subtype\":\"success\",\"result\":\"d\u{00e9}j\u{00e0} vu \u{2713}\"}";
    match decode_stdout_line(line) {
        Some(ClaudeMessage::Result { result, .. }) => {
            assert_eq!(result.as_deref(), Some("d\u{00e9}j\u{00e0} vu \u{2713}"));
        }
        _ => panic!("the message must decode"),
    }
}

#[test]
fn user_message_carries_payload_through() {
    let line = r#"{"type":"user","message":{"role":"user","content":"hi"},"parent":null}"#;
    match decode_stdout_line(line) {
        Some(ClaudeMessage::User { message, .. }) => match message {
            JsonValue::Obj(fields) => {
                assert!(fields.iter().any(|(k, _)| k == "role"));
                assert!(fields.iter().any(|(k, _)| k == "content"));
            }
            _ => panic!("the payload must stay an object"),
        },
        _ => panic!("the user message must decode"),
    }
}
