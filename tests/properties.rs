use g3_core::json::JsonValue;
use g3_core::parser::StreamingToolParser;
use g3_core::tool_call::{CompletionChunk, ToolCall};

fn chunk(content: &str, finished: bool) -> CompletionChunk {
    CompletionChunk { content: content.to_string(), tool_calls: None, finished }
}

fn shell_call(command: &str) -> ToolCall {
    ToolCall {
        tool: "shell".to_string(),
        args: JsonValue::Object(vec![(
            "command".to_string(),
            JsonValue::String(command.to_string()),
        )]),
    }
}

const VARIANTS: [&str; 4] = [
    r#"{"tool":"shell","args":{"command":"ls -la"}}"#,
    r#"{ "tool":"shell","args":{"command":"ls -la"}}"#,
    r#"{"tool" :"shell","args":{"command":"ls -la"}}"#,
    r#"{ "tool" :"shell","args":{"command":"ls -la"}}"#,
];

#[test]
fn every_opening_spelling_yields_one_call() {
    for message in VARIANTS {
        let mut parser = StreamingToolParser::new();
        let calls = parser.process_chunk(&chunk(message, true));
        assert_eq!(calls, vec![shell_call("ls -la")], "{}", message);
    }
}

#[test]
fn split_message_yields_one_call() {
    for message in VARIANTS {
        let n = message.len();
        for a in 0..n {
            for b in a..n {
                for c in b..n {
                    let mut parser = StreamingToolParser::new();
                    let mut calls = Vec::new();
                    calls.extend(parser.process_chunk(&chunk(&message[..a], false)));
                    calls.extend(parser.process_chunk(&chunk(&message[a..b], false)));
                    calls.extend(parser.process_chunk(&chunk(&message[b..c], false)));
                    calls.extend(parser.process_chunk(&chunk(&message[c..], true)));
                    assert_eq!(calls, vec![shell_call("ls -la")], "{} {} {}", a, b, c);
                }
            }
        }
    }
}

#[test]
fn truncated_call_is_incomplete() {
    let mut parser = StreamingToolParser::new();
    let calls = parser.process_chunk(&chunk(r#"{"tool":"shell","args":{"command":"#, false));
    assert!(calls.is_empty());
    assert!(parser.has_incomplete_tool_call());
    assert!(!parser.has_unexecuted_tool_call());
}

#[test]
fn xml_literal_command_is_collapsed() {
    let text = "<invoke name=\"shell\"><parameter name=\"args\">ls -la\n/home/user</parameter></invoke>";
    let parser = StreamingToolParser::new();
    assert_eq!(parser.try_parse_xml_tool_calls_from_text(text), vec![shell_call("ls -la /home/user")]);
    let mut parser = StreamingToolParser::new();
    assert_eq!(parser.process_chunk(&chunk(text, true)), vec![shell_call("ls -la /home/user")]);
}

#[test]
fn prose_key_is_rejected() {
    let text = r#"{"tool":"shell","args":{"I'll check the logs":"tail -f log"}}"#;
    let mut parser = StreamingToolParser::new();
    assert!(parser.try_parse_json_tool_calls_from_text(text).is_empty());
    assert!(parser.process_chunk(&chunk(text, true)).is_empty());
    let mut parser = StreamingToolParser::new();
    assert!(parser.process_chunk(&chunk(text, false)).is_empty());
}

#[test]
fn mixed_text_end_of_stream_prefers_xml() {
    let mixed = r#"{"tool":"shell","args":{"command":"ls"}} then <invoke name="read_file"><parameter name="args">{"file_path": "a.txt"}</parameter></invoke>"#;
    let mut parser = StreamingToolParser::new();
    assert!(parser.try_parse_json_tool_calls_from_text(mixed).len() >= 1);
    assert!(parser.try_parse_xml_tool_calls_from_text(mixed).len() >= 1);
    let calls = parser.process_chunk(&chunk(mixed, true));
    assert_eq!(calls.len(), 1);
    assert_eq!(calls[0].tool, "read_file");

    let only_json = r#"{"tool":"shell","args":{"command":"ls"}} and {"tool":"shell","args":{"command":"pwd"}}"#;
    let mut parser = StreamingToolParser::new();
    assert_eq!(
        parser.process_chunk(&chunk(only_json, true)),
        vec![shell_call("ls"), shell_call("pwd")]
    );
}

#[test]
fn reset_replays_identically() {
    let script: Vec<(&str, bool)> = vec![
        ("Let me list: ", false),
        (r#"{"tool":"shell","args":"#, false),
        (r#"{"command":"ls -la"}}"#, false),
        (" and <invoke name=\"shell\"><parameter name=\"args\">pwd</parameter></invoke>", false),
        ("", true),
    ];
    let mut parser = StreamingToolParser::new();
    let first: Vec<Vec<ToolCall>> = script.iter().map(|(c, f)| parser.process_chunk(&chunk(c, *f))).collect();
    parser.reset();
    let second: Vec<Vec<ToolCall>> = script.iter().map(|(c, f)| parser.process_chunk(&chunk(c, *f))).collect();
    assert_eq!(first, second);
    assert_eq!(first[2], vec![shell_call("ls -la")]);
}

#[test]
fn empty_chunk_on_idle_parser_changes_nothing() {
    let mut parser = StreamingToolParser::new();
    assert!(parser.process_chunk(&chunk("", false)).is_empty());
    assert_eq!(parser.text_buffer_len(), 0);
    assert!(!parser.is_message_stopped());
    assert!(!parser.is_in_json_tool_call());
    assert_eq!(parser.consumed_position(), 0);

    parser.process_chunk(&chunk("plain words", false));
    assert!(parser.process_chunk(&chunk("", false)).is_empty());
    assert_eq!(parser.get_text_content(), "plain words");
    assert!(!parser.is_in_json_tool_call());
}
