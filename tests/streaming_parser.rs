use g3_core::json::JsonValue;
use g3_core::json_calls::tool_call_from_json;
use g3_core::parser::StreamingToolParser;
use g3_core::tool_call::CompletionChunk;

fn chunk(content: &str, finished: bool) -> CompletionChunk {
    CompletionChunk { content: content.to_string(), tool_calls: None, finished }
}

fn member<'a>(v: &'a JsonValue, key: &str) -> Option<&'a JsonValue> {
    match v {
        JsonValue::Object(members) => members.iter().find(|(k, _)| k == key).map(|(_, x)| x),
        _ => None,
    }
}

#[test]
fn test_tool_call_json_parsing() {
    let json_str = r#"{"tool":"shell","args":{"command":"ls -la"}}"#;
    match tool_call_from_json(json_str) {
        Some(tool_call) => {
            assert_eq!(tool_call.tool, "shell");
            assert!(tool_call.args.is_object());
            match member(&tool_call.args, "command") {
                Some(JsonValue::String(command)) => assert_eq!(command, "ls -la"),
                _ => panic!("Missing command argument"),
            }
        }
        None => panic!("Failed to parse JSON: {}", json_str),
    }
}

#[test]
fn test_streaming_parser_with_simple_tool_call() {
    let mut parser = StreamingToolParser::new();
    let text = r#"Let me run a command: {"tool":"shell","args":{"command":"ls -la"}}"#;
    let tools = parser.try_parse_json_tool_calls_from_text(text);
    assert_eq!(tools.len(), 1);
    assert_eq!(tools[0].tool, "shell");
    assert!(tools[0].args.is_object());
}

#[test]
fn test_find_complete_json_object_end_simple() {
    let text = r#"{"tool":"shell","args":{"command":"ls"}}"#;
    assert_eq!(
        StreamingToolParser::find_complete_json_object_end(text),
        Some(text.len() - 1)
    );
}

#[test]
fn test_find_complete_json_object_end_nested() {
    let text = r#"{"tool":"write","args":{"content":"{nested}"}}"#;
    assert_eq!(
        StreamingToolParser::find_complete_json_object_end(text),
        Some(text.len() - 1)
    );
}

#[test]
fn test_find_complete_json_object_end_incomplete() {
    let text = r#"{"tool":"shell","args":{"command":"ls""#;
    assert_eq!(StreamingToolParser::find_complete_json_object_end(text), None);
}

#[test]
fn test_xml_tool_call_parsing() {
    let parser = StreamingToolParser::new();
    let xml_text = r#"I'll run a command: <invoke name="shell"><parameter name="args">{"command": "ls -la"}</parameter></invoke> for you."#;
    let tools = parser.try_parse_xml_tool_calls_from_text(xml_text);
    assert_eq!(tools.len(), 1);
    assert_eq!(tools[0].tool, "shell");
    assert!(tools[0].args.is_object());

    // A self-closing element has no closing tag, so the element boundary finder
    // reports no complete element and nothing is extracted.
    let xml_text2 = r#"Let me check: <tool name="shell" command="ls -la"/> the directory."#;
    let tools2 = parser.try_parse_xml_tool_calls_from_text(xml_text2);
    assert_eq!(tools2.len(), 0);
}

#[test]
fn test_tool_call_patterns() {
    assert!(StreamingToolParser::find_first_tool_call_start(r#"{"tool":"test"}"#).is_some());
    assert!(StreamingToolParser::find_first_tool_call_start(r#"{ "tool":"test"}"#).is_some());
    assert!(StreamingToolParser::find_first_tool_call_start(r#"{"tool" :"test"}"#).is_some());
    assert!(StreamingToolParser::find_first_tool_call_start(r#"{ "tool" :"test"}"#).is_some());
}

#[test]
fn test_parser_reset() {
    let mut parser = StreamingToolParser::new();
    parser.process_chunk(&chunk("some content", true));
    parser.mark_tool_calls_consumed();
    assert_eq!(parser.consumed_position(), 12);
    assert!(parser.is_message_stopped());

    parser.reset();

    assert!(parser.get_text_content().is_empty());
    assert!(!parser.is_message_stopped());
    assert_eq!(parser.consumed_position(), 0);
}

#[test]
fn first_and_last_openings() {
    let text = r#"a {"tool":"x"} b { "tool" :"y"}"#;
    assert_eq!(StreamingToolParser::find_first_tool_call_start(text), Some(2));
    assert_eq!(StreamingToolParser::find_last_tool_call_start(text), Some(17));
    assert_eq!(StreamingToolParser::find_first_tool_call_start("no call here"), None);
    assert_eq!(StreamingToolParser::find_last_tool_call_start("{\"tools\":1}"), None);
}

#[test]
fn object_end_skips_braces_in_strings_and_escapes() {
    assert_eq!(StreamingToolParser::find_complete_json_object_end(r#"{"a":"}"}"#), Some(8));
    assert_eq!(StreamingToolParser::find_complete_json_object_end(r#"{"a":"\"}"}"#), Some(10));
    assert_eq!(StreamingToolParser::find_complete_json_object_end("x{}y"), Some(2));
    assert_eq!(StreamingToolParser::find_complete_json_object_end(""), None);
    assert_eq!(StreamingToolParser::find_complete_json_object_end("}{"), None);
}

#[test]
fn content_before_position() {
    let mut parser = StreamingToolParser::new();
    parser.process_chunk(&chunk("hello world", false));
    assert_eq!(parser.get_content_before_position(5), "hello");
    assert_eq!(parser.get_content_before_position(50), "hello world");
    assert_eq!(parser.text_buffer_len(), 11);
}

#[test]
fn unexecuted_call_until_consumed() {
    let mut parser = StreamingToolParser::new();
    parser.process_chunk(&chunk(r#"Run {"tool":"shell","args":{"command":"ls"}} now"#, true));
    assert!(parser.has_unexecuted_tool_call());
    assert!(!parser.has_incomplete_tool_call());
    parser.mark_tool_calls_consumed();
    assert!(!parser.has_unexecuted_tool_call());
    assert_eq!(parser.consumed_position(), parser.text_buffer_len());
}

#[test]
fn open_candidate_is_tracked_then_resolved() {
    let mut parser = StreamingToolParser::new();
    let first = parser.process_chunk(&chunk(r#"{"tool":"shell","args":"#, false));
    assert!(first.is_empty());
    assert!(parser.is_in_json_tool_call());
    assert_eq!(parser.json_tool_start_position(), Some(0));
    let second = parser.process_chunk(&chunk(r#"{"command":"pwd"}}"#, false));
    assert_eq!(second.len(), 1);
    assert_eq!(second[0].tool, "shell");
    assert!(!parser.is_in_json_tool_call());
    assert_eq!(parser.json_tool_start_position(), None);
}

#[test]
fn native_calls_are_handed_out_and_unnamed_ones_skipped() {
    let mut parser = StreamingToolParser::new();
    let named = g3_core::tool_call::ToolCall { tool: "read_file".to_string(), args: JsonValue::Object(vec![]) };
    let unnamed = g3_core::tool_call::ToolCall { tool: String::new(), args: JsonValue::Null };
    let calls = parser.process_chunk(&CompletionChunk {
        content: r#"{"tool":"shell","args":{}}"#.to_string(),
        tool_calls: Some(vec![unnamed, named]),
        finished: true,
    });
    assert_eq!(calls.len(), 1);
    assert_eq!(calls[0].tool, "read_file");
    assert!(parser.is_message_stopped());
    assert_eq!(parser.text_buffer_len(), 26);
}

#[test]
fn xml_call_marks_its_start_consumed() {
    let mut parser = StreamingToolParser::new();
    let calls = parser.process_chunk(&chunk(
        r#"ok <invoke name="shell"><parameter name="args">pwd</parameter></invoke>"#,
        false,
    ));
    assert_eq!(calls.len(), 1);
    assert_eq!(parser.consumed_position(), 4);
    let again = parser.process_chunk(&chunk(" done", false));
    assert!(again.is_empty());
}

#[test]
fn json_with_non_object_args_or_empty_name_is_rejected() {
    assert!(tool_call_from_json(r#"{"tool":"shell","args":"ls"}"#).is_none());
    assert!(tool_call_from_json(r#"{"tool":"","args":{}}"#).is_none());
    assert!(tool_call_from_json(r#"{"tool":"shell"}"#).is_none());
    assert!(tool_call_from_json(r#"{"tool":"shell","args":{"Let me see":1}}"#).is_none());
    assert!(tool_call_from_json(r#"{"tool":"shell","args":{"a\nb":1}}"#).is_none());
    let long_key = "k".repeat(101);
    let text = format!(r#"{{"tool":"shell","args":{{"{}":1}}}}"#, long_key);
    assert!(tool_call_from_json(&text).is_none());
    let ok_key = "k".repeat(100);
    let text = format!(r#"{{"tool":"shell","args":{{"{}":1}}}}"#, ok_key);
    assert!(tool_call_from_json(&text).is_some());
}

#[test]
fn json_text_of_arguments() {
    let call = tool_call_from_json(r#"{"tool":"todo_read","args":{}}"#).unwrap();
    assert_eq!(call.args.to_json_string(), "{}");
    let call = tool_call_from_json(r#"{"tool":"shell","args":{"command":"ls -la","n":2}}"#).unwrap();
    assert_eq!(call.args.to_json_string(), r#"{"command":"ls -la","n":2}"#);
}

#[test]
fn tool_element_is_handed_out_once() {
    let mut parser = StreamingToolParser::new();
    let first = parser.process_chunk(&chunk(r#"x <tool name="shell">ls</tool>"#, false));
    assert_eq!(first.len(), 1);
    assert_eq!(first[0].tool, "shell");
    assert_eq!(first[0].args.get("command").unwrap().as_str(), Some("ls"));
    assert_eq!(parser.consumed_position(), 3);
    assert!(parser.process_chunk(&chunk(" more", false)).is_empty());
    assert!(parser.process_chunk(&chunk(" text", false)).is_empty());
}

#[test]
fn json_call_is_handed_out_once_mid_stream() {
    let mut parser = StreamingToolParser::new();
    let text = r#"go {"tool":"shell","args":{"command":"ls"}}"#;
    assert_eq!(parser.process_chunk(&chunk(text, false)).len(), 1);
    assert_eq!(parser.consumed_position(), text.len());
    assert!(parser.process_chunk(&chunk(" and more", false)).is_empty());
    assert!(!parser.has_unexecuted_tool_call());
}

#[test]
fn xml_arguments_that_are_not_an_object_become_a_command() {
    let parser = StreamingToolParser::new();
    let calls = parser.try_parse_xml_tool_calls_from_text(
        r#"<invoke name="shell"><parameter name="args">42</parameter></invoke>"#,
    );
    assert_eq!(calls.len(), 1);
    assert_eq!(calls[0].args.to_json_string(), r#"{"command":"42"}"#);
    let calls = parser.try_parse_xml_tool_calls_from_text(
        r#"<invoke name="shell"><parameter name="args">"pwd"</parameter></invoke>"#,
    );
    assert_eq!(calls[0].args.to_json_string(), r#"{"command":"\"pwd\""}"#);
}
