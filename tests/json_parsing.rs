use g3_core::json_calls::tool_call_from_json;
use g3_core::parser::StreamingToolParser;

#[test]
fn test_json_tool_call_parsing() {
    let test_cases = vec![
        (r#"{"tool":"shell","args":{"command":"ls -la"}}"#, true),
        (r#"{ "tool":"shell","args":{"command":"ls -la"}}"#, true),
        (r#"{"tool" :"shell","args":{"command":"ls -la"}}"#, true),
        (r#"{ "tool" :"shell","args":{"command":"ls -la"}}"#, true),
        (r#"<invoke name="shell"><parameter name="command">ls -la</parameter></invoke>"#, false),
        (r#"<tool name="shell" command="ls -la"/>"#, false),
    ];
    for (test_case, should_parse) in test_cases {
        assert_eq!(tool_call_from_json(test_case).is_some(), should_parse, "{}", test_case);
    }
}

#[test]
fn test_find_tool_call_patterns() {
    let test_text = r#"I need to list files. {"tool":"shell","args":{"command":"ls -la"}} Let me check the directory."#;
    let pos = StreamingToolParser::find_first_tool_call_start(test_text).expect("pattern found");
    assert_eq!(pos, 22);
    let remaining = &test_text[pos..];
    let end_pos = StreamingToolParser::find_complete_json_object_end(remaining).expect("complete object");
    let json_str = &remaining[..=end_pos];
    assert_eq!(json_str, r#"{"tool":"shell","args":{"command":"ls -la"}}"#);
    let tool_call = tool_call_from_json(json_str).expect("valid call");
    assert_eq!(tool_call.tool, "shell");
}
