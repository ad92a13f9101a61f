use g3_core::parser::StreamingToolParser;
use g3_core::tool_call::CompletionChunk;

fn check_xml(xml_content: &str, expected_tool: &str, expected_args_contains: &str) {
    let parser = StreamingToolParser::new();
    let tools = parser.try_parse_xml_tool_calls_from_text(xml_content);
    if !tools.is_empty() {
        let tool = &tools[0];
        assert_eq!(tool.tool, expected_tool);
        assert!(tool.args.to_json_string().contains(expected_args_contains));
    } else {
        panic!("No tools found for XML: {}", xml_content);
    }
}

fn check_json(json_content: &str, expected_tool: &str, expected_args_contains: &str) {
    let mut parser = StreamingToolParser::new();
    let tools = parser.try_parse_json_tool_calls_from_text(json_content);
    if !tools.is_empty() {
        let tool = &tools[0];
        assert_eq!(tool.tool, expected_tool);
        assert!(tool.args.to_json_string().contains(expected_args_contains));
    } else {
        panic!("No tools found for JSON: {}", json_content);
    }
}

#[test]
fn test_standard_json_formats() {
    check_json(r#"{"tool":"shell","args":{"command":"ls -la"}}"#, "shell", "ls -la");
    check_json(r#"{ "tool":"shell","args":{"command":"ls -la"}}"#, "shell", "ls -la");
    check_json(r#"{"tool" :"shell","args":{"command":"ls -la"}}"#, "shell", "ls -la");
    check_json(r#"{ "tool" :"shell","args":{"command":"ls -la"}}"#, "shell", "ls -la");
}

#[test]
fn test_standard_xml_formats() {
    check_xml(
        r#"<invoke name="shell"><parameter name="args">{"command": "ls -la"}</parameter></invoke>"#,
        "shell",
        "ls -la",
    );
    check_xml(
        r#"<invoke name="shell">
<parameter name="args">{"command": "ls -la"}</parameter>
</invoke>"#,
        "shell",
        "ls -la",
    );
    // Self-closing elements have no closing tag: the element boundary finder finds
    // no complete element, so nothing is extracted from them.
    let parser = StreamingToolParser::new();
    assert!(parser
        .try_parse_xml_tool_calls_from_text(r#"<tool name="shell" command="ls -la"/>"#)
        .is_empty());
    assert!(parser
        .try_parse_xml_tool_calls_from_text(
            r#"<tool name="read_file" args="{\"file_path\": \"test.txt\"}"/>"#
        )
        .is_empty());
}

#[test]
fn test_xml_with_whitespace() {
    check_xml(
        r#"<invoke name="shell"><parameter name="args"> {"command": "ls -la"} </parameter></invoke>"#,
        "shell",
        "ls -la",
    );
    check_xml(
        r#"<invoke name="shell">
<parameter name="args">
{"command": "ls -la"}
</parameter>
</invoke>"#,
        "shell",
        "ls -la",
    );
    check_xml(
        r#"<invoke name="shell">
  <parameter name="args">  {"command": "echo hello"}  </parameter>
</invoke>"#,
        "shell",
        "echo hello",
    );
}

#[test]
fn test_xml_non_json_content() {
    check_xml(
        r#"<invoke name="shell"><parameter name="args">ls -la</parameter></invoke>"#,
        "shell",
        "ls -la",
    );
    check_xml(
        r#"<invoke name="shell"><parameter name="args">ls -la /home/user</parameter></invoke>"#,
        "shell",
        "ls -la /home/user",
    );
    check_xml(
        r#"<invoke name="shell">
<parameter name="args">ls -la
/home/user</parameter>
</invoke>"#,
        "shell",
        "ls -la /home/user",
    );
}

#[test]
fn test_mixed_formats() {
    let mut parser = StreamingToolParser::new();
    let mixed_text = r#"I'll run a command: {"tool":"shell","args":{"command":"ls"}} and then <invoke name="read_file"><parameter name="args">{"file_path": "test.txt"}</parameter></invoke> for you."#;
    let json_tools = parser.try_parse_json_tool_calls_from_text(mixed_text);
    let xml_tools = parser.try_parse_xml_tool_calls_from_text(mixed_text);
    assert!(json_tools.len() >= 1);
    assert!(xml_tools.len() >= 1);
}

#[test]
fn test_malformed_inputs() {
    let mut parser = StreamingToolParser::new();
    let tools = parser.try_parse_json_tool_calls_from_text(r#"{"tool":"shell","args":{"command":"#);
    assert!(tools.is_empty());

    let parser = StreamingToolParser::new();
    let tools = parser
        .try_parse_xml_tool_calls_from_text(r#"<invoke name="shell"><parameter name="args">{"command": "ls"}"#);
    assert!(tools.is_empty());

    check_xml(
        r#"<invoke name="shell"><parameter name="args">{invalid json}</parameter></invoke>"#,
        "shell",
        "{invalid json}",
    );
}

#[test]
fn test_different_tool_types() {
    check_json(r#"{"tool":"read_file","args":{"file_path":"test.txt"}}"#, "read_file", "test.txt");
    check_xml(
        r#"<invoke name="read_file"><parameter name="args">{"file_path": "test.txt"}</parameter></invoke>"#,
        "read_file",
        "test.txt",
    );
    check_json(r#"{"tool":"todo_read","args":{}}"#, "todo_read", "{}");
    check_json(
        r#"{"tool":"shell","args":{"command":"find . -name '*.rs' | head -5"}}"#,
        "shell",
        "find . -name '*.rs' | head -5",
    );
}

#[test]
fn test_streaming_parser_chunks() {
    let mut parser = StreamingToolParser::new();
    let chunks = vec![
        "I'll run a command: ",
        "<invoke name=\"shell\">",
        "<parameter name=\"args\">{\"command\": \"ls -la\"}",
        "</parameter></invoke> for you.",
    ];
    let mut all_tools = Vec::new();
    for chunk in chunks {
        let tools = parser.process_chunk(&CompletionChunk {
            content: chunk.to_string(),
            tool_calls: None,
            finished: false,
        });
        all_tools.extend(tools);
    }
    let final_tools = parser.process_chunk(&CompletionChunk {
        content: String::new(),
        tool_calls: None,
        finished: true,
    });
    all_tools.extend(final_tools);
    if !all_tools.is_empty() {
        let tool = &all_tools[0];
        assert_eq!(tool.tool, "shell");
        assert!(tool.args.to_json_string().contains("ls -la"));
    }
}

#[test]
fn test_special_characters() {
    check_xml(
        r#"<invoke name="shell"><parameter name="args">{"command": "echo 'Hello World'"}</parameter></invoke>"#,
        "shell",
        "Hello World",
    );
    check_json(
        r#"{"tool":"shell","args":{"command":"echo \"Path: /home/user\""}}"#,
        "shell",
        "Path: /home/user",
    );
    check_xml(
        r#"<invoke name="read_file"><parameter name="args">{"file_path": "/home/user/my file.txt"}</parameter></invoke>"#,
        "read_file",
        "my file.txt",
    );
}

#[test]
fn test_problematic_patterns() {
    check_xml(
        r#"<invoke name="shell">
<parameter name="args"> backend/
</parameter>
</invoke>"#,
        "shell",
        "backend/",
    );
    check_xml(
        r#"<invoke name="shell">
  <parameter name="args">
    ls -la
  </parameter>
</invoke>"#,
        "shell",
        "ls -la",
    );
    let mixed_content = r#"I'll check: <invoke name="shell"><parameter name="args">ls</parameter></invoke> and then read {"tool":"read_file","args":{"file_path":"test.txt"}}"#;
    let mut parser = StreamingToolParser::new();
    let xml_tools = parser.try_parse_xml_tool_calls_from_text(mixed_content);
    let json_tools = parser.try_parse_json_tool_calls_from_text(mixed_content);
    assert!(xml_tools.len() >= 1);
    assert!(json_tools.len() >= 1);
}

#[test]
fn test_empty_and_minimal() {
    let parser = StreamingToolParser::new();
    let tools = parser.try_parse_xml_tool_calls_from_text("");
    assert_eq!(tools.len(), 0);
    let tools = parser.try_parse_xml_tool_calls_from_text("shell");
    assert_eq!(tools.len(), 0);
    let tools = parser.try_parse_xml_tool_calls_from_text("<invoke");
    assert_eq!(tools.len(), 0);
    let mut parser = StreamingToolParser::new();
    let tools = parser.try_parse_json_tool_calls_from_text("{}");
    assert_eq!(tools.len(), 0);
}

#[test]
fn test_performance_stress() {
    let mut parser = StreamingToolParser::new();
    let mut large_text = String::new();
    for i in 0..10 {
        large_text.push_str(&format!(
            r#"Command {}: <invoke name="shell"><parameter name="args">{{"command": "echo {}"}}</parameter></invoke> "#,
            i, i
        ));
    }
    let start = std::time::Instant::now();
    let tools = parser.try_parse_xml_tool_calls_from_text(&large_text);
    let duration = start.elapsed();
    assert!(tools.len() >= 5);
    assert!(duration.as_millis() < 100);
    let _ = &mut parser;
}
