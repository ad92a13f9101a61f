use g3_core::json::JsonValue;
use g3_core::tool_call::ToolCall;

fn make_tool_call(tool: &str, args: &str) -> ToolCall {
    ToolCall { tool: tool.to_string(), args: JsonValue::parse(args).expect("valid JSON") }
}

fn as_u64(v: &JsonValue) -> Option<u64> {
    v.as_number().and_then(|n| n.as_u64())
}

#[test]
fn test_read_file_missing_path_arg() {
    let tool_call = make_tool_call("read_file", "{}");
    assert!(tool_call.args.get("file_path").is_none());
}

#[test]
fn test_str_replace_tool_call_structure() {
    let tool_call = make_tool_call(
        "str_replace",
        r#"{"file_path": "/path/to/file.txt", "diff": "@@ -1,1 +1,1 @@\n-old\n+new\n"}"#,
    );
    assert_eq!(tool_call.tool, "str_replace");
    assert!(tool_call.args.get("file_path").is_some());
    assert!(tool_call.args.get("diff").is_some());
}

#[test]
fn test_str_replace_with_range() {
    let tool_call = make_tool_call(
        "str_replace",
        r#"{"file_path": "/path/to/file.txt", "diff": "@@ -1,1 +1,1 @@\n-old\n+new\n", "start": 100, "end": 500}"#,
    );
    assert_eq!(as_u64(tool_call.args.get("start").unwrap()), Some(100));
    assert_eq!(as_u64(tool_call.args.get("end").unwrap()), Some(500));
}

#[test]
fn test_shell_tool_call_structure() {
    let tool_call = make_tool_call("shell", r#"{"command": "echo hello"}"#);
    assert_eq!(tool_call.tool, "shell");
    assert_eq!(tool_call.args.get("command").unwrap().as_str(), Some("echo hello"));
}

#[test]
fn test_shell_missing_command() {
    let tool_call = make_tool_call("shell", "{}");
    assert!(tool_call.args.get("command").is_none());
}

#[test]
fn test_background_process_tool_call_structure() {
    let tool_call = make_tool_call(
        "background_process",
        r#"{"name": "test_server", "command": "python -m http.server 8000"}"#,
    );
    assert_eq!(tool_call.tool, "background_process");
    assert_eq!(tool_call.args.get("name").unwrap().as_str(), Some("test_server"));
    assert!(tool_call.args.get("command").is_some());
}

#[test]
fn test_background_process_with_working_dir() {
    let tool_call = make_tool_call(
        "background_process",
        r#"{"name": "test_server", "command": "python -m http.server", "working_dir": "/tmp"}"#,
    );
    assert_eq!(tool_call.args.get("working_dir").unwrap().as_str(), Some("/tmp"));
}

#[test]
fn test_todo_read_tool_call() {
    let tool_call = make_tool_call("todo_read", "{}");
    assert_eq!(tool_call.tool, "todo_read");
}

#[test]
fn test_todo_write_tool_call() {
    let tool_call = make_tool_call("todo_write", r#"{"content": "- [ ] Task 1\n- [x] Task 2\n"}"#);
    assert_eq!(tool_call.tool, "todo_write");
    assert!(tool_call.args.get("content").is_some());
}

#[test]
fn test_final_output_tool_call() {
    let tool_call = make_tool_call(
        "final_output",
        r#"{"summary": "Task completed successfully.\n\n## Changes Made\n- Added feature X"}"#,
    );
    assert_eq!(tool_call.tool, "final_output");
    assert!(tool_call.args.get("summary").is_some());
}

#[test]
fn test_code_search_tool_call_structure() {
    let tool_call = make_tool_call(
        "code_search",
        r#"{"searches": [{"name": "find_functions", "query": "(function_item name: (identifier) @name)", "language": "rust", "paths": ["src/"]}]}"#,
    );
    assert_eq!(tool_call.tool, "code_search");
    assert!(tool_call.args.get("searches").is_some());
    let searches = tool_call.args.get("searches").unwrap().as_array().unwrap();
    assert_eq!(searches.len(), 1);
    assert_eq!(searches[0].get("language").unwrap().as_str(), Some("rust"));
}

#[test]
fn test_code_search_multiple_searches() {
    let tool_call = make_tool_call(
        "code_search",
        r#"{"searches": [{"name": "functions", "query": "(function_item name: (identifier) @name)", "language": "rust"}, {"name": "structs", "query": "(struct_item name: (type_identifier) @name)", "language": "rust"}], "max_concurrency": 4}"#,
    );
    let searches = tool_call.args.get("searches").unwrap().as_array().unwrap();
    assert_eq!(searches.len(), 2);
}

#[test]
fn test_screenshot_tool_call_structure() {
    let tool_call = make_tool_call("take_screenshot", r#"{"path": "screenshot.png", "window_id": "Safari"}"#);
    assert_eq!(tool_call.tool, "take_screenshot");
    assert_eq!(tool_call.args.get("path").unwrap().as_str(), Some("screenshot.png"));
    assert_eq!(tool_call.args.get("window_id").unwrap().as_str(), Some("Safari"));
}

#[test]
fn json_values_keep_their_structure() {
    let v = JsonValue::parse(r#"{"b": [1, true, null], "a": "x"}"#).unwrap();
    assert_eq!(v.get("a").unwrap().as_str(), Some("x"));
    let items = v.get("b").unwrap().as_array().unwrap();
    assert_eq!(items.len(), 3);
    assert_eq!(items[1], JsonValue::Bool(true));
    assert_eq!(items[2], JsonValue::Null);
    assert!(JsonValue::parse("{not json").is_none());
    assert_eq!(v.deep_copy(), v);
    assert_eq!(v.to_json_string(), r#"{"a":"x","b":[1,true,null]}"#);
}
