//! Recovery of structured tool invocations from streamed model output.
pub mod json;
pub mod json_calls;
pub mod laws;
pub mod parser;
pub mod platform;
pub mod prompts;
pub mod text;
pub mod tool_call;
pub mod xml_calls;
