//! Tool invocations and the chunks of model output that carry them.
use crate::json::{JsonModel, JsonValue};
use vstd::prelude::*;

verus! {

/// One invocation of a named tool with JSON arguments.
#[derive(Debug, PartialEq)]
pub struct ToolCall {
    pub tool: String,
    pub args: JsonValue,
}

/// The mathematical value of a `ToolCall`.
pub struct CallModel {
    pub tool: Seq<char>,
    pub args: JsonModel,
}

impl View for ToolCall {
    type V = CallModel;

    open spec fn view(&self) -> CallModel {
        CallModel { tool: self.tool@, args: self.args@ }
    }
}

impl ToolCall {
    /// A copy of the call, equal to it.
    pub fn deep_copy(&self) -> (r: ToolCall)
        ensures
            r@ == self@,
    {
        ToolCall { tool: self.tool.clone(), args: self.args.deep_copy() }
    }
}

/// One increment of streamed model output.
#[derive(Debug)]
pub struct CompletionChunk {
    /// The text of this increment, possibly empty.
    pub content: String,
    /// Calls already decoded by a native tool-calling protocol.
    pub tool_calls: Option<Vec<ToolCall>>,
    /// Whether this is the last increment of the message.
    pub finished: bool,
}

/// The models of a sequence of calls.
pub open spec fn calls_model(calls: Seq<ToolCall>) -> Seq<CallModel> {
    calls.map_values(|c: ToolCall| c@)
}

/// An optional call read as a sequence of at most one call.
pub open spec fn opt_seq(c: Option<CallModel>) -> Seq<CallModel> {
    match c {
        Some(x) => seq![x],
        None => Seq::empty(),
    }
}

/// The model of an optional call.
pub open spec fn opt_call_model(c: Option<ToolCall>) -> Option<CallModel> {
    match c {
        Some(x) => Some(x@),
        None => None,
    }
}

} // verus!
