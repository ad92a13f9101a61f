//! The streaming extractor: it accumulates the text of one model message chunk
//! by chunk and hands out each tool call found in it.
use crate::json::{json_parse, parse_json};
use crate::json_calls::{
    bulk_json_calls, bulk_json_calls_in, first_json_opening, first_json_opening_in,
    json_call_of_text, json_object_end, last_json_opening, last_json_opening_in,
    object_end_from, opt_nat, text_json_calls, text_json_calls_in, tool_call_from_json,
};
use crate::text::{
    chars_concat, opt_int, slice_of, string_of, to_chars,
};
use crate::tool_call::{
    calls_model, opt_call_model, opt_seq, CallModel, CompletionChunk, ToolCall,
};
use crate::xml_calls::{
    first_xml_call_in, first_xml_call_start, text_xml_calls, text_xml_calls_in, xml_call_at,
};
use vstd::prelude::*;
use vstd::string::StringExecFns;

verus! {

/// The state of the extractor: the text seen so far, the position up to which calls
/// were handed off, whether the message has ended, and where a JSON call that is
/// still open started.
pub struct ParserModel {
    pub buffer: Seq<char>,
    pub consumed: nat,
    pub stopped: bool,
    pub candidate: Option<nat>,
}

/// The state of a new extractor.
pub open spec fn initial_model() -> ParserModel {
    ParserModel { buffer: Seq::empty(), consumed: 0, stopped: false, candidate: None }
}

/// The text after the consumed position.
pub open spec fn unconsumed(m: ParserModel) -> Seq<char> {
    m.buffer.subrange(m.consumed as int, m.buffer.len() as int)
}

/// The calls of a list whose names are not empty, in order.
pub open spec fn named_calls(calls: Seq<CallModel>) -> Seq<CallModel>
    decreases calls.len(),
{
    if calls.len() == 0 {
        Seq::empty()
    } else {
        named_calls(calls.drop_last()) + (if calls.last().tool.len() > 0 {
            seq![calls.last()]
        } else {
            Seq::empty()
        })
    }
}

/// The models of the native calls of a chunk.
pub open spec fn natives_model(calls: Option<Vec<ToolCall>>) -> Option<Seq<CallModel>> {
    match calls {
        Some(v) => Some(calls_model(v@)),
        None => None,
    }
}

/// The cursor moved up to `end`, unless it is already further.
pub open spec fn advance(consumed: nat, end: int) -> nat {
    if end > consumed {
        end as nat
    } else {
        consumed
    }
}

/// One step of the fallback search, after a chunk of text that is not the last: the
/// first XML call of the unconsumed text, which moves the consumed position just past
/// the start of its element; else the JSON call that is open, or that opens last in
/// the unconsumed text, once its object is complete, which moves the consumed
/// position past the object.
pub open spec fn fallback_step(m: ParserModel) -> (ParserModel, Seq<CallModel>) {
    let tail = unconsumed(m);
    match first_xml_call_start(tail) {
        Some(p) => (
            ParserModel { consumed: (m.consumed + p + 1) as nat, ..m },
            opt_seq(xml_call_at(tail, p)),
        ),
        None => {
            let start = match m.candidate {
                Some(st) => Some(st as int),
                None => match last_json_opening(tail) {
                    Some(a) => Some(m.consumed + a),
                    None => None,
                },
            };
            match start {
                Some(st) => match json_object_end(m.buffer.subrange(st, m.buffer.len() as int)) {
                    Some(e) => (
                        ParserModel {
                            candidate: None,
                            consumed: advance(m.consumed, st + e + 1),
                            ..m
                        },
                        opt_seq(json_call_of_text(m.buffer.subrange(st, st + e + 1))),
                    ),
                    None => (ParserModel { candidate: Some(st as nat), ..m }, Seq::empty()),
                },
                None => (m, Seq::empty()),
            }
        },
    }
}

/// What one chunk does: its text is appended; its native calls with a name are handed
/// out as they are; failing those, the last chunk has the whole text scanned, for XML
/// calls and, when there is none, for the JSON calls that do not overlap; any other
/// chunk with text takes one fallback step.
pub open spec fn chunk_step(
    m: ParserModel,
    content: Seq<char>,
    natives: Option<Seq<CallModel>>,
    finished: bool,
) -> (ParserModel, Seq<CallModel>) {
    let buffer = m.buffer + content;
    let grown = ParserModel { buffer, stopped: m.stopped || finished, ..m };
    let native = match natives {
        Some(n) => named_calls(n),
        None => Seq::empty(),
    };
    if native.len() > 0 {
        (grown, native)
    } else if finished {
        if buffer.len() == 0 {
            (grown, Seq::empty())
        } else if text_xml_calls(buffer).len() > 0 {
            (grown, text_xml_calls(buffer))
        } else {
            (grown, bulk_json_calls(buffer, 0))
        }
    } else if content.len() == 0 {
        (grown, Seq::empty())
    } else {
        fallback_step(grown)
    }
}

/// A JSON call opens last in the unconsumed text and its object is not complete.
pub open spec fn incomplete_call_pending(m: ParserModel) -> bool {
    let t = unconsumed(m);
    match last_json_opening(t) {
        Some(a) => json_object_end(t.subrange(a, t.len() as int)) is None,
        None => false,
    }
}

/// A JSON call opens last in the unconsumed text and its object is complete JSON.
pub open spec fn unexecuted_call_pending(m: ParserModel) -> bool {
    let t = unconsumed(m);
    match last_json_opening(t) {
        Some(a) => match json_object_end(t.subrange(a, t.len() as int)) {
            Some(e) => json_parse(t.subrange(a, a + e + 1)) is Some,
            None => false,
        },
        None => false,
    }
}

/// The extractor for one model message.
#[derive(Debug)]
pub struct StreamingToolParser {
    text_buffer: String,
    chars: Vec<char>,
    last_consumed_position: usize,
    message_stopped: bool,
    json_tool_start: Option<usize>,
}

impl Default for StreamingToolParser {
    fn default() -> (r: Self)
        ensures
            r@ == initial_model(),
    {
        Self::new()
    }
}

impl View for StreamingToolParser {
    type V = ParserModel;

    closed spec fn view(&self) -> ParserModel {
        ParserModel {
            buffer: self.chars@,
            consumed: self.last_consumed_position as nat,
            stopped: self.message_stopped,
            candidate: opt_nat(self.json_tool_start),
        }
    }
}

impl StreamingToolParser {
    #[verifier::type_invariant]
    closed spec fn well_formed(self) -> bool {
        &&& self.chars@ == self.text_buffer@
        &&& self.last_consumed_position <= self.chars.len()
        &&& self.json_tool_start matches Some(st) ==> st <= self.chars.len()
    }

    /// A new extractor, with no text.
    pub fn new() -> (r: Self)
        ensures
            r@ == initial_model(),
    {
        let r = StreamingToolParser {
            text_buffer: String::new(),
            chars: Vec::new(),
            last_consumed_position: 0,
            message_stopped: false,
            json_tool_start: None,
        };
        assert(r@.buffer =~= Seq::<char>::empty());
        r
    }

    /// Appends text to the buffer.
    fn append_text(&mut self, content: &String)
        ensures
            final(self)@ == (ParserModel { buffer: old(self)@.buffer + content@, ..old(self)@ }),
    {
        proof {
            use_type_invariant(&*self);
        }
        let added = to_chars(content.as_str());
        let mut text = self.text_buffer.clone();
        text.append(content.as_str());
        let chars = chars_concat(&self.chars, &added);
        *self = StreamingToolParser {
            text_buffer: text,
            chars,
            last_consumed_position: self.last_consumed_position,
            message_stopped: self.message_stopped,
            json_tool_start: self.json_tool_start,
        };
    }

    /// Process one chunk of the message and return the calls it completes.
    pub fn process_chunk(&mut self, chunk: &CompletionChunk) -> (r: Vec<ToolCall>)
        ensures
            (final(self)@, calls_model(r@)) == chunk_step(
                old(self)@,
                chunk.content@,
                natives_model(chunk.tool_calls),
                chunk.finished,
            ),
    {
        self.append_text(&chunk.content);
        proof {
            use_type_invariant(&*self);
        }
        if chunk.finished {
            self.message_stopped = true;
        }
        let native = match &chunk.tool_calls {
            Some(calls) => named_calls_of(calls),
            None => {
                assert(calls_model(Seq::<ToolCall>::empty()) =~= Seq::<CallModel>::empty());
                Vec::new()
            },
        };
        if native.len() > 0 {
            return native;
        }
        if chunk.finished {
            if self.chars.len() == 0 {
                return native;
            }
            let xml = text_xml_calls_in(&self.chars);
            if xml.len() > 0 {
                return xml;
            }
            return bulk_json_calls_in(&self.chars);
        }
        if chunk.content.as_str().is_empty() {
            return native;
        }
        let found = self.try_parse_json_tool_call();
        let mut out: Vec<ToolCall> = Vec::new();
        if let Some(c) = found {
            out.push(c);
        }
        assert(calls_model(out@) =~= opt_seq(opt_call_model(found)));
        out
    }

    /// Every XML call of a text, one opening after another: `<invoke name=`, then
    /// `<invoke>`, then `<tool name=`.
    pub fn try_parse_xml_tool_calls_from_text(&self, text: &str) -> (r: Vec<ToolCall>)
        ensures
            calls_model(r@) == text_xml_calls(text@),
    {
        text_xml_calls_in(&to_chars(text))
    }

    /// Every JSON call of a text that passes the checks, one opening spelling after
    /// another. The extractor is left as it was.
    pub fn try_parse_json_tool_calls_from_text(&mut self, text: &str) -> (r: Vec<ToolCall>)
        ensures
            calls_model(r@) == text_json_calls(text@),
            final(self)@ == old(self)@,
    {
        text_json_calls_in(&to_chars(text))
    }

    /// The text seen so far.
    pub fn get_text_content(&self) -> (r: &str)
        ensures
            r@ == self@.buffer,
    {
        proof {
            use_type_invariant(self);
        }
        self.text_buffer.as_str()
    }

    /// The first `pos` characters of the text, or all of it when it is shorter.
    pub fn get_content_before_position(&self, pos: usize) -> (r: String)
        ensures
            r@ == if pos <= self@.buffer.len() {
                self@.buffer.take(pos as int)
            } else {
                self@.buffer
            },
    {
        if pos <= self.chars.len() {
            string_of(&self.chars, 0, pos)
        } else {
            assert(self.chars@.subrange(0, self.chars@.len() as int) =~= self.chars@);
            string_of(&self.chars, 0, self.chars.len())
        }
    }

    /// Whether the last chunk of the message has been seen.
    pub fn is_message_stopped(&self) -> (r: bool)
        ensures
            r == self@.stopped,
    {
        self.message_stopped
    }

    /// Whether a JSON call opens last in the unconsumed text and is not complete.
    pub fn has_incomplete_tool_call(&self) -> (r: bool)
        ensures
            r == incomplete_call_pending(self@),
    {
        proof {
            use_type_invariant(self);
        }
        let tail = slice_of(&self.chars, self.last_consumed_position, self.chars.len());
        match last_json_opening_in(&tail) {
            Some(a) => object_end_from(&tail, a).is_none(),
            None => false,
        }
    }

    /// Whether a JSON call opens last in the unconsumed text and is complete JSON.
    pub fn has_unexecuted_tool_call(&self) -> (r: bool)
        ensures
            r == unexecuted_call_pending(self@),
    {
        proof {
            use_type_invariant(self);
        }
        let tail = slice_of(&self.chars, self.last_consumed_position, self.chars.len());
        match last_json_opening_in(&tail) {
            Some(a) => match object_end_from(&tail, a) {
                Some(e) => {
                    let span = string_of(&tail, a, a + e + 1);
                    parse_json(span.as_str()).is_some()
                },
                None => false,
            },
            None => false,
        }
    }

    /// Marks all the text seen so far as handed off.
    pub fn mark_tool_calls_consumed(&mut self)
        ensures
            final(self)@ == (ParserModel { consumed: old(self)@.buffer.len(), ..old(self)@ }),
    {
        proof {
            use_type_invariant(&*self);
        }
        self.last_consumed_position = self.chars.len();
    }

    /// The position of the brace that closes the first balanced object of `text`.
    pub fn find_complete_json_object_end(text: &str) -> (r: Option<usize>)
        ensures
            opt_nat(r) == json_object_end(text@),
    {
        let s = to_chars(text);
        assert(s@.subrange(0, s@.len() as int) =~= s@);
        object_end_from(&s, 0)
    }

    /// The first position where a JSON tool call opens in `text`.
    pub fn find_first_tool_call_start(text: &str) -> (r: Option<usize>)
        ensures
            opt_int(r) == first_json_opening(text@, 0),
    {
        first_json_opening_in(&to_chars(text), 0)
    }

    /// The last position where a JSON tool call opens in `text`.
    pub fn find_last_tool_call_start(text: &str) -> (r: Option<usize>)
        ensures
            opt_int(r) == last_json_opening(text@),
    {
        last_json_opening_in(&to_chars(text))
    }

    /// Forgets the message: the state of a new extractor.
    pub fn reset(&mut self)
        ensures
            final(self)@ == initial_model(),
    {
        *self = StreamingToolParser::new();
    }

    /// The number of characters seen so far.
    pub fn text_buffer_len(&self) -> (r: usize)
        ensures
            r == self@.buffer.len(),
    {
        self.chars.len()
    }

    /// The position up to which calls have been handed off.
    pub fn consumed_position(&self) -> (r: usize)
        ensures
            r == self@.consumed,
    {
        self.last_consumed_position
    }

    /// Whether a JSON call is open.
    pub fn is_in_json_tool_call(&self) -> (r: bool)
        ensures
            r == self@.candidate is Some,
    {
        self.json_tool_start.is_some()
    }

    /// Where the open JSON call starts.
    pub fn json_tool_start_position(&self) -> (r: Option<usize>)
        ensures
            opt_nat(r) == self@.candidate,
    {
        self.json_tool_start
    }

    /// One fallback step over the text seen so far.
    fn try_parse_json_tool_call(&mut self) -> (r: Option<ToolCall>)
        ensures
            (final(self)@, opt_seq(opt_call_model(r))) == fallback_step(old(self)@),
    {
        proof {
            use_type_invariant(&*self);
        }
        let tail = slice_of(&self.chars, self.last_consumed_position, self.chars.len());
        if let Some((p, call)) = first_xml_call_in(&tail) {
            self.last_consumed_position = self.last_consumed_position + p + 1;
            return Some(call);
        }
        if self.json_tool_start.is_none() {
            if let Some(a) = last_json_opening_in(&tail) {
                self.json_tool_start = Some(self.last_consumed_position + a);
            }
        }
        if let Some(start) = self.json_tool_start {
            if let Some(e) = object_end_from(&self.chars, start) {
                let end = start + e + 1;
                if end > self.last_consumed_position {
                    self.last_consumed_position = end;
                }
                self.json_tool_start = None;
                let span = string_of(&self.chars, start, end);
                return tool_call_from_json(span.as_str());
            }
        }
        None
    }
}

/// The calls of a list whose names are not empty, in order.
fn named_calls_of(calls: &Vec<ToolCall>) -> (r: Vec<ToolCall>)
    ensures
        calls_model(r@) == named_calls(calls_model(calls@)),
{
    let mut out: Vec<ToolCall> = Vec::new();
    let mut i: usize = 0;
    assert(calls_model(out@) =~= named_calls(calls_model(calls@.take(0))));
    while i < calls.len()
        invariant
            i <= calls.len(),
            calls_model(out@) == named_calls(calls_model(calls@.take(i as int))),
        decreases calls.len() - i,
    {
        let ghost before = calls_model(calls@.take(i as int));
        let ghost after = calls_model(calls@.take(i + 1));
        assert(after.drop_last() =~= before);
        assert(after.last() == calls[i as int]@);
        if !calls[i].tool.as_str().is_empty() {
            let c = calls[i].deep_copy();
            proof {
                crate::json_calls::lemma_calls_push(out@, c);
            }
            out.push(c);
        } else {
            assert(calls_model(out@) =~= calls_model(out@) + Seq::<CallModel>::empty());
        }
        i += 1;
    }
    assert(calls@.take(calls.len() as int) =~= calls@);
    out
}

} // verus!
