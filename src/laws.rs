//! Laws of the extractor, proved over the models that its functions state.
use crate::json_calls::{
    brace_state, bulk_json_calls, closes_object_at, json_call_of_text, json_object_end,
    json_opening, last_json_opening, opens_json_call, BraceState,
};
use crate::parser::{
    chunk_step, fallback_step, initial_model, named_calls, unconsumed, ParserModel,
};
use crate::text::{
    first_from, lemma_first_from_props, lemma_last_below_props, occurs_at,
};
use crate::tool_call::{opt_seq, CallModel};
use crate::xml_calls::{
    first_xml_call_start, lemma_first_xml_call, pattern_xml_calls, text_xml_calls, xml_call_at,
    xml_opening,
};
use vstd::prelude::*;

verus! {

/// No element of `t` opens an XML call when `t` has no `<`.
proof fn lemma_pattern_xml_needs_angle(t: Seq<char>, p: Seq<char>, i: int)
    requires
        p.len() > 0,
        p[0] == '<',
        forall|k: int| 0 <= k < t.len() ==> t[k] != '<',
    ensures
        pattern_xml_calls(t, p, i) == Seq::<CallModel>::empty(),
    decreases t.len() - i,
{
    if 0 <= i < t.len() {
        lemma_pattern_xml_needs_angle(t, p, i + 1);
        if occurs_at(t, i, p) {
            assert(t.subrange(i, i + p.len())[0] == t[i]);
        }
        assert(pattern_xml_calls(t, p, i) =~= Seq::<CallModel>::empty());
    }
}

/// A text without `<` holds no XML call.
pub proof fn lemma_no_xml_without_angle(t: Seq<char>)
    requires
        forall|k: int| 0 <= k < t.len() ==> t[k] != '<',
    ensures
        text_xml_calls(t) == Seq::<CallModel>::empty(),
{
    reveal_strlit("<invoke name=");
    reveal_strlit("<invoke>");
    reveal_strlit("<tool name=");
    lemma_pattern_xml_needs_angle(t, xml_opening(0), 0);
    lemma_pattern_xml_needs_angle(t, xml_opening(1), 0);
    lemma_pattern_xml_needs_angle(t, xml_opening(2), 0);
    assert(text_xml_calls(t) =~= Seq::<CallModel>::empty());
}

/// The boundary finder reads a prefix as it reads the whole.
proof fn lemma_prefix_brace_state(p: Seq<char>, s: Seq<char>, j: int)
    requires
        p.len() <= s.len(),
        p == s.take(p.len() as int),
        0 <= j <= p.len(),
    ensures
        brace_state(p, j) == brace_state(s, j),
    decreases j,
{
    if j > 0 {
        lemma_prefix_brace_state(p, s, j - 1);
        assert(p[j - 1] == s[j - 1]);
    }
}

/// What stands in a prefix stands in the whole.
proof fn lemma_prefix_opens(p: Seq<char>, s: Seq<char>, i: int)
    requires
        p.len() <= s.len(),
        p == s.take(p.len() as int),
        opens_json_call(p, i),
    ensures
        opens_json_call(s, i),
{
    assert forall|k: int| 0 <= k < 4 && occurs_at(p, i, #[trigger] json_opening(k)) implies occurs_at(
        s,
        i,
        json_opening(k),
    ) by {
        let n = json_opening(k).len();
        assert(p.subrange(i, i + n) =~= s.subrange(i, i + n));
    }
    assert(occurs_at(p, i, json_opening(0)) ==> occurs_at(s, i, json_opening(0)));
    assert(occurs_at(p, i, json_opening(1)) ==> occurs_at(s, i, json_opening(1)));
    assert(occurs_at(p, i, json_opening(2)) ==> occurs_at(s, i, json_opening(2)));
    assert(occurs_at(p, i, json_opening(3)) ==> occurs_at(s, i, json_opening(3)));
}

/// A message in which a JSON call can be read only once all of it is there: it has
/// no `<`, a call opens only at its start, and no brace before its last character
/// closes an object.
pub open spec fn completes_only_at_end(msg: Seq<char>) -> bool {
    &&& forall|k: int| 0 <= k < msg.len() ==> msg[k] != '<'
    &&& forall|i: int| opens_json_call(msg, i) ==> i == 0
    &&& forall|j: int| 0 <= j < msg.len() - 1 ==> !closes_object_at(msg, j)
}

/// The states that a message of that kind passes through while it is incomplete.
pub open spec fn partial_state(msg: Seq<char>, m: ParserModel) -> bool {
    &&& m.buffer.len() < msg.len()
    &&& m.buffer == msg.take(m.buffer.len() as int)
    &&& m.consumed == 0
    &&& !m.stopped
    &&& (m.candidate is None || m.candidate == Some(0nat))
}

/// A chunk that leaves the message incomplete yields nothing.
proof fn lemma_partial_chunk(msg: Seq<char>, m: ParserModel, c: Seq<char>)
    requires
        completes_only_at_end(msg),
        partial_state(msg, m),
        m.buffer.len() + c.len() < msg.len(),
        m.buffer + c == msg.take((m.buffer.len() + c.len()) as int),
    ensures
        chunk_step(m, c, None, false).1 == Seq::<CallModel>::empty(),
        partial_state(msg, chunk_step(m, c, None, false).0),
        chunk_step(m, c, None, false).0.buffer == m.buffer + c,
{
    let b = m.buffer + c;
    let grown = ParserModel { buffer: b, stopped: m.stopped || false, ..m };
    assert forall|k: int| 0 <= k < b.len() implies b[k] != '<' by {
        assert(b[k] == msg.take(b.len() as int)[k]);
    }
    assert(unconsumed(grown) =~= b);
    lemma_no_xml_without_angle(b);
    lemma_first_xml_call(b);
    lemma_last_below_props(b.len() as int, |i: int| opens_json_call(b, i));
    if let Some(a) = last_json_opening(b) {
        lemma_prefix_opens(b, msg, a);
    }
    assert(b.subrange(0, b.len() as int) =~= b);
    lemma_first_from_props(b.len() as int, 0, |i: int| closes_object_at(b, i));
    if let Some(j) = first_from(b.len() as int, 0, |i: int| closes_object_at(b, i)) {
        lemma_prefix_brace_state(b, msg, j);
        assert(b[j] == msg[j]);
        assert(closes_object_at(msg, j));
    }
    assert(json_object_end(b) is None);
}

/// Delivered in four chunks of which only the last is marked finished and holds
/// text, a message in which a JSON call can be read only once all of it is there
/// yields nothing before the last chunk, and then just what the whole message
/// yields when it comes as one finished chunk.
pub proof fn lemma_chunked_delivery(
    msg: Seq<char>,
    c1: Seq<char>,
    c2: Seq<char>,
    c3: Seq<char>,
    c4: Seq<char>,
)
    requires
        completes_only_at_end(msg),
        c1 + c2 + c3 + c4 == msg,
        c4.len() > 0,
    ensures
        ({
            let (m1, o1) = chunk_step(initial_model(), c1, None, false);
            let (m2, o2) = chunk_step(m1, c2, None, false);
            let (m3, o3) = chunk_step(m2, c3, None, false);
            let (m4, o4) = chunk_step(m3, c4, None, true);
            let whole = chunk_step(initial_model(), msg, None, true).1;
            &&& o1 + o2 + o3 + o4 == whole
            &&& o1.len() == 0 && o2.len() == 0 && o3.len() == 0
            &&& whole == bulk_json_calls(msg, 0)
        }),
{
    let m0 = initial_model();
    assert(m0.buffer + c1 =~= msg.take(c1.len() as int));
    assert(m0.buffer.len() == 0);
    assert(m0.buffer =~= msg.take(0));
    lemma_partial_chunk(msg, m0, c1);
    let m1 = chunk_step(m0, c1, None, false).0;
    assert(m1.buffer + c2 =~= msg.take((c1.len() + c2.len()) as int));
    lemma_partial_chunk(msg, m1, c2);
    let m2 = chunk_step(m1, c2, None, false).0;
    assert(m2.buffer + c3 =~= msg.take((c1.len() + c2.len() + c3.len()) as int));
    lemma_partial_chunk(msg, m2, c3);
    let m3 = chunk_step(m2, c3, None, false).0;
    assert(m3.buffer + c4 =~= msg);
    assert(m0.buffer + msg =~= msg);
    lemma_no_xml_without_angle(msg);
    let o4 = chunk_step(m3, c4, None, true).1;
    assert(o4 == bulk_json_calls(msg, 0));
    assert(Seq::<CallModel>::empty() + Seq::<CallModel>::empty() + Seq::<CallModel>::empty() + o4 =~= o4);
}

/// The message of one JSON call of the shell tool, with the `k`-th spelling of the
/// opening.
pub open spec fn shell_message(k: int) -> Seq<char> {
    if k == 0 {
        seq!['{', '"', 't', 'o', 'o', 'l', '"', ':', '"', 's', 'h', 'e', 'l', 'l', '"', ',', '"', 'a', 'r', 'g', 's', '"', ':', '{', '"', 'c', 'o', 'm', 'm', 'a', 'n', 'd', '"', ':', '"', 'l', 's', ' ', '-', 'l', 'a', '"', '}', '}']
    } else if k == 1 {
        seq!['{', ' ', '"', 't', 'o', 'o', 'l', '"', ':', '"', 's', 'h', 'e', 'l', 'l', '"', ',', '"', 'a', 'r', 'g', 's', '"', ':', '{', '"', 'c', 'o', 'm', 'm', 'a', 'n', 'd', '"', ':', '"', 'l', 's', ' ', '-', 'l', 'a', '"', '}', '}']
    } else if k == 2 {
        seq!['{', '"', 't', 'o', 'o', 'l', '"', ' ', ':', '"', 's', 'h', 'e', 'l', 'l', '"', ',', '"', 'a', 'r', 'g', 's', '"', ':', '{', '"', 'c', 'o', 'm', 'm', 'a', 'n', 'd', '"', ':', '"', 'l', 's', ' ', '-', 'l', 'a', '"', '}', '}']
    } else {
        seq!['{', ' ', '"', 't', 'o', 'o', 'l', '"', ' ', ':', '"', 's', 'h', 'e', 'l', 'l', '"', ',', '"', 'a', 'r', 'g', 's', '"', ':', '{', '"', 'c', 'o', 'm', 'm', 'a', 'n', 'd', '"', ':', '"', 'l', 's', ' ', '-', 'l', 'a', '"', '}', '}']
    }
}

/// The shell message with the first spelling of the opening can be read only once all
/// of it is there, and it spells at most one call.
proof fn lemma_shell_message_0()
    ensures
        completes_only_at_end(shell_message(0)),
        bulk_json_calls(shell_message(0), 0) == opt_seq(json_call_of_text(shell_message(0))),
{
    reveal_strlit("{\"tool\":");
    reveal_strlit("{ \"tool\":");
    reveal_strlit("{\"tool\" :");
    reveal_strlit("{ \"tool\" :");
    let msg = shell_message(0);
    assert(msg.len() == 44);
    assert forall|k: int| 0 <= k < msg.len() implies msg[k] != '<' by {}
    assert forall|i: int| opens_json_call(msg, i) implies i == 0 by {
        assert forall|k: int| 0 <= k < 4 && occurs_at(msg, i, #[trigger] json_opening(k)) implies i == 0 by {
            let n = json_opening(k).len();
            assert(msg.subrange(i, i + n)[0] == msg[i]);
            assert(msg.subrange(i, i + n)[1] == msg[i + 1]);
            assert(msg.subrange(i, i + n)[2] == msg[i + 2]);
        }
        assert(occurs_at(msg, i, json_opening(0)) || occurs_at(msg, i, json_opening(1))
            || occurs_at(msg, i, json_opening(2)) || occurs_at(msg, i, json_opening(3)));
    }
    reveal_with_fuel(brace_state, 45);
    assert(brace_state(msg, 43) == BraceState { depth: 1, in_string: false, escaped: false, opened: true });
    assert(brace_state(msg, 42) == BraceState { depth: 2, in_string: false, escaped: false, opened: true });
    assert forall|j: int| 0 <= j < msg.len() - 1 implies !closes_object_at(msg, j) by {
        if msg[j] == '}' {
            assert(j == 42);
        }
    }
    assert(closes_object_at(msg, 43));
    assert(opens_json_call(msg, 0)) by {
        assert(msg.subrange(0, 8) =~= json_opening(0));
    }
    assert(msg.subrange(0, 44) =~= msg);
    lemma_first_from_props(44, 0, |i: int| closes_object_at(msg, i));
    assert(json_object_end(msg) == Some(43nat)) by {
        crate::text::lemma_first_from_skip(44, 0, 43, |i: int| closes_object_at(msg, i));
    }
    assert(bulk_json_calls(msg, 44) == Seq::<CallModel>::empty());
    assert(bulk_json_calls(msg, 0) =~= opt_seq(json_call_of_text(msg)));
}

/// The shell message with the second spelling of the opening can be read only once all
/// of it is there, and it spells at most one call.
proof fn lemma_shell_message_1()
    ensures
        completes_only_at_end(shell_message(1)),
        bulk_json_calls(shell_message(1), 0) == opt_seq(json_call_of_text(shell_message(1))),
{
    reveal_strlit("{\"tool\":");
    reveal_strlit("{ \"tool\":");
    reveal_strlit("{\"tool\" :");
    reveal_strlit("{ \"tool\" :");
    let msg = shell_message(1);
    assert(msg.len() == 45);
    assert forall|k: int| 0 <= k < msg.len() implies msg[k] != '<' by {}
    assert forall|i: int| opens_json_call(msg, i) implies i == 0 by {
        assert forall|k: int| 0 <= k < 4 && occurs_at(msg, i, #[trigger] json_opening(k)) implies i == 0 by {
            let n = json_opening(k).len();
            assert(msg.subrange(i, i + n)[0] == msg[i]);
            assert(msg.subrange(i, i + n)[1] == msg[i + 1]);
            assert(msg.subrange(i, i + n)[2] == msg[i + 2]);
        }
        assert(occurs_at(msg, i, json_opening(0)) || occurs_at(msg, i, json_opening(1))
            || occurs_at(msg, i, json_opening(2)) || occurs_at(msg, i, json_opening(3)));
    }
    reveal_with_fuel(brace_state, 46);
    assert(brace_state(msg, 44) == BraceState { depth: 1, in_string: false, escaped: false, opened: true });
    assert(brace_state(msg, 43) == BraceState { depth: 2, in_string: false, escaped: false, opened: true });
    assert forall|j: int| 0 <= j < msg.len() - 1 implies !closes_object_at(msg, j) by {
        if msg[j] == '}' {
            assert(j == 43);
        }
    }
    assert(closes_object_at(msg, 44));
    assert(opens_json_call(msg, 0)) by {
        assert(msg.subrange(0, 9) =~= json_opening(1));
    }
    assert(msg.subrange(0, 45) =~= msg);
    lemma_first_from_props(45, 0, |i: int| closes_object_at(msg, i));
    assert(json_object_end(msg) == Some(44nat)) by {
        crate::text::lemma_first_from_skip(45, 0, 44, |i: int| closes_object_at(msg, i));
    }
    assert(bulk_json_calls(msg, 45) == Seq::<CallModel>::empty());
    assert(bulk_json_calls(msg, 0) =~= opt_seq(json_call_of_text(msg)));
}

/// The shell message with the third spelling of the opening can be read only once all
/// of it is there, and it spells at most one call.
proof fn lemma_shell_message_2()
    ensures
        completes_only_at_end(shell_message(2)),
        bulk_json_calls(shell_message(2), 0) == opt_seq(json_call_of_text(shell_message(2))),
{
    reveal_strlit("{\"tool\":");
    reveal_strlit("{ \"tool\":");
    reveal_strlit("{\"tool\" :");
    reveal_strlit("{ \"tool\" :");
    let msg = shell_message(2);
    assert(msg.len() == 45);
    assert forall|k: int| 0 <= k < msg.len() implies msg[k] != '<' by {}
    assert forall|i: int| opens_json_call(msg, i) implies i == 0 by {
        assert forall|k: int| 0 <= k < 4 && occurs_at(msg, i, #[trigger] json_opening(k)) implies i == 0 by {
            let n = json_opening(k).len();
            assert(msg.subrange(i, i + n)[0] == msg[i]);
            assert(msg.subrange(i, i + n)[1] == msg[i + 1]);
            assert(msg.subrange(i, i + n)[2] == msg[i + 2]);
        }
        assert(occurs_at(msg, i, json_opening(0)) || occurs_at(msg, i, json_opening(1))
            || occurs_at(msg, i, json_opening(2)) || occurs_at(msg, i, json_opening(3)));
    }
    reveal_with_fuel(brace_state, 46);
    assert(brace_state(msg, 44) == BraceState { depth: 1, in_string: false, escaped: false, opened: true });
    assert(brace_state(msg, 43) == BraceState { depth: 2, in_string: false, escaped: false, opened: true });
    assert forall|j: int| 0 <= j < msg.len() - 1 implies !closes_object_at(msg, j) by {
        if msg[j] == '}' {
            assert(j == 43);
        }
    }
    assert(closes_object_at(msg, 44));
    assert(opens_json_call(msg, 0)) by {
        assert(msg.subrange(0, 9) =~= json_opening(2));
    }
    assert(msg.subrange(0, 45) =~= msg);
    lemma_first_from_props(45, 0, |i: int| closes_object_at(msg, i));
    assert(json_object_end(msg) == Some(44nat)) by {
        crate::text::lemma_first_from_skip(45, 0, 44, |i: int| closes_object_at(msg, i));
    }
    assert(bulk_json_calls(msg, 45) == Seq::<CallModel>::empty());
    assert(bulk_json_calls(msg, 0) =~= opt_seq(json_call_of_text(msg)));
}

/// The shell message with the fourth spelling of the opening can be read only once all
/// of it is there, and it spells at most one call.
proof fn lemma_shell_message_3()
    ensures
        completes_only_at_end(shell_message(3)),
        bulk_json_calls(shell_message(3), 0) == opt_seq(json_call_of_text(shell_message(3))),
{
    reveal_strlit("{\"tool\":");
    reveal_strlit("{ \"tool\":");
    reveal_strlit("{\"tool\" :");
    reveal_strlit("{ \"tool\" :");
    let msg = shell_message(3);
    assert(msg.len() == 46);
    assert forall|k: int| 0 <= k < msg.len() implies msg[k] != '<' by {}
    assert forall|i: int| opens_json_call(msg, i) implies i == 0 by {
        assert forall|k: int| 0 <= k < 4 && occurs_at(msg, i, #[trigger] json_opening(k)) implies i == 0 by {
            let n = json_opening(k).len();
            assert(msg.subrange(i, i + n)[0] == msg[i]);
            assert(msg.subrange(i, i + n)[1] == msg[i + 1]);
            assert(msg.subrange(i, i + n)[2] == msg[i + 2]);
        }
        assert(occurs_at(msg, i, json_opening(0)) || occurs_at(msg, i, json_opening(1))
            || occurs_at(msg, i, json_opening(2)) || occurs_at(msg, i, json_opening(3)));
    }
    reveal_with_fuel(brace_state, 47);
    assert(brace_state(msg, 45) == BraceState { depth: 1, in_string: false, escaped: false, opened: true });
    assert(brace_state(msg, 44) == BraceState { depth: 2, in_string: false, escaped: false, opened: true });
    assert forall|j: int| 0 <= j < msg.len() - 1 implies !closes_object_at(msg, j) by {
        if msg[j] == '}' {
            assert(j == 44);
        }
    }
    assert(closes_object_at(msg, 45));
    assert(opens_json_call(msg, 0)) by {
        assert(msg.subrange(0, 10) =~= json_opening(3));
    }
    assert(msg.subrange(0, 46) =~= msg);
    lemma_first_from_props(46, 0, |i: int| closes_object_at(msg, i));
    assert(json_object_end(msg) == Some(45nat)) by {
        crate::text::lemma_first_from_skip(46, 0, 45, |i: int| closes_object_at(msg, i));
    }
    assert(bulk_json_calls(msg, 46) == Seq::<CallModel>::empty());
    assert(bulk_json_calls(msg, 0) =~= opt_seq(json_call_of_text(msg)));
}

/// The shell message can be read only once all of it is there, and it spells at most
/// one call.
pub proof fn lemma_shell_message_completes_at_end(k: int)
    requires
        0 <= k < 4,
    ensures
        completes_only_at_end(shell_message(k)),
        bulk_json_calls(shell_message(k), 0) == opt_seq(json_call_of_text(shell_message(k))),
{
    if k == 0 {
        lemma_shell_message_0();
    } else if k == 1 {
        lemma_shell_message_1();
    } else if k == 2 {
        lemma_shell_message_2();
    } else {
        lemma_shell_message_3();
    }
}

/// Split anywhere into four chunks, with only the last marked finished and holding
/// text, the shell message with any spelling of the opening yields no call before its last chunk and then exactly the
/// call it spells, once: the same as when it comes whole.
pub proof fn lemma_split_shell_message(
    k: int,
    c1: Seq<char>,
    c2: Seq<char>,
    c3: Seq<char>,
    c4: Seq<char>,
)
    requires
        0 <= k < 4,
        c1 + c2 + c3 + c4 == shell_message(k),
        c4.len() > 0,
    ensures
        ({
            let (m1, o1) = chunk_step(initial_model(), c1, None, false);
            let (m2, o2) = chunk_step(m1, c2, None, false);
            let (m3, o3) = chunk_step(m2, c3, None, false);
            let (m4, o4) = chunk_step(m3, c4, None, true);
            let whole = chunk_step(initial_model(), shell_message(k), None, true).1;
            &&& o1 + o2 + o3 + o4 == whole
            &&& o1.len() == 0 && o2.len() == 0 && o3.len() == 0
            &&& whole == opt_seq(json_call_of_text(shell_message(k)))
        }),
{
    lemma_shell_message_completes_at_end(k);
    lemma_chunked_delivery(shell_message(k), c1, c2, c3, c4);
}

/// At the end of a message without native calls, the whole text is scanned: it
/// yields its XML calls when it holds any, and otherwise its JSON calls.
pub proof fn lemma_end_of_stream_prefers_xml(m: ParserModel, content: Seq<char>)
    requires
        (m.buffer + content).len() > 0,
    ensures
        ({
            let text = m.buffer + content;
            chunk_step(m, content, None, true).1 == if text_xml_calls(text).len() > 0 {
                text_xml_calls(text)
            } else {
                bulk_json_calls(text, 0)
            }
        }),
{
}

/// A chunk without text, without native calls and not the last changes nothing and
/// yields nothing.
pub proof fn lemma_empty_chunk_is_inert(m: ParserModel)
    ensures
        chunk_step(m, Seq::empty(), None, false) == (m, Seq::<CallModel>::empty()),
{
    assert(m.buffer + Seq::<char>::empty() =~= m.buffer);
}

/// One chunk as the extractor reads it: text, native calls, whether it is the last.
pub struct ChunkModel {
    pub content: Seq<char>,
    pub natives: Option<Seq<CallModel>>,
    pub finished: bool,
}

/// What a caller does to an extractor: hand it a chunk, or reset it.
pub enum Event {
    Chunk(ChunkModel),
    Reset,
}

/// The state after an event, and what it yielded.
pub open spec fn apply_event(m: ParserModel, e: Event) -> (ParserModel, Seq<CallModel>) {
    match e {
        Event::Chunk(c) => chunk_step(m, c.content, c.natives, c.finished),
        Event::Reset => (initial_model(), Seq::empty()),
    }
}

/// The state after a sequence of events, and what each of them yielded.
pub open spec fn run_events(m: ParserModel, es: Seq<Event>) -> (ParserModel, Seq<Seq<CallModel>>)
    decreases es.len(),
{
    if es.len() == 0 {
        (m, Seq::empty())
    } else {
        let (next, out) = apply_event(m, es[0]);
        let (last, outs) = run_events(next, es.drop_first());
        (last, seq![out] + outs)
    }
}

/// Running two sequences of events one after the other.
pub proof fn lemma_run_events_append(m: ParserModel, a: Seq<Event>, b: Seq<Event>)
    ensures
        ({
            let (mid, first) = run_events(m, a);
            let (last, second) = run_events(mid, b);
            run_events(m, a + b) == (last, first + second)
        }),
    decreases a.len(),
{
    if a.len() == 0 {
        assert(a + b =~= b);
        assert(Seq::<Seq<CallModel>>::empty() + run_events(m, b).1 =~= run_events(m, b).1);
    } else {
        let next = apply_event(m, a[0]).0;
        assert((a + b)[0] == a[0]);
        assert((a + b).drop_first() =~= a.drop_first() + b);
        lemma_run_events_append(next, a.drop_first(), b);
        let (mid, first) = run_events(next, a.drop_first());
        let second = run_events(mid, b).1;
        assert(seq![apply_event(m, a[0]).1] + (first + second) =~= (seq![apply_event(m, a[0]).1] + first) + second);
    }
}

/// A reset brings back the state of a new extractor, whatever came before: a
/// sequence of events replayed after a reset yields what it yielded the first time.
pub proof fn lemma_reset_replays(es: Seq<Event>)
    ensures
        ({
            let once = run_events(initial_model(), es).1;
            run_events(initial_model(), es + seq![Event::Reset] + es).1 == once + seq![
                Seq::<CallModel>::empty(),
            ] + once
        }),
{
    let (mid, once) = run_events(initial_model(), es);
    lemma_run_events_append(initial_model(), es, seq![Event::Reset] + es);
    let r = seq![Event::Reset] + es;
    assert(r[0] == Event::Reset);
    assert(r.drop_first() =~= es);
    assert(es + seq![Event::Reset] + es =~= es + r);
    assert(once + (seq![Seq::<CallModel>::empty()] + once) =~= once + seq![Seq::<CallModel>::empty()] + once);
}

/// Every call of a sequence has a name.
pub open spec fn all_named(calls: Seq<CallModel>) -> bool {
    forall|i: int| 0 <= i < calls.len() ==> (#[trigger] calls[i]).tool.len() > 0
}

/// Every call of a sequence has arguments that form an object.
pub open spec fn all_object_args(calls: Seq<CallModel>) -> bool {
    forall|i: int| 0 <= i < calls.len() ==> (#[trigger] calls[i]).args is Object
}

/// Every call of a sequence has a name and object arguments.
pub open spec fn all_well_formed(calls: Seq<CallModel>) -> bool {
    all_named(calls) && all_object_args(calls)
}

proof fn lemma_all_named_concat(a: Seq<CallModel>, b: Seq<CallModel>)
    requires
        all_named(a),
        all_named(b),
    ensures
        all_named(a + b),
{
    assert forall|i: int| 0 <= i < (a + b).len() implies (#[trigger] (a + b)[i]).tool.len() > 0 by {
        if i >= a.len() {
            assert((a + b)[i] == b[i - a.len()]);
        }
    }
}

proof fn lemma_well_formed_concat(a: Seq<CallModel>, b: Seq<CallModel>)
    requires
        all_well_formed(a),
        all_well_formed(b),
    ensures
        all_well_formed(a + b),
{
    lemma_all_named_concat(a, b);
    assert forall|i: int| 0 <= i < (a + b).len() implies (#[trigger] (a + b)[i]).args is Object by {
        if i >= a.len() {
            assert((a + b)[i] == b[i - a.len()]);
        }
    }
}

proof fn lemma_named_calls_named(calls: Seq<CallModel>)
    ensures
        all_named(named_calls(calls)),
    decreases calls.len(),
{
    if calls.len() > 0 {
        lemma_named_calls_named(calls.drop_last());
        let last = if calls.last().tool.len() > 0 {
            seq![calls.last()]
        } else {
            Seq::<CallModel>::empty()
        };
        lemma_all_named_concat(named_calls(calls.drop_last()), last);
    }
}

/// The call of an element, when there is one, has a name and object arguments.
proof fn lemma_xml_call_well_formed(t: Seq<char>, i: int)
    ensures
        all_well_formed(opt_seq(xml_call_at(t, i))),
{
}

proof fn lemma_pattern_xml_well_formed(t: Seq<char>, p: Seq<char>, i: int)
    ensures
        all_well_formed(pattern_xml_calls(t, p, i)),
    decreases t.len() - i,
{
    if 0 <= i < t.len() {
        lemma_pattern_xml_well_formed(t, p, i + 1);
        lemma_xml_call_well_formed(t, i);
        let step = if occurs_at(t, i, p) {
            opt_seq(xml_call_at(t, i))
        } else {
            Seq::<CallModel>::empty()
        };
        lemma_well_formed_concat(step, pattern_xml_calls(t, p, i + 1));
    }
}

/// Every XML call of a text has a name and object arguments.
pub proof fn lemma_xml_calls_well_formed(t: Seq<char>)
    ensures
        all_well_formed(text_xml_calls(t)),
{
    lemma_pattern_xml_well_formed(t, xml_opening(0), 0);
    lemma_pattern_xml_well_formed(t, xml_opening(1), 0);
    lemma_pattern_xml_well_formed(t, xml_opening(2), 0);
    lemma_well_formed_concat(pattern_xml_calls(t, xml_opening(0), 0), pattern_xml_calls(t, xml_opening(1), 0));
    lemma_well_formed_concat(
        pattern_xml_calls(t, xml_opening(0), 0) + pattern_xml_calls(t, xml_opening(1), 0),
        pattern_xml_calls(t, xml_opening(2), 0),
    );
}

/// Every JSON call of the bulk scan has a name and object arguments.
pub proof fn lemma_bulk_json_well_formed(t: Seq<char>, i: int)
    ensures
        all_well_formed(bulk_json_calls(t, i)),
    decreases t.len() - i,
{
    if 0 <= i < t.len() {
        if !opens_json_call(t, i) {
            lemma_bulk_json_well_formed(t, i + 1);
        } else if let Some(e) = json_object_end(t.subrange(i, t.len() as int)) {
            if i + e < t.len() {
                lemma_bulk_json_well_formed(t, i + e + 1);
                lemma_well_formed_concat(
                    opt_seq(json_call_of_text(t.subrange(i, i + e + 1))),
                    bulk_json_calls(t, i + e + 1),
                );
            }
        }
    }
}

/// Every call that a chunk yields has a name that is not empty; every call found in
/// the text, that is every call of a chunk without native calls, has arguments that
/// form an object.
pub proof fn lemma_yielded_calls_are_named(
    m: ParserModel,
    content: Seq<char>,
    natives: Option<Seq<CallModel>>,
    finished: bool,
)
    ensures
        all_named(chunk_step(m, content, natives, finished).1),
        natives is None ==> all_object_args(chunk_step(m, content, natives, finished).1),
{
    let buffer = m.buffer + content;
    if let Some(n) = natives {
        lemma_named_calls_named(n);
    }
    lemma_xml_calls_well_formed(buffer);
    lemma_bulk_json_well_formed(buffer, 0);
    let grown = ParserModel { buffer, stopped: m.stopped || finished, ..m };
    let tail = unconsumed(grown);
    if let Some(p) = first_xml_call_start(tail) {
        lemma_xml_call_well_formed(tail, p);
    }
    let st = match grown.candidate {
        Some(st) => st as int,
        None => match last_json_opening(tail) {
            Some(a) => grown.consumed + a,
            None => 0,
        },
    };
    if let Some(e) = json_object_end(buffer.subrange(st, buffer.len() as int)) {
        lemma_well_formed_concat(
            opt_seq(json_call_of_text(buffer.subrange(st, st + e + 1))),
            Seq::empty(),
        );
    }
}

/// When the unconsumed text holds an XML call, a fallback step hands out the first
/// one that a scan of that text finds, and moves the consumed position forward, past
/// the start of its element and no further than the end of the text, so that the
/// call is not handed out again.
pub proof fn lemma_fallback_consumes_xml_call(m: ParserModel)
    requires
        m.consumed <= m.buffer.len(),
        text_xml_calls(unconsumed(m)).len() > 0,
    ensures
        fallback_step(m).1 == seq![text_xml_calls(unconsumed(m))[0]],
        m.consumed < fallback_step(m).0.consumed <= m.buffer.len(),
        fallback_step(m).0.buffer == m.buffer,
{
    lemma_first_xml_call(unconsumed(m));
}

/// A chunk never moves the consumed position back, nor past the end of the text.
pub proof fn lemma_cursor_moves_forward(
    m: ParserModel,
    content: Seq<char>,
    natives: Option<Seq<CallModel>>,
    finished: bool,
)
    requires
        m.consumed <= m.buffer.len(),
        m.candidate matches Some(st) ==> st <= m.buffer.len(),
    ensures
        m.consumed <= chunk_step(m, content, natives, finished).0.consumed,
        chunk_step(m, content, natives, finished).0.consumed <= chunk_step(
            m,
            content,
            natives,
            finished,
        ).0.buffer.len(),
        chunk_step(m, content, natives, finished).0.buffer == m.buffer + content,
{
    let buffer = m.buffer + content;
    let grown = ParserModel { buffer, stopped: m.stopped || finished, ..m };
    let tail = unconsumed(grown);
    lemma_first_xml_call(tail);
    lemma_last_below_props(tail.len() as int, |i: int| opens_json_call(tail, i));
    let st = match grown.candidate {
        Some(st) => st as int,
        None => match last_json_opening(tail) {
            Some(a) => grown.consumed + a,
            None => 0,
        },
    };
    let rest = buffer.subrange(st, buffer.len() as int);
    lemma_first_from_props(rest.len() as int, 0, |i: int| closes_object_at(rest, i));
}

} // verus!
