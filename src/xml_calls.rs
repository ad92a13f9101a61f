//! Tool calls written as XML-like elements: `<invoke name="...">`, a bare
//! `<invoke>`, or `<tool name="...">`, each read up to its closing tag.
use crate::json::{json_parse, parse_json, JsonModel, JsonValue};
use crate::text::{
    collapse_newlines, contains, find_in, find_from, first_from, halve_double_spaces, is_white,
    is_white_char, lemma_first_from_props, lemma_first_from_skip, matches_at, newlines_to_spaces,
    occurs_at, slice_of, string_of, to_chars, trim, trim_chars,
};
use crate::json_calls::{lemma_calls_push, opt_nat};
use crate::tool_call::{calls_model, opt_call_model, opt_seq, CallModel, ToolCall};
use vstd::prelude::*;

verus! {

/// The three openings of an XML tool call.
pub open spec fn xml_opening(k: int) -> Seq<char> {
    if k == 0 {
        "<invoke name="@
    } else if k == 1 {
        "<invoke>"@
    } else {
        "<tool name="@
    }
}

/// The name of a tag: its text up to the first whitespace or `>`.
pub open spec fn tag_name(t: Seq<char>) -> Seq<char> {
    match first_from(t.len() as int, 0, |i: int| is_white(t[i]) || t[i] == '>') {
        Some(k) => t.take(k),
        None => t,
    }
}

/// The closing tag of an element with the given name.
pub open spec fn closing_tag(name: Seq<char>) -> Seq<char> {
    "</"@ + name + ">"@
}

/// The position just past the closing tag of the first element of `x`: the first
/// `</name>` anywhere in `x`, where `name` is the name of the first tag.
pub open spec fn xml_element_end(x: Seq<char>) -> Option<nat> {
    match find_from(x, seq!['<'], 0) {
        Some(a) => match find_from(x, seq!['>'], a + 1) {
            Some(b) => {
                let name = tag_name(x.subrange(a + 1, b));
                if name.len() > 0 && name[0] == '/' {
                    None
                } else {
                    match find_from(x, closing_tag(name), 0) {
                        Some(c) => Some((c + closing_tag(name).len()) as nat),
                        None => None,
                    }
                }
            },
            None => None,
        },
        None => None,
    }
}

/// The object `{"command": t}`.
pub open spec fn command_object(t: Seq<char>) -> JsonModel {
    JsonModel::Object(seq![("command"@, JsonModel::String(t))])
}

/// The empty object.
pub open spec fn empty_object() -> JsonModel {
    JsonModel::Object(Seq::empty())
}

/// The arguments that the text of an element stands for: the text trimmed, with
/// newlines turned into spaces and pairs of spaces halved, read as a JSON object; or,
/// when it is no JSON object, the object `{"command": ...}` with that text trimmed
/// once more.
pub open spec fn content_value(c: Seq<char>) -> JsonModel {
    let cleaned = halve_double_spaces(newlines_to_spaces(trim(c)));
    match json_parse(cleaned) {
        Some(v) => if v is Object {
            v
        } else {
            command_object(trim(cleaned))
        },
        None => command_object(trim(cleaned)),
    }
}

/// The opening of the parameter that holds the arguments.
pub open spec fn args_parameter() -> Seq<char> {
    "<parameter name=\"args\">"@
}

/// The arguments of an element: the content of its `args` parameter, or else the text
/// between the first `>` and the next `</`; the empty object when that is not closed.
pub open spec fn xml_args(x: Seq<char>) -> JsonModel {
    let open = args_parameter();
    match find_from(x, open, 0) {
        Some(a) => match find_from(x, "</parameter>"@, a + open.len()) {
            Some(b) => content_value(x.subrange(a + open.len(), b)),
            None => empty_object(),
        },
        None => match find_from(x, seq!['>'], 0) {
            Some(g) => match find_from(x, "</"@, g + 1) {
                Some(b) => content_value(x.subrange(g + 1, b)),
                None => empty_object(),
            },
            None => empty_object(),
        },
    }
}

/// The call of an element: the value of its first `name="..."` attribute, when the
/// element holds `<invoke name=` or `<tool name=` and that value is not empty.
pub open spec fn xml_call_of_element(x: Seq<char>) -> Option<CallModel> {
    if !(contains(x, "<invoke name="@) || contains(x, "<tool name="@)) {
        None
    } else {
        match find_from(x, "name=\""@, 0) {
            Some(a) => match find_from(x, seq!['"'], a + 6) {
                Some(e) => {
                    let name = x.subrange(a + 6, e);
                    if name.len() == 0 {
                        None
                    } else {
                        Some(CallModel { tool: name, args: xml_args(x) })
                    }
                },
                None => None,
            },
            None => None,
        }
    }
}

/// The call of the element that opens in `s` at `i`, if it is closed.
pub open spec fn xml_call_at(s: Seq<char>, i: int) -> Option<CallModel> {
    match xml_element_end(s.subrange(i, s.len() as int)) {
        Some(e) => xml_call_of_element(s.subrange(i, i + e)),
        None => None,
    }
}

/// The calls of the elements that open with `p` at or after `i`, in order of position.
pub open spec fn pattern_xml_calls(s: Seq<char>, p: Seq<char>, i: int) -> Seq<CallModel>
    decreases s.len() - i,
{
    if i < 0 || i >= s.len() {
        Seq::empty()
    } else {
        (if occurs_at(s, i, p) {
            opt_seq(xml_call_at(s, i))
        } else {
            Seq::empty()
        }) + pattern_xml_calls(s, p, i + 1)
    }
}

/// Every XML call of a text, one opening after another.
pub open spec fn text_xml_calls(s: Seq<char>) -> Seq<CallModel> {
    pattern_xml_calls(s, xml_opening(0), 0) + pattern_xml_calls(s, xml_opening(1), 0)
        + pattern_xml_calls(s, xml_opening(2), 0)
}

/// A one-character sequence.
fn single(c: char) -> (r: Vec<char>)
    ensures
        r@ == seq![c],
{
    let mut r: Vec<char> = Vec::new();
    r.push(c);
    assert(r@ =~= seq![c]);
    r
}

/// The position just past the closing tag of the first element of `x`.
pub fn find_complete_xml_element_end(x: &Vec<char>) -> (r: Option<usize>)
    ensures
        opt_nat(r) == xml_element_end(x@),
        r matches Some(e) ==> e <= x.len(),
{
    let a = match find_in(x, &single('<'), 0) {
        Some(a) => a,
        None => return None,
    };
    let b = match find_in(x, &single('>'), a + 1) {
        Some(b) => b,
        None => return None,
    };
    let ghost t = x@.subrange(a + 1, b as int);
    let mut k: usize = a + 1;
    while k < b && !is_white_char(x[k]) && x[k] != '>'
        invariant
            a + 1 <= k <= b,
            b < x.len(),
            t == x@.subrange(a + 1, b as int),
            forall|j: int| 0 <= j < k - (a + 1) ==> !(is_white(#[trigger] t[j]) || t[j] == '>'),
        decreases b - k,
    {
        k += 1;
    }
    proof {
        lemma_first_from_skip(t.len() as int, 0, k - (a + 1), |i: int| is_white(t[i]) || t[i] == '>');
    }
    let name = slice_of(x, a + 1, k);
    assert(name@ =~= tag_name(t));
    if name.len() > 0 && name[0] == '/' {
        return None;
    }
    let mut close = to_chars("</");
    let mut i: usize = 0;
    while i < name.len()
        invariant
            i <= name.len(),
            close@ == "</"@ + name@.take(i as int),
        decreases name.len() - i,
    {
        close.push(name[i]);
        assert(close@ =~= "</"@ + name@.take(i + 1));
        i += 1;
    }
    close.push('>');
    proof {
        reveal_strlit(">");
        assert(name@.take(name.len() as int) =~= name@);
    }
    assert(close@ =~= closing_tag(name@));
    match find_in(x, &close, 0) {
        Some(c) => Some(c + close.len()),
        None => None,
    }
}

/// The object `{"command": t}`.
fn command_object_of(t: String) -> (r: JsonValue)
    ensures
        r@ == command_object(t@),
{
    let name = to_chars("command");
    let key = string_of(&name, 0, name.len());
    assert(name@.subrange(0, name@.len() as int) =~= name@);
    let mut members: Vec<(String, JsonValue)> = Vec::new();
    let value = JsonValue::String(t);
    assert(value@ == JsonModel::String(t@));
    members.push((key, value));
    assert(members.len() == 1 && members[0].0@ == "command"@ && members[0].1@ == JsonModel::String(t@));
    let r = JsonValue::Object(members);
    assert(r@->Object_0 =~= command_object(t@)->Object_0);
    r
}

/// The empty object.
fn empty_object_value() -> (r: JsonValue)
    ensures
        r@ == empty_object(),
{
    let r = JsonValue::Object(Vec::new());
    assert(r@->Object_0 =~= empty_object()->Object_0);
    r
}

/// The arguments that the text of an element stands for.
fn content_value_of(c: &Vec<char>) -> (r: JsonValue)
    ensures
        r@ == content_value(c@),
{
    let trimmed = trim_chars(c);
    let cleaned = collapse_newlines(&trimmed);
    let text = string_of(&cleaned, 0, cleaned.len());
    assert(cleaned@.subrange(0, cleaned@.len() as int) =~= cleaned@);
    if let Some(v) = parse_json(text.as_str()) {
        if v.is_object() {
            return v;
        }
    }
    let command = trim_chars(&cleaned);
    assert(command@.subrange(0, command@.len() as int) =~= command@);
    command_object_of(string_of(&command, 0, command.len()))
}

/// The arguments of an element.
fn xml_args_of(x: &Vec<char>) -> (r: JsonValue)
    ensures
        r@ == xml_args(x@),
{
    let open = to_chars("<parameter name=\"args\">");
    match find_in(x, &open, 0) {
        Some(a) => {
            let from = a + open.len();
            match find_in(x, &to_chars("</parameter>"), from) {
                Some(b) => content_value_of(&slice_of(x, from, b)),
                None => empty_object_value(),
            }
        },
        None => match find_in(x, &single('>'), 0) {
            Some(g) => match find_in(x, &to_chars("</"), g + 1) {
                Some(b) => content_value_of(&slice_of(x, g + 1, b)),
                None => empty_object_value(),
            },
            None => empty_object_value(),
        },
    }
}

/// The call of an element: the value of its first `name="..."` attribute, when the
/// element holds `<invoke name=` or `<tool name=` and that value is not empty.
pub fn parse_xml_tool_call(x: &Vec<char>) -> (r: Option<ToolCall>)
    ensures
        opt_call_model(r) == xml_call_of_element(x@),
{
    if find_in(x, &to_chars("<invoke name="), 0).is_none() && find_in(x, &to_chars("<tool name="), 0).is_none() {
        return None;
    }
    let attr = to_chars("name=\"");
    proof {
        reveal_strlit("name=\"");
    }
    let a = match find_in(x, &attr, 0) {
        Some(a) => a,
        None => return None,
    };
    let e = match find_in(x, &single('"'), a + 6) {
        Some(e) => e,
        None => return None,
    };
    if e == a + 6 {
        return None;
    }
    let tool = string_of(x, a + 6, e);
    Some(ToolCall { tool, args: xml_args_of(x) })
}

/// The call of the element that opens in `s` at `i`, if it is closed.
pub fn xml_call_in(s: &Vec<char>, i: usize) -> (r: Option<ToolCall>)
    requires
        i <= s.len(),
    ensures
        opt_call_model(r) == xml_call_at(s@, i as int),
{
    let rest = slice_of(s, i, s.len());
    match find_complete_xml_element_end(&rest) {
        Some(e) => {
            let element = slice_of(s, i, i + e);
            parse_xml_tool_call(&element)
        },
        None => None,
    }
}

/// Appends the calls of the elements that open with `p` in `s`, in order of position.
fn push_pattern_xml_calls(s: &Vec<char>, p: &Vec<char>, out: &mut Vec<ToolCall>)
    ensures
        calls_model(final(out)@) == calls_model(old(out)@) + pattern_xml_calls(s@, p@, 0),
{
    let ghost start = calls_model(out@);
    let mut i: usize = 0;
    while i < s.len()
        invariant
            i <= s.len(),
            calls_model(out@) + pattern_xml_calls(s@, p@, i as int) == start
                + pattern_xml_calls(s@, p@, 0),
        decreases s.len() - i,
    {
        let ghost before = calls_model(out@);
        let ghost rest = pattern_xml_calls(s@, p@, i + 1);
        let ghost step = if occurs_at(s@, i as int, p@) {
            opt_seq(xml_call_at(s@, i as int))
        } else {
            Seq::empty()
        };
        assert(pattern_xml_calls(s@, p@, i as int) == step + rest);
        if matches_at(s, i, p) {
            if let Some(c) = xml_call_in(s, i) {
                proof {
                    lemma_calls_push(out@, c);
                }
                out.push(c);
            }
        }
        assert(calls_model(out@) == before + step);
        assert(before + (step + rest) =~= (before + step) + rest);
        i += 1;
    }
    assert(pattern_xml_calls(s@, p@, i as int) =~= Seq::<CallModel>::empty());
    assert(calls_model(out@) =~= calls_model(out@) + Seq::<CallModel>::empty());
}

/// Every XML call of a text, one opening after another.
pub fn text_xml_calls_in(s: &Vec<char>) -> (r: Vec<ToolCall>)
    ensures
        calls_model(r@) == text_xml_calls(s@),
{
    let mut out: Vec<ToolCall> = Vec::new();
    assert(calls_model(out@) =~= Seq::<CallModel>::empty());
    push_pattern_xml_calls(s, &to_chars("<invoke name="), &mut out);
    push_pattern_xml_calls(s, &to_chars("<invoke>"), &mut out);
    push_pattern_xml_calls(s, &to_chars("<tool name="), &mut out);
    assert(calls_model(out@) =~= text_xml_calls(s@));
    out
}

/// The first position where an element opening with `p` yields a call.
pub open spec fn first_pattern_call(t: Seq<char>, p: Seq<char>) -> Option<int> {
    first_from(t.len() as int, 0, |j: int| occurs_at(t, j, p) && xml_call_at(t, j) is Some)
}

/// Where the element of the first XML call of a text starts, in the order in which
/// the text is scanned: every `<invoke name=` first, then `<invoke>`, then
/// `<tool name=`.
pub open spec fn first_xml_call_start(t: Seq<char>) -> Option<int> {
    match first_pattern_call(t, xml_opening(0)) {
        Some(j) => Some(j),
        None => match first_pattern_call(t, xml_opening(1)) {
            Some(j) => Some(j),
            None => first_pattern_call(t, xml_opening(2)),
        },
    }
}

/// The calls of the elements that open with `p` from `i` on begin with the call of
/// the first such element that yields one.
proof fn lemma_pattern_first_call(t: Seq<char>, p: Seq<char>, i: int)
    requires
        0 <= i,
    ensures
        ({
            let f = first_from(t.len() as int, i, |j: int| occurs_at(t, j, p) && xml_call_at(t, j) is Some);
            &&& f is None ==> pattern_xml_calls(t, p, i).len() == 0
            &&& f matches Some(j) ==> pattern_xml_calls(t, p, i).len() > 0
                && Some(pattern_xml_calls(t, p, i)[0]) == xml_call_at(t, j)
        }),
    decreases t.len() - i,
{
    if i < t.len() {
        lemma_pattern_first_call(t, p, i + 1);
        if !(occurs_at(t, i, p) && xml_call_at(t, i) is Some) {
            let step = if occurs_at(t, i, p) {
                opt_seq(xml_call_at(t, i))
            } else {
                Seq::<CallModel>::empty()
            };
            assert(step =~= Seq::<CallModel>::empty());
            assert(pattern_xml_calls(t, p, i) =~= pattern_xml_calls(t, p, i + 1));
        }
    }
}

/// The XML calls of a text begin with the call of the element at `first_xml_call_start`.
pub proof fn lemma_first_xml_call(t: Seq<char>)
    ensures
        first_xml_call_start(t) is None <==> text_xml_calls(t).len() == 0,
        first_xml_call_start(t) matches Some(j) ==> 0 <= j < t.len() && Some(text_xml_calls(t)[0])
            == xml_call_at(t, j),
{
    let a = pattern_xml_calls(t, xml_opening(0), 0);
    let b = pattern_xml_calls(t, xml_opening(1), 0);
    let c = pattern_xml_calls(t, xml_opening(2), 0);
    lemma_pattern_first_call(t, xml_opening(0), 0);
    lemma_pattern_first_call(t, xml_opening(1), 0);
    lemma_pattern_first_call(t, xml_opening(2), 0);
    assert(text_xml_calls(t) == a + b + c);
    if let Some(j) = first_xml_call_start(t) {
        let pat = if first_pattern_call(t, xml_opening(0)) is Some {
            xml_opening(0)
        } else if first_pattern_call(t, xml_opening(1)) is Some {
            xml_opening(1)
        } else {
            xml_opening(2)
        };
        lemma_first_from_props(t.len() as int, 0, |k: int| occurs_at(t, k, pat) && xml_call_at(t, k) is Some);
        if a.len() == 0 && b.len() == 0 {
            assert((a + b + c)[0] == c[0]);
        } else if a.len() == 0 {
            assert((a + b + c)[0] == b[0]);
        } else {
            assert((a + b + c)[0] == a[0]);
        }
    }
}

/// Where the element of the first XML call of `t` starts, and that call.
pub fn first_xml_call_in(t: &Vec<char>) -> (r: Option<(usize, ToolCall)>)
    ensures
        match r {
            Some((j, c)) => first_xml_call_start(t@) == Some(j as int) && j < t.len()
                && xml_call_at(t@, j as int) == Some(c@),
            None => first_xml_call_start(t@) is None,
        },
{
    if let Some(found) = first_pattern_call_in(t, &to_chars("<invoke name=")) {
        return Some(found);
    }
    if let Some(found) = first_pattern_call_in(t, &to_chars("<invoke>")) {
        return Some(found);
    }
    first_pattern_call_in(t, &to_chars("<tool name="))
}

/// Where the first element opening with `p` that yields a call starts, and that call.
fn first_pattern_call_in(t: &Vec<char>, p: &Vec<char>) -> (r: Option<(usize, ToolCall)>)
    ensures
        match r {
            Some((j, c)) => first_pattern_call(t@, p@) == Some(j as int) && j < t.len()
                && xml_call_at(t@, j as int) == Some(c@),
            None => first_pattern_call(t@, p@) is None,
        },
{
    let mut i: usize = 0;
    while i < t.len()
        invariant
            i <= t.len(),
            forall|j: int| 0 <= j < i ==> !(occurs_at(t@, j, p@) && #[trigger] xml_call_at(t@, j) is Some),
        decreases t.len() - i,
    {
        if matches_at(t, i, p) {
            if let Some(c) = xml_call_in(t, i) {
                proof {
                    lemma_first_from_skip(t@.len() as int, 0, i as int, |j: int| occurs_at(t@, j, p@) && xml_call_at(t@, j) is Some);
                }
                return Some((i, c));
            }
        }
        i += 1;
    }
    proof {
        lemma_first_from_skip(t@.len() as int, 0, i as int, |j: int| occurs_at(t@, j, p@) && xml_call_at(t@, j) is Some);
    }
    None
}

} // verus!
