//! Tool calls written as JSON objects: the openings that announce one, the end
//! of a balanced object, and the checks that turn an object into a call.
use crate::json::{json_parse, parse_json, JsonModel, JsonValue};
use crate::text::{
    contains, find_in, first_from, last_below, lemma_first_from_agree, lemma_first_from_props, lemma_first_from_skip,
    lemma_last_below_skip,
    matches_at, occurs_at, opt_int, same_chars, string_of, to_chars,
};
use crate::tool_call::{calls_model, opt_call_model, opt_seq, CallModel, ToolCall};
use vstd::prelude::*;

verus! {

/// The four spellings of the opening of a JSON tool call.
pub open spec fn json_opening(k: int) -> Seq<char> {
    if k == 0 {
        "{\"tool\":"@
    } else if k == 1 {
        "{ \"tool\":"@
    } else if k == 2 {
        "{\"tool\" :"@
    } else {
        "{ \"tool\" :"@
    }
}

/// Some opening of a JSON tool call stands in `s` at `i`.
pub open spec fn opens_json_call(s: Seq<char>, i: int) -> bool {
    occurs_at(s, i, json_opening(0)) || occurs_at(s, i, json_opening(1)) || occurs_at(
        s,
        i,
        json_opening(2),
    ) || occurs_at(s, i, json_opening(3))
}

/// The first position at or after `from` where a JSON tool call opens.
pub open spec fn first_json_opening(s: Seq<char>, from: int) -> Option<int> {
    first_from(s.len() as int, from, |i: int| opens_json_call(s, i))
}

/// The last position where a JSON tool call opens.
pub open spec fn last_json_opening(s: Seq<char>) -> Option<int> {
    last_below(s.len() as int, |i: int| opens_json_call(s, i))
}

/// What the boundary finder knows after reading a prefix: brace depth, whether it is
/// inside a quoted string, whether the next character is escaped, whether a brace opened.
pub struct BraceState {
    pub depth: int,
    pub in_string: bool,
    pub escaped: bool,
    pub opened: bool,
}

/// Reading one more character.
pub open spec fn brace_step(st: BraceState, c: char) -> BraceState {
    if st.escaped {
        BraceState { escaped: false, ..st }
    } else if c == '\\' {
        BraceState { escaped: true, ..st }
    } else if c == '"' {
        BraceState { in_string: !st.in_string, ..st }
    } else if c == '{' && !st.in_string {
        BraceState { depth: st.depth + 1, opened: true, ..st }
    } else if c == '}' && !st.in_string {
        BraceState { depth: st.depth - 1, ..st }
    } else {
        st
    }
}

/// The state after reading the first `n` characters of `s`.
pub open spec fn brace_state(s: Seq<char>, n: int) -> BraceState
    decreases n,
{
    if n <= 0 {
        BraceState { depth: 0, in_string: false, escaped: false, opened: false }
    } else {
        brace_step(brace_state(s, n - 1), s[n - 1])
    }
}

/// The character at `i` is a brace that brings the depth back to zero.
pub open spec fn closes_object_at(s: Seq<char>, i: int) -> bool {
    let st = brace_state(s, i);
    !st.escaped && !st.in_string && s[i] == '}' && st.depth == 1 && st.opened
}

/// The position of the brace that closes the first balanced object of `s`.
pub open spec fn json_object_end(s: Seq<char>) -> Option<nat> {
    match first_from(s.len() as int, 0, |i: int| closes_object_at(s, i)) {
        Some(i) => Some(i as nat),
        None => None,
    }
}

/// An `Option<usize>` read as an optional natural number.
pub open spec fn opt_nat(r: Option<usize>) -> Option<nat> {
    match r {
        Some(k) => Some(k as nat),
        None => None,
    }
}

/// The phrases that betray prose leaking into argument names.
pub open spec fn prose_marker(m: int) -> Seq<char> {
    if m == 0 {
        "I'll"@
    } else if m == 1 {
        "Let me"@
    } else if m == 2 {
        "Here's"@
    } else if m == 3 {
        "I can"@
    } else if m == 4 {
        "I need"@
    } else if m == 5 {
        "First"@
    } else if m == 6 {
        "Now"@
    } else {
        "The "@
    }
}

/// An argument name that reads as prose: over 100 characters, a newline, or a marker phrase.
pub open spec fn is_prose_key(key: Seq<char>) -> bool {
    key.len() > 100 || contains(key, seq!['\n']) || exists|m: int|
        0 <= m < 8 && contains(key, #[trigger] prose_marker(m))
}

/// Some member name of an object reads as prose.
pub open spec fn has_prose_keys(members: Seq<(Seq<char>, JsonModel)>) -> bool {
    exists|i: int| 0 <= i < members.len() && is_prose_key(#[trigger] members[i].0)
}

/// The value of the first member of an object with the given name.
pub open spec fn lookup(members: Seq<(Seq<char>, JsonModel)>, key: Seq<char>) -> Option<JsonModel> {
    match first_from(members.len() as int, 0, |i: int| members[i].0 == key) {
        Some(i) => Some(members[i].1),
        None => None,
    }
}

/// The call that a JSON value spells: an object with a string `tool` and some `args`.
pub open spec fn call_of_value(v: JsonModel) -> Option<CallModel> {
    match v {
        JsonModel::Object(members) => match (lookup(members, "tool"@), lookup(members, "args"@)) {
            (Some(JsonModel::String(t)), Some(a)) => Some(CallModel { tool: t, args: a }),
            _ => None,
        },
        _ => None,
    }
}

/// A call that may be handed on: a non-empty name, and arguments that form an object
/// none of whose names reads as prose.
pub open spec fn acceptable(c: CallModel) -> bool {
    c.tool.len() > 0 && match c.args {
        JsonModel::Object(members) => !has_prose_keys(members),
        _ => false,
    }
}

/// The call that a JSON text spells, when it passes the checks.
pub open spec fn json_call_of_text(t: Seq<char>) -> Option<CallModel> {
    match json_parse(t) {
        Some(v) => match call_of_value(v) {
            Some(c) => if acceptable(c) {
                Some(c)
            } else {
                None
            },
            None => None,
        },
        None => None,
    }
}

/// The call of the JSON object that opens at `i`, if the object is complete.
pub open spec fn json_call_at(s: Seq<char>, i: int) -> Option<CallModel> {
    match json_object_end(s.subrange(i, s.len() as int)) {
        Some(e) => json_call_of_text(s.subrange(i, i + e + 1)),
        None => None,
    }
}

/// The calls of the objects that open with `p` at or after `i`, in order of position.
pub open spec fn pattern_json_calls(s: Seq<char>, p: Seq<char>, i: int) -> Seq<CallModel>
    decreases s.len() - i,
{
    if i < 0 || i >= s.len() {
        Seq::empty()
    } else {
        (if occurs_at(s, i, p) {
            opt_seq(json_call_at(s, i))
        } else {
            Seq::empty()
        }) + pattern_json_calls(s, p, i + 1)
    }
}

/// Every JSON call of a text, one opening spelling after another.
pub open spec fn text_json_calls(s: Seq<char>) -> Seq<CallModel> {
    pattern_json_calls(s, json_opening(0), 0) + pattern_json_calls(s, json_opening(1), 0)
        + pattern_json_calls(s, json_opening(2), 0) + pattern_json_calls(s, json_opening(3), 0)
}

/// The complete JSON calls from `i` on that do not overlap: after each complete object
/// the search goes on past its end, and it stops at the first object left open.
pub open spec fn bulk_json_calls(s: Seq<char>, i: int) -> Seq<CallModel>
    decreases s.len() - i,
{
    if i < 0 || i >= s.len() {
        Seq::empty()
    } else if !opens_json_call(s, i) {
        bulk_json_calls(s, i + 1)
    } else {
        match json_object_end(s.subrange(i, s.len() as int)) {
            Some(e) if i + e < s.len() => opt_seq(json_call_of_text(s.subrange(i, i + e + 1)))
                + bulk_json_calls(s, i + e + 1),
            _ => Seq::empty(),
        }
    }
}

/// The characters of the four openings, in order.
pub fn json_openings() -> (r: Vec<Vec<char>>)
    ensures
        r.len() == 4,
        forall|k: int| 0 <= k < 4 ==> #[trigger] r[k]@ == json_opening(k),
{
    let mut r: Vec<Vec<char>> = Vec::new();
    r.push(to_chars("{\"tool\":"));
    r.push(to_chars("{ \"tool\":"));
    r.push(to_chars("{\"tool\" :"));
    r.push(to_chars("{ \"tool\" :"));
    r
}

/// Whether a JSON tool call opens in `s` at `i`.
pub fn opens_json_call_at(s: &Vec<char>, i: usize, openings: &Vec<Vec<char>>) -> (r: bool)
    requires
        openings.len() == 4,
        forall|k: int| 0 <= k < 4 ==> #[trigger] openings[k]@ == json_opening(k),
    ensures
        r == opens_json_call(s@, i as int),
{
    matches_at(s, i, &openings[0]) || matches_at(s, i, &openings[1]) || matches_at(
        s,
        i,
        &openings[2],
    ) || matches_at(s, i, &openings[3])
}

/// The first position at or after `from` where a JSON tool call opens in `s`.
pub fn first_json_opening_in(s: &Vec<char>, from: usize) -> (r: Option<usize>)
    ensures
        opt_int(r) == first_json_opening(s@, from as int),
        r matches Some(k) ==> from <= k < s.len(),
{
    let openings = json_openings();
    let mut i = from;
    while i < s.len()
        invariant
            from <= i,
            openings.len() == 4,
            forall|k: int| 0 <= k < 4 ==> #[trigger] openings[k]@ == json_opening(k),
            forall|j: int| from <= j < i ==> !#[trigger] opens_json_call(s@, j),
        decreases s.len() - i,
    {
        if opens_json_call_at(s, i, &openings) {
            proof {
                lemma_first_from_skip(s@.len() as int, from as int, i as int, |j: int| opens_json_call(s@, j));
            }
            return Some(i);
        }
        i += 1;
    }
    proof {
        lemma_first_from_skip(s@.len() as int, from as int, i as int, |j: int| opens_json_call(s@, j));
    }
    None
}

/// The last position where a JSON tool call opens in `s`.
pub fn last_json_opening_in(s: &Vec<char>) -> (r: Option<usize>)
    ensures
        opt_int(r) == last_json_opening(s@),
        r matches Some(k) ==> k < s.len(),
{
    let openings = json_openings();
    let mut i = s.len();
    while i > 0
        invariant
            i <= s.len(),
            openings.len() == 4,
            forall|k: int| 0 <= k < 4 ==> #[trigger] openings[k]@ == json_opening(k),
            forall|j: int| i <= j < s.len() ==> !#[trigger] opens_json_call(s@, j),
        decreases i,
    {
        if opens_json_call_at(s, i - 1, &openings) {
            proof {
                lemma_last_below_skip(s@.len() as int, i as int, |j: int| opens_json_call(s@, j));
            }
            return Some(i - 1);
        }
        i -= 1;
    }
    proof {
        lemma_last_below_skip(s@.len() as int, 0, |j: int| opens_json_call(s@, j));
    }
    None
}

/// The position, counted from `start`, of the brace that closes the first balanced
/// object of `s` from `start` on.
pub fn object_end_from(s: &Vec<char>, start: usize) -> (r: Option<usize>)
    requires
        start <= s.len(),
    ensures
        opt_nat(r) == json_object_end(s@.subrange(start as int, s.len() as int)),
        r matches Some(e) ==> start + e < s.len(),
{
    let ghost t = s@.subrange(start as int, s.len() as int);
    let n = s.len() - start;
    let mut opens: usize = 0;
    let mut closes: usize = 0;
    let mut in_string = false;
    let mut escaped = false;
    let mut opened = false;
    let mut k: usize = 0;
    while k < n
        invariant
            n == t.len(),
            start + n == s.len(),
            t == s@.subrange(start as int, s.len() as int),
            k <= n,
            opens + closes <= k,
            brace_state(t, k as int) == (BraceState {
                depth: opens - closes,
                in_string,
                escaped,
                opened,
            }),
            forall|j: int| 0 <= j < k ==> !#[trigger] closes_object_at(t, j),
        decreases n - k,
    {
        let c = s[start + k];
        assert(t[k as int] == c);
        if escaped {
            escaped = false;
        } else if c == '\\' {
            escaped = true;
        } else if c == '"' {
            in_string = !in_string;
        } else if c == '{' && !in_string {
            opens += 1;
            opened = true;
        } else if c == '}' && !in_string {
            if opens == closes + 1 && opened {
                proof {
                    lemma_first_from_skip(n as int, 0, k as int, |i: int| closes_object_at(t, i));
                }
                return Some(k);
            }
            closes += 1;
        }
        k += 1;
    }
    proof {
        lemma_first_from_skip(n as int, 0, k as int, |i: int| closes_object_at(t, i));
    }
    None
}

/// The characters of the prose markers, in order.
fn prose_markers() -> (r: Vec<Vec<char>>)
    ensures
        r.len() == 8,
        forall|m: int| 0 <= m < 8 ==> #[trigger] r[m]@ == prose_marker(m),
{
    let mut r: Vec<Vec<char>> = Vec::new();
    r.push(to_chars("I'll"));
    r.push(to_chars("Let me"));
    r.push(to_chars("Here's"));
    r.push(to_chars("I can"));
    r.push(to_chars("I need"));
    r.push(to_chars("First"));
    r.push(to_chars("Now"));
    r.push(to_chars("The "));
    r
}

/// Whether an argument name reads as prose.
pub fn is_prose_key_text(key: &str) -> (r: bool)
    ensures
        r == is_prose_key(key@),
{
    let k = to_chars(key);
    if k.len() > 100 {
        return true;
    }
    let mut newline: Vec<char> = Vec::new();
    newline.push('\n');
    assert(newline@ =~= seq!['\n']);
    if find_in(&k, &newline, 0).is_some() {
        return true;
    }
    let markers = prose_markers();
    let mut m: usize = 0;
    while m < 8
        invariant
            m <= 8,
            k@ == key@,
            markers.len() == 8,
            forall|j: int| 0 <= j < 8 ==> #[trigger] markers[j]@ == prose_marker(j),
            forall|j: int| 0 <= j < m ==> !contains(key@, #[trigger] prose_marker(j)),
        decreases 8 - m,
    {
        if find_in(&k, &markers[m], 0).is_some() {
            assert(contains(key@, prose_marker(m as int)));
            return true;
        }
        m += 1;
    }
    false
}

/// Whether some member name of the arguments, when they form an object, reads as prose.
pub fn args_contain_prose_fragments(args: &JsonValue) -> (r: bool)
    ensures
        r == (args@ matches JsonModel::Object(members) && has_prose_keys(members)),
{
    match args {
        JsonValue::Object(members) => {
            let ghost model = args@->Object_0;
            let mut i: usize = 0;
            while i < members.len()
                invariant
                    i <= members.len(),
                    model == args@->Object_0,
                    args@ is Object,
                    model.len() == members.len(),
                    forall|j: int| 0 <= j < members.len() ==> #[trigger] model[j].0 == members[j].0@,
                    forall|j: int| 0 <= j < i ==> !is_prose_key(#[trigger] model[j].0),
                decreases members.len() - i,
            {
                if is_prose_key_text(members[i].0.as_str()) {
                    assert(is_prose_key(model[i as int].0));
                    assert(has_prose_keys(model));
                    return true;
                }
                i += 1;
            }
            false
        },
        _ => false,
    }
}

/// The index of the first member of an object with the given name.
fn find_member(members: &Vec<(String, JsonValue)>, key: &Vec<char>) -> (r: Option<usize>)
    ensures
        opt_int(r) == first_from(members.len() as int, 0, |i: int| members[i].0@ == key@),
{
    let mut i: usize = 0;
    while i < members.len()
        invariant
            i <= members.len(),
            forall|j: int| 0 <= j < i ==> !(#[trigger] members[j].0@ == key@),
        decreases members.len() - i,
    {
        let name = to_chars(members[i].0.as_str());
        if same_chars(&name, key) {
            proof {
                lemma_first_from_skip(members.len() as int, 0, i as int, |j: int| members[j].0@ == key@);
            }
            return Some(i);
        }
        i += 1;
    }
    proof {
        lemma_first_from_skip(members.len() as int, 0, i as int, |j: int| members[j].0@ == key@);
    }
    None
}

/// The call that a JSON value spells: an object with a string `tool` and some `args`.
pub fn call_from_value(v: &JsonValue) -> (r: Option<ToolCall>)
    ensures
        opt_call_model(r) == call_of_value(v@),
{
    match v {
        JsonValue::Object(members) => {
            let ghost model = v@->Object_0;
            assert(forall|j: int| 0 <= j < members.len() ==> #[trigger] model[j] == (members[j].0@, members[j].1@));
            let tool_key = to_chars("tool");
            let args_key = to_chars("args");
            let t = find_member(members, &tool_key);
            let a = find_member(members, &args_key);
            proof {
                lemma_first_from_agree(members.len() as int, 0, |i: int| members[i].0@ == tool_key@, |i: int| model[i].0 == "tool"@);
                lemma_first_from_agree(members.len() as int, 0, |i: int| members[i].0@ == args_key@, |i: int| model[i].0 == "args"@);
                lemma_first_from_props(members.len() as int, 0, |i: int| members[i].0@ == tool_key@);
                lemma_first_from_props(members.len() as int, 0, |i: int| members[i].0@ == args_key@);
            }
            match (t, a) {
                (Some(ti), Some(ai)) => match &members[ti].1 {
                    JsonValue::String(name) => Some(ToolCall { tool: name.clone(), args: members[ai].1.deep_copy() }),
                    _ => None,
                },
                _ => None,
            }
        },
        _ => None,
    }
}

/// The call that a JSON text spells, when it passes the checks: the text is one JSON
/// object with a string `tool` that is not empty and object `args` none of whose names
/// reads as prose.
pub fn tool_call_from_json(text: &str) -> (r: Option<ToolCall>)
    ensures
        opt_call_model(r) == json_call_of_text(text@),
{
    match parse_json(text) {
        Some(v) => match call_from_value(&v) {
            Some(c) => {
                if !c.tool.as_str().is_empty() && c.args.is_object()
                    && !args_contain_prose_fragments(&c.args) {
                    Some(c)
                } else {
                    None
                }
            },
            None => None,
        },
        None => None,
    }
}

/// The call of the JSON object that opens in `s` at `i`, if the object is complete.
pub fn json_call_in(s: &Vec<char>, i: usize) -> (r: Option<ToolCall>)
    requires
        i <= s.len(),
    ensures
        opt_call_model(r) == json_call_at(s@, i as int),
{
    match object_end_from(s, i) {
        Some(e) => {
            let span = string_of(s, i, i + e + 1);
            tool_call_from_json(span.as_str())
        },
        None => None,
    }
}

/// Appending one call to a list adds its model at the end.
pub proof fn lemma_calls_push(calls: Seq<ToolCall>, c: ToolCall)
    ensures
        calls_model(calls.push(c)) == calls_model(calls) + seq![c@],
{
    assert(calls_model(calls.push(c)) =~= calls_model(calls) + seq![c@]);
}

/// Appends the calls of the objects that open with `p` in `s`, in order of position.
fn push_pattern_json_calls(s: &Vec<char>, p: &Vec<char>, out: &mut Vec<ToolCall>)
    ensures
        calls_model(final(out)@) == calls_model(old(out)@) + pattern_json_calls(s@, p@, 0),
{
    let ghost start = calls_model(out@);
    let mut i: usize = 0;
    while i < s.len()
        invariant
            i <= s.len(),
            calls_model(out@) + pattern_json_calls(s@, p@, i as int) == start
                + pattern_json_calls(s@, p@, 0),
        decreases s.len() - i,
    {
        let ghost before = calls_model(out@);
        let ghost rest = pattern_json_calls(s@, p@, i + 1);
        let ghost step = if occurs_at(s@, i as int, p@) {
            opt_seq(json_call_at(s@, i as int))
        } else {
            Seq::empty()
        };
        assert(pattern_json_calls(s@, p@, i as int) == step + rest);
        if matches_at(s, i, p) {
            if let Some(c) = json_call_in(s, i) {
                proof {
                    lemma_calls_push(out@, c);
                }
                out.push(c);
            }
        }
        assert(calls_model(out@) == before + step);
        assert(before + (step + rest) =~= (before + step) + rest);
        i += 1;
    }
    assert(pattern_json_calls(s@, p@, i as int) =~= Seq::<CallModel>::empty());
    assert(calls_model(out@) =~= calls_model(out@) + Seq::<CallModel>::empty());
}

/// Every JSON call of a text, one opening spelling after another.
pub fn text_json_calls_in(s: &Vec<char>) -> (r: Vec<ToolCall>)
    ensures
        calls_model(r@) == text_json_calls(s@),
{
    let openings = json_openings();
    let mut out: Vec<ToolCall> = Vec::new();
    assert(calls_model(out@) =~= Seq::<CallModel>::empty());
    push_pattern_json_calls(s, &openings[0], &mut out);
    push_pattern_json_calls(s, &openings[1], &mut out);
    push_pattern_json_calls(s, &openings[2], &mut out);
    push_pattern_json_calls(s, &openings[3], &mut out);
    assert(calls_model(out@) =~= text_json_calls(s@));
    out
}

/// The complete JSON calls of `s` that do not overlap, in order.
pub fn bulk_json_calls_in(s: &Vec<char>) -> (r: Vec<ToolCall>)
    ensures
        calls_model(r@) == bulk_json_calls(s@, 0),
{
    let openings = json_openings();
    let mut out: Vec<ToolCall> = Vec::new();
    let mut i: usize = 0;
    assert(calls_model(out@) =~= Seq::<CallModel>::empty());
    assert(Seq::<CallModel>::empty() + bulk_json_calls(s@, 0) =~= bulk_json_calls(s@, 0));
    while i < s.len()
        invariant
            i <= s.len(),
            openings.len() == 4,
            forall|k: int| 0 <= k < 4 ==> #[trigger] openings[k]@ == json_opening(k),
            calls_model(out@) + bulk_json_calls(s@, i as int) == bulk_json_calls(s@, 0),
        decreases s.len() - i,
    {
        if !opens_json_call_at(s, i, &openings) {
            i += 1;
        } else {
            match object_end_from(s, i) {
                Some(e) => {
                    let ghost before = calls_model(out@);
                    let ghost step = opt_seq(json_call_of_text(s@.subrange(i as int, i + e + 1)));
                    let ghost rest = bulk_json_calls(s@, i + e + 1);
                    assert(bulk_json_calls(s@, i as int) == step + rest);
                    let span = string_of(s, i, i + e + 1);
                    if let Some(c) = tool_call_from_json(span.as_str()) {
                        proof {
                            lemma_calls_push(out@, c);
                        }
                        out.push(c);
                    }
                    assert(calls_model(out@) == before + step);
                    assert(before + (step + rest) =~= (before + step) + rest);
                    i = i + e + 1;
                },
                None => {
                    assert(bulk_json_calls(s@, i as int) =~= Seq::<CallModel>::empty());
                    i = s.len();
                },
            }
        }
    }
    assert(calls_model(out@) + bulk_json_calls(s@, i as int) =~= calls_model(out@));
    out
}

} // verus!
