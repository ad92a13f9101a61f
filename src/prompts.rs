//! The system prompts that tell a model how to call tools.
use crate::text::{matches_at, occurs_at, to_chars, string_of};
use vstd::prelude::*;
use vstd::string::StringExecFns;

verus! {

/// The rules of coding style that close the system prompt.
pub const CODING_STYLE: &'static str = "# IMPORTANT FOR CODING:
It is very important that you adhere to these principles when writing code. I will use a code quality tool to assess the code you have generated.

Functions and methods should be short - at most 80 lines, ideally under 40.
Classes should be modular and composable. They should not have more than 20 methods.
Do not write deeply nested (above 6 levels deep) 'if', 'match' or 'case' statements, rather refactor into separate logical sections or functions.
Code should be written such that it is maintainable and testable.
For Rust code write *ALL* test code into a 'tests' directory that is a peer to the 'src' of each crate, and is for testing code in that crate.
For Python code write *ALL* test code into a top level 'tests' directory.
Each non-trivial function should have test coverage. DO NOT WRITE TESTS FOR INDIVIDUAL FUNCTIONS / METHODS / CLASSES unless they are large and important. Instead write something at a higher level of abstraction, closer to an integration test.
Write tests in separate files, where the filename should match the main implementation and adding a \"_test\" suffix.";

/// The opening of the system prompt for models that call tools natively.
pub const SYSTEM_NATIVE_TOOL_CALLS: &'static str = 
    "You are G3, an AI programming agent of the same skill level as a seasoned engineer at a major technology company. You analyze given tasks and write code to achieve goals.

You have access to tools. When you need to accomplish a task, you MUST use the appropriate tool. Do not just describe what you would do - actually use the tools.

IMPORTANT: You must call tools to achieve goals. When you receive a request:
1. Analyze and identify what needs to be done
2. Call the appropriate tool with the required parameters
3. Continue or complete the task based on the result
4. If you repeatedly try something and it fails, try a different approach
5. Call the final_output tool with a detailed summary when done.

For shell commands: Use the shell tool with the exact command needed. Avoid commands that produce a large amount of output, and consider piping those outputs to files. Example: If asked to list files, immediately call the shell tool with command parameter \"ls\".
If you create temporary files for verification, place these in a subdir named 'tmp'. Do NOT pollute the current dir.";

/// The step of the prompt that asks for one tool call.
pub const SINGLE_TOOL_STEP: &'static str = "2. Call the appropriate tool with the required parameters";

/// The step that takes its place when several calls may be made at once.
pub const MULTIPLE_TOOLS_STEP: &'static str =
    "2. Call the appropriate tool(s) with the required parameters - you may call multiple tools in parallel when appropriate.";

/// `s` with each occurrence of `from`, read from the left without overlap, replaced by `to`.
pub open spec fn replace_all(s: Seq<char>, from: Seq<char>, to: Seq<char>) -> Seq<char>
    decreases s.len(),
{
    if s.len() == 0 || from.len() == 0 {
        s
    } else if occurs_at(s, 0, from) {
        to + replace_all(s.subrange(from.len() as int, s.len() as int), from, to)
    } else {
        seq![s[0]] + replace_all(s.subrange(1, s.len() as int), from, to)
    }
}

/// The system prompt for native tool calls: its opening, then the coding style.
pub open spec fn native_prompt() -> Seq<char> {
    SYSTEM_NATIVE_TOOL_CALLS@ + CODING_STYLE@
}

/// `s` with each occurrence of `from` replaced by `to`.
fn replace_chars(s: &Vec<char>, from: &Vec<char>, to: &Vec<char>) -> (r: Vec<char>)
    requires
        from.len() > 0,
    ensures
        r@ == replace_all(s@, from@, to@),
{
    let mut r: Vec<char> = Vec::new();
    let mut i: usize = 0;
    assert(s@.subrange(0, s@.len() as int) =~= s@);
    while i < s.len()
        invariant
            i <= s.len(),
            from.len() > 0,
            r@ + replace_all(s@.subrange(i as int, s@.len() as int), from@, to@) == replace_all(s@, from@, to@),
        decreases s.len() - i,
    {
        let ghost rest = s@.subrange(i as int, s@.len() as int);
        if matches_at(s, i, from) {
            assert(rest.subrange(0, from@.len() as int) =~= s@.subrange(i as int, i + from@.len()));
            assert(rest.subrange(from@.len() as int, rest.len() as int) =~= s@.subrange(i + from@.len(), s@.len() as int));
            let mut k: usize = 0;
            let ghost before = r@;
            while k < to.len()
                invariant
                    k <= to.len(),
                    r@ == before + to@.take(k as int),
                decreases to.len() - k,
            {
                r.push(to[k]);
                assert(r@ =~= before + to@.take(k + 1));
                k += 1;
            }
            assert(to@.take(to.len() as int) =~= to@);
            assert(before + (to@ + replace_all(rest.subrange(from@.len() as int, rest.len() as int), from@, to@)) =~= r@ + replace_all(s@.subrange(i + from@.len(), s@.len() as int), from@, to@));
            i = i + from.len();
        } else {
            assert(!occurs_at(rest, 0, from@)) by {
                if occurs_at(rest, 0, from@) {
                    assert(rest.subrange(0, from@.len() as int) =~= s@.subrange(i as int, i + from@.len()));
                }
            }
            assert(rest.subrange(1, rest.len() as int) =~= s@.subrange(i + 1, s@.len() as int));
            let ghost before = r@;
            r.push(s[i]);
            assert(before + (seq![rest[0]] + replace_all(rest.subrange(1, rest.len() as int), from@, to@)) =~= r@ + replace_all(s@.subrange(i + 1, s@.len() as int), from@, to@));
            i += 1;
        }
    }
    assert(s@.subrange(i as int, s@.len() as int) =~= Seq::<char>::empty());
    assert(r@ + Seq::<char>::empty() =~= r@);
    r
}

/// The system prompt for native tool calls; when several calls may be made at once,
/// its step that asks for one tool call is replaced by one that allows several.
pub fn get_system_prompt_for_native(allow_multiple: bool) -> (r: String)
    ensures
        r@ == if allow_multiple {
            replace_all(native_prompt(), SINGLE_TOOL_STEP@, MULTIPLE_TOOLS_STEP@)
        } else {
            native_prompt()
        },
{
    let base = String::from_str(SYSTEM_NATIVE_TOOL_CALLS).concat(CODING_STYLE);
    if allow_multiple {
        let from = to_chars(SINGLE_TOOL_STEP);
        proof {
            reveal_strlit("2. Call the appropriate tool with the required parameters");
        }
        let replaced = replace_chars(&to_chars(base.as_str()), &from, &to_chars(MULTIPLE_TOOLS_STEP));
        assert(replaced@.subrange(0, replaced@.len() as int) =~= replaced@);
        string_of(&replaced, 0, replaced.len())
    } else {
        base
    }
}

/// The system prompt of an agent: its own prompt as it is.
pub fn get_agent_system_prompt(agent_prompt: &str, allow_multiple_tool_calls: bool) -> (r: String)
    ensures
        r@ == agent_prompt@,
{
    String::from_str(agent_prompt)
}

/// The base system prompt for native tool calls, without additions of an agent.
pub fn get_base_system_prompt(allow_multiple_tool_calls: bool) -> (r: String)
    ensures
        r@ == if allow_multiple_tool_calls {
            replace_all(native_prompt(), SINGLE_TOOL_STEP@, MULTIPLE_TOOLS_STEP@)
        } else {
            native_prompt()
        },
{
    get_system_prompt_for_native(allow_multiple_tool_calls)
}

} // verus!
