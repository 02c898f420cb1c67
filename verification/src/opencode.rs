//! OpenCode stream events, as `opencode run --format json` prints them.
//!
//! OpenCode emits one JSON document on each line. A plain turn emits `step_start`, `text` and
//! `step_finish` (`reason: "stop"`); a turn that uses a tool emits a `tool_use` event before an
//! intermediate `step_finish` (`reason: "tool-calls"`), then repeats until a final `step_finish`
//! with `reason: "stop"`. The exit code on a `tool_use` event is the authoritative signal for
//! whether a `ralph emit ...` call actually succeeded.
use vstd::prelude::*;

use crate::json::{document_tree, get_in, member, member_of, number_of, parse_document, read_number,
    read_text, text_of, tree_of, Json, JsonTree};
use crate::text::{contains_str, is_blank, law_blank_texts_are_trimmed_away,
    law_parts_stand_between, law_surrounding_space_is_trimmed, law_trimming_is_idempotent,
    occurs_in, opt_text, str_eq, trim, trimmed};

verus! {

/// Token usage reported on a `step_finish` event.
#[derive(Clone, Copy, Debug, PartialEq, Eq, Structural)]
pub struct OpencodeTokens {
    pub total: u64,
    pub input: u64,
    pub output: u64,
    pub reasoning: u64,
    pub cache: OpencodeCacheTokens,
}

/// Token usage of the prompt cache.
#[derive(Clone, Copy, Debug, PartialEq, Eq, Structural)]
pub struct OpencodeCacheTokens {
    pub write: u64,
    pub read: u64,
}

pub open spec fn zero_cache() -> OpencodeCacheTokens {
    OpencodeCacheTokens { write: 0, read: 0 }
}

pub open spec fn zero_tokens() -> OpencodeTokens {
    OpencodeTokens { total: 0, input: 0, output: 0, reasoning: 0, cache: zero_cache() }
}

impl Default for OpencodeCacheTokens {
    fn default() -> (r: Self)
        ensures
            r == zero_cache(),
    {
        OpencodeCacheTokens { write: 0, read: 0 }
    }
}

impl Default for OpencodeTokens {
    fn default() -> (r: Self)
        ensures
            r == zero_tokens(),
    {
        OpencodeTokens {
            total: 0,
            input: 0,
            output: 0,
            reasoning: 0,
            cache: OpencodeCacheTokens { write: 0, read: 0 },
        }
    }
}

/// Events emitted by `opencode run --format json`.
///
/// Only the values of `type` below are known; a line with any other is skipped.
#[derive(Clone, Debug, PartialEq)]
pub enum OpencodeStreamEvent {
    /// A new assistant step (turn segment) has begun.
    StepStart,
    /// Assistant text content.
    Text { text: String },
    /// A tool invocation completed (only `bash` is inspected - other tool names are still parsed
    /// but carry `command: None`).
    ToolUse {
        tool: String,
        command: Option<String>,
        exit_code: Option<i32>,
        output: Option<String>,
    },
    /// A step completed. `reason: "stop"` means the assistant is genuinely done with its turn;
    /// `reason: "tool-calls"` means more steps follow. The cost is given by the bits of an IEEE
    /// 754 double.
    StepFinish { reason: String, tokens: OpencodeTokens, cost_bits: u64 },
}

/// The mathematical model of an event.
pub enum EventView {
    StepStart,
    Text { text: Seq<char> },
    ToolUse {
        tool: Seq<char>,
        command: Option<Seq<char>>,
        exit_code: Option<i32>,
        output: Option<Seq<char>>,
    },
    StepFinish { reason: Seq<char>, tokens: OpencodeTokens, cost_bits: u64 },
}

impl View for OpencodeStreamEvent {
    type V = EventView;

    open spec fn view(&self) -> EventView {
        match *self {
            OpencodeStreamEvent::StepStart => EventView::StepStart,
            OpencodeStreamEvent::Text { text } => EventView::Text { text: text@ },
            OpencodeStreamEvent::ToolUse { tool, command, exit_code, output } => EventView::ToolUse {
                tool: tool@,
                command: opt_text(command),
                exit_code,
                output: opt_text(output),
            },
            OpencodeStreamEvent::StepFinish { reason, tokens, cost_bits } => EventView::StepFinish {
                reason: reason@,
                tokens,
                cost_bits,
            },
        }
    }
}

pub open spec fn opt_event(e: Option<OpencodeStreamEvent>) -> Option<EventView> {
    match e {
        Some(e) => Some(e@),
        None => None,
    }
}

// ---------------------------------------------------------------------------
// Tokens
// ---------------------------------------------------------------------------
/// The field of a record: by its name in an object, by its place in an array.
pub open spec fn field(tree: JsonTree, key: Seq<char>, at: int) -> Option<JsonTree> {
    match tree {
        JsonTree::Array(items) => if at < items.len() {
            Some(items[at])
        } else {
            None
        },
        _ => member(tree, key),
    }
}

/// A record is an object, or an array with at most as many items as the record has fields.
pub open spec fn is_record(tree: JsonTree, size: nat) -> bool {
    match tree {
        JsonTree::Object(_) => true,
        JsonTree::Array(items) => items.len() <= size,
        _ => false,
    }
}

/// A count: zero where the field is missing, nothing where it holds no unsigned integer.
pub open spec fn count_in(tree: Option<JsonTree>) -> Option<u64> {
    match tree {
        None => Some(0),
        Some(_) => match number_of(tree) {
            Some(n) => n.unsigned,
            None => None,
        },
    }
}

/// Cache counts, from a record of two fields whose values are all counts.
pub open spec fn cache_in(tree: JsonTree) -> Option<OpencodeCacheTokens> {
    match (count_in(field(tree, "write"@, 0)), count_in(field(tree, "read"@, 1))) {
        (Some(write), Some(read)) => if is_record(tree, 2) {
            Some(OpencodeCacheTokens { write, read })
        } else {
            None
        },
        _ => None,
    }
}

/// Cache counts: zero where the field is missing.
pub open spec fn cache_field(tree: Option<JsonTree>) -> Option<OpencodeCacheTokens> {
    match tree {
        None => Some(zero_cache()),
        Some(tree) => cache_in(tree),
    }
}

/// Token counts, from a record of five fields whose values are all as they should be.
pub open spec fn tokens_in(tree: JsonTree) -> Option<OpencodeTokens> {
    match (
        count_in(field(tree, "total"@, 0)),
        count_in(field(tree, "input"@, 1)),
        count_in(field(tree, "output"@, 2)),
        count_in(field(tree, "reasoning"@, 3)),
        cache_field(field(tree, "cache"@, 4)),
    ) {
        (Some(total), Some(input), Some(output), Some(reasoning), Some(cache)) => if is_record(
            tree,
            5,
        ) {
            Some(OpencodeTokens { total, input, output, reasoning, cache })
        } else {
            None
        },
        _ => None,
    }
}

fn get_field<'a>(json: &'a Json, key: &str, at: usize) -> (r: Option<&'a Json>)
    ensures
        tree_of(r) == field(json@, key@, at as int),
{
    match json {
        Json::Array(items) => if at < items.len() {
            Some(&items[at])
        } else {
            None
        },
        _ => json.get(key),
    }
}

fn has_record_shape(json: &Json, size: usize) -> (r: bool)
    ensures
        r == is_record(json@, size as nat),
{
    match json {
        Json::Object(_) => true,
        Json::Array(items) => items.len() <= size,
        _ => false,
    }
}

fn read_count(json: Option<&Json>) -> (r: Option<u64>)
    ensures
        r == count_in(tree_of(json)),
{
    match json {
        None => Some(0),
        Some(_) => match read_number(json) {
            Some(n) => n.unsigned,
            None => None,
        },
    }
}

fn read_cache(json: &Json) -> (r: Option<OpencodeCacheTokens>)
    ensures
        r == cache_in(json@),
{
    if !has_record_shape(json, 2) {
        return None;
    }
    let write = read_count(get_field(json, "write", 0))?;
    let read = read_count(get_field(json, "read", 1))?;
    Some(OpencodeCacheTokens { write, read })
}

/// Token counts, from a record whose values are all as they should be.
///
/// A missing field counts as zero; fields that are not known are ignored.
pub fn read_tokens(json: &Json) -> (r: Option<OpencodeTokens>)
    ensures
        r == tokens_in(json@),
{
    if !has_record_shape(json, 5) {
        return None;
    }
    let total = read_count(get_field(json, "total", 0))?;
    let input = read_count(get_field(json, "input", 1))?;
    let output = read_count(get_field(json, "output", 2))?;
    let reasoning = read_count(get_field(json, "reasoning", 3))?;
    let cache = match get_field(json, "cache", 4) {
        None => OpencodeCacheTokens { write: 0, read: 0 },
        Some(json) => read_cache(json)?,
    };
    Some(OpencodeTokens { total, input, output, reasoning, cache })
}

// ---------------------------------------------------------------------------
// Events
// ---------------------------------------------------------------------------
pub open spec fn or_unknown(s: Option<Seq<char>>) -> Seq<char> {
    match s {
        Some(s) => s,
        None => "unknown"@,
    }
}

/// A use of the tool `tool`: `command` and `output` as texts, the exit code as a signed integer of
/// which the low 32 bits are kept.
pub open spec fn tool_use_in(part: JsonTree, tool: JsonTree) -> EventView {
    let name = or_unknown(text_of(Some(tool)));
    let state = member(part, "state"@);
    let exit = number_of(member_of(member_of(state, "metadata"@), "exit"@));
    EventView::ToolUse {
        tool: name,
        command: if name == "bash"@ {
            text_of(member_of(member_of(state, "input"@), "command"@))
        } else {
            None
        },
        exit_code: match exit {
            Some(n) => match n.signed {
                Some(code) => Some(code as i32),
                None => None,
            },
            None => None,
        },
        output: text_of(member_of(state, "output"@)),
    }
}

/// The end of a step: without readable token counts they are zero, without a number the cost is.
pub open spec fn step_finish_in(part: JsonTree) -> EventView {
    EventView::StepFinish {
        reason: or_unknown(text_of(member(part, "reason"@))),
        tokens: match member(part, "tokens"@) {
            Some(tree) => match tokens_in(tree) {
                Some(tokens) => tokens,
                None => zero_tokens(),
            },
            None => zero_tokens(),
        },
        cost_bits: match number_of(member(part, "cost"@)) {
            Some(n) => match n.double_bits {
                Some(bits) => bits,
                None => 0,
            },
            None => 0,
        },
    }
}

/// The event that a document describes: by its `type`, from its `part`.
pub open spec fn event_in(tree: JsonTree) -> Option<EventView> {
    match (text_of(member(tree, "type"@)), member(tree, "part"@)) {
        (Some(kind), Some(part)) => if kind == "step_start"@ {
            Some(EventView::StepStart)
        } else if kind == "text"@ {
            match text_of(member(part, "text"@)) {
                Some(text) => Some(EventView::Text { text }),
                None => None,
            }
        } else if kind == "tool_use"@ {
            match member(part, "tool"@) {
                Some(tool) => Some(tool_use_in(part, tool)),
                None => None,
            }
        } else if kind == "step_finish"@ {
            Some(step_finish_in(part))
        } else {
            None
        },
        _ => None,
    }
}

fn text_or_unknown(json: Option<&Json>) -> (r: String)
    ensures
        r@ == or_unknown(text_of(tree_of(json))),
{
    match read_text(json) {
        Some(s) => s,
        None => "unknown".to_owned(),
    }
}

fn read_tool_use(part: &Json, tool: &Json) -> (r: OpencodeStreamEvent)
    ensures
        r@ == tool_use_in(part@, tool@),
{
    let name = text_or_unknown(Some(tool));
    let state = part.get("state");
    let command = if str_eq(name.as_str(), "bash") {
        read_text(get_in(get_in(state, "input"), "command"))
    } else {
        None
    };
    let exit_code = match read_number(get_in(get_in(state, "metadata"), "exit")) {
        Some(n) => match n.signed {
            Some(code) => Some(code as i32),
            None => None,
        },
        None => None,
    };
    let output = read_text(get_in(state, "output"));
    OpencodeStreamEvent::ToolUse { tool: name, command, exit_code, output }
}

fn read_step_finish(part: &Json) -> (r: OpencodeStreamEvent)
    ensures
        r@ == step_finish_in(part@),
{
    let reason = text_or_unknown(part.get("reason"));
    let tokens = match part.get("tokens") {
        Some(json) => match read_tokens(json) {
            Some(tokens) => tokens,
            None => OpencodeTokens::default(),
        },
        None => OpencodeTokens::default(),
    };
    let cost_bits: u64 = match read_number(part.get("cost")) {
        Some(n) => match n.double_bits {
            Some(bits) => bits,
            None => 0,
        },
        None => 0,
    };
    OpencodeStreamEvent::StepFinish { reason, tokens, cost_bits }
}

/// Parses NDJSON lines from OpenCode's `--format json` output.
pub struct OpencodeStreamParser;

impl OpencodeStreamParser {
    /// The event that a document describes; `None` for event shapes that are not handled.
    pub fn parse_event(json: &Json) -> (r: Option<OpencodeStreamEvent>)
        ensures
            opt_event(r) == event_in(json@),
    {
        let kind = read_text(json.get("type"))?;
        let part = json.get("part")?;
        if str_eq(kind.as_str(), "step_start") {
            Some(OpencodeStreamEvent::StepStart)
        } else if str_eq(kind.as_str(), "text") {
            let text = read_text(part.get("text"))?;
            Some(OpencodeStreamEvent::Text { text })
        } else if str_eq(kind.as_str(), "tool_use") {
            let tool = part.get("tool")?;
            Some(read_tool_use(part, tool))
        } else if str_eq(kind.as_str(), "step_finish") {
            Some(read_step_finish(part))
        } else {
            None
        }
    }

    /// Parse a single line of NDJSON output.
    ///
    /// Returns `None` for empty lines, malformed JSON, or event shapes not handled (never a hard
    /// error - a single unparseable line must not abort the stream).
    pub fn parse_line(line: &str) -> (r: Option<OpencodeStreamEvent>)
        ensures
            opt_event(r) == line_event(line@),
    {
        let text = trim(line);
        if text.is_empty() {
            return None;
        }
        match parse_document(text) {
            Some(json) => OpencodeStreamParser::parse_event(&json),
            None => None,
        }
    }
}

/// The event on a line: none on a blank line, or on one that is no JSON document.
pub open spec fn line_event(line: Seq<char>) -> Option<EventView> {
    if trimmed(line).len() == 0 {
        None
    } else {
        match document_tree(trimmed(line)) {
            Some(tree) => event_in(tree),
            None => None,
        }
    }
}

/// Returns true if `command` looks like the `ralph emit` handoff call that hat instructions use
/// (`ralph emit <topic> ...`). Tells which `ToolUse` event's exit code is the authoritative
/// completion signal for the turn, as opposed to any other bash call.
pub fn command_is_ralph_emit(command: &str) -> (r: bool)
    ensures
        r == occurs_in(command@, "ralph emit"@),
{
    contains_str(command, "ralph emit")
}

// ---------------------------------------------------------------------------
// Laws
// ---------------------------------------------------------------------------
/// White space before a line and behind it makes no difference.
pub proof fn law_surrounding_space_keeps_the_event(
    front: Seq<char>,
    line: Seq<char>,
    back: Seq<char>,
)
    requires
        is_blank(front),
        is_blank(back),
    ensures
        line_event(front + line + back) == line_event(line),
{
    law_surrounding_space_is_trimmed(front, line, back);
}

/// A trimmed line has the event of the line.
pub proof fn law_trimming_keeps_the_event(line: Seq<char>)
    ensures
        line_event(trimmed(line)) == line_event(line),
{
    law_trimming_is_idempotent(line);
}

/// Only a use of `bash` carries a command.
pub proof fn law_only_bash_carries_a_command(tree: JsonTree)
    ensures
        event_in(tree) matches Some(EventView::ToolUse { tool, command, .. }) ==> tool != "bash"@
            ==> command is None,
{
}

/// A document with any other `type` than the four known ones, or without a `part`, is skipped.
pub proof fn law_unknown_types_are_skipped(tree: JsonTree)
    requires
        ({
            let kind = text_of(member(tree, "type"@));
            member(tree, "part"@) is None || (kind != Some("step_start"@) && kind != Some("text"@)
                && kind != Some("tool_use"@) && kind != Some("step_finish"@))
        }),
    ensures
        event_in(tree) is None,
{
}

/// The unsigned integer that a JSON value is, if it is one.
pub open spec fn unsigned_in(tree: Option<JsonTree>) -> Option<u64> {
    match tree {
        Some(JsonTree::Number(n)) => n.unsigned,
        _ => None,
    }
}

/// A member that is missing counts as zero.
pub open spec fn unsigned_or_zero(tree: Option<JsonTree>) -> Option<u64> {
    if tree is None {
        Some(0)
    } else {
        unsigned_in(tree)
    }
}

/// The end of a step carries exactly the six token counts of its part, and the double of its cost,
/// for every reason: where `tokens` is an object whose six counts are unsigned integers, and where
/// `cost` is a number.
pub proof fn law_step_finish_carries_tokens_and_cost(
    tree: JsonTree,
    part: JsonTree,
    tokens: JsonTree,
    cache: JsonTree,
    total: u64,
    input: u64,
    output: u64,
    reasoning: u64,
    write: u64,
    read: u64,
)
    requires
        text_of(member(tree, "type"@)) == Some("step_finish"@),
        member(tree, "part"@) == Some(part),
    ensures
        event_in(tree) is Some,
        event_in(tree)->0 is StepFinish,
        member(part, "tokens"@) == Some(tokens) && tokens is Object && member(tokens, "cache"@)
            == Some(cache) && cache is Object && unsigned_in(member(tokens, "total"@)) == Some(
            total,
        ) && unsigned_in(member(tokens, "input"@)) == Some(input) && unsigned_in(
            member(tokens, "output"@),
        ) == Some(output) && unsigned_in(member(tokens, "reasoning"@)) == Some(reasoning)
            && unsigned_in(member(cache, "write"@)) == Some(write) && unsigned_in(
            member(cache, "read"@),
        ) == Some(read) ==> event_in(tree)->0->tokens == (OpencodeTokens {
            total,
            input,
            output,
            reasoning,
            cache: OpencodeCacheTokens { write, read },
        }),
        member(part, "cost"@) matches Some(JsonTree::Number(n)) ==> n.double_bits is Some
            ==> event_in(tree)->0->cost_bits == n.double_bits->0,
        number_of(member(part, "cost"@)) is None ==> event_in(tree)->0->cost_bits == 0,
        event_in(tree)->0->reason == match text_of(member(part, "reason"@)) {
            Some(reason) => reason,
            None => "unknown"@,
        },
{
    lemma_types_differ();
}

/// Two ends of a step whose parts agree on `tokens` and on `cost` carry the same tokens and the
/// same cost, whatever else their parts hold.
pub proof fn law_tokens_and_cost_depend_on_nothing_else(
    one: JsonTree,
    other: JsonTree,
    part: JsonTree,
    another: JsonTree,
)
    requires
        text_of(member(one, "type"@)) == Some("step_finish"@),
        text_of(member(other, "type"@)) == Some("step_finish"@),
        member(one, "part"@) == Some(part),
        member(other, "part"@) == Some(another),
    ensures
        member(part, "tokens"@) == member(another, "tokens"@) ==> event_in(one)->0->tokens
            == event_in(other)->0->tokens,
        member(part, "cost"@) == member(another, "cost"@) ==> event_in(one)->0->cost_bits
            == event_in(other)->0->cost_bits,
        member(part, "reason"@) == member(another, "reason"@) ==> event_in(one)->0->reason
            == event_in(other)->0->reason,
{
    lemma_types_differ();
}

/// Of an object of counts, a missing count is zero; a count that is no unsigned integer, or a cache
/// that is neither missing nor counts itself, makes all of them zero.
pub proof fn law_bad_counts_discard_all_of_them(tree: JsonTree, part: JsonTree, tokens: JsonTree)
    requires
        text_of(member(tree, "type"@)) == Some("step_finish"@),
        member(tree, "part"@) == Some(part),
        member(part, "tokens"@) == Some(tokens),
        tokens is Object,
    ensures
        ({
            let total = unsigned_or_zero(member(tokens, "total"@));
            let input = unsigned_or_zero(member(tokens, "input"@));
            let output = unsigned_or_zero(member(tokens, "output"@));
            let reasoning = unsigned_or_zero(member(tokens, "reasoning"@));
            let cache = member(tokens, "cache"@);
            let write = unsigned_or_zero(member_of(cache, "write"@));
            let read = unsigned_or_zero(member_of(cache, "read"@));
            let counts = total is Some && input is Some && output is Some && reasoning is Some;
            &&& counts && (cache is None || (cache->0 is Object && write is Some && read is Some))
                ==> event_in(tree)->0->tokens == (OpencodeTokens {
                total: total->0,
                input: input->0,
                output: output->0,
                reasoning: reasoning->0,
                cache: OpencodeCacheTokens { write: write->0, read: read->0 },
            })
            &&& !counts || (cache is Some && cache->0 !is Object && cache->0 !is Array) || (
            cache is Some && cache->0 is Object && (write is None || read is None)) ==> event_in(
                tree,
            )->0->tokens == (OpencodeTokens {
                total: 0,
                input: 0,
                output: 0,
                reasoning: 0,
                cache: OpencodeCacheTokens { write: 0, read: 0 },
            })
        }),
{
    lemma_types_differ();
}

/// Counts may also come as arrays, in the order of their names: `total`, `input`, `output`,
/// `reasoning`, `cache`, and in the cache `write`, `read`.
pub proof fn law_counts_may_come_as_arrays(
    tree: JsonTree,
    part: JsonTree,
    items: Seq<JsonTree>,
    cache: Seq<JsonTree>,
)
    requires
        text_of(member(tree, "type"@)) == Some("step_finish"@),
        member(tree, "part"@) == Some(part),
        member(part, "tokens"@) == Some(JsonTree::Array(items)),
    ensures
        items.len() > 5 ==> event_in(tree)->0->tokens == zero_tokens(),
        items.len() == 5 && items[4] == JsonTree::Array(cache) && cache.len() == 2 && (forall|i: int|
            0 <= i < 4 ==> unsigned_in(Some(#[trigger] items[i])) is Some) && (forall|i: int|
            0 <= i < 2 ==> unsigned_in(Some(#[trigger] cache[i])) is Some) ==> event_in(
            tree,
        )->0->tokens == (OpencodeTokens {
            total: unsigned_in(Some(items[0]))->0,
            input: unsigned_in(Some(items[1]))->0,
            output: unsigned_in(Some(items[2]))->0,
            reasoning: unsigned_in(Some(items[3]))->0,
            cache: OpencodeCacheTokens {
                write: unsigned_in(Some(cache[0]))->0,
                read: unsigned_in(Some(cache[1]))->0,
            },
        }),
{
    lemma_types_differ();
}

/// What stands in a place of an array, if the array is long enough.
pub open spec fn item_at(items: Seq<JsonTree>, i: int) -> Option<JsonTree> {
    if 0 <= i < items.len() {
        Some(items[i])
    } else {
        None
    }
}

/// An array may be too short: the counts that it lacks are zero. One count that is no unsigned
/// integer discards all of them, and so does a cache array with more than two items.
pub proof fn law_short_arrays_lack_counts(
    tree: JsonTree,
    part: JsonTree,
    items: Seq<JsonTree>,
    cache: Seq<JsonTree>,
)
    requires
        text_of(member(tree, "type"@)) == Some("step_finish"@),
        member(tree, "part"@) == Some(part),
        member(part, "tokens"@) == Some(JsonTree::Array(items)),
        items.len() <= 5,
        items.len() == 5 ==> items[4] == JsonTree::Array(cache),
        items.len() < 5 ==> cache.len() == 0,
    ensures
        ({
            let total = unsigned_or_zero(item_at(items, 0));
            let input = unsigned_or_zero(item_at(items, 1));
            let output = unsigned_or_zero(item_at(items, 2));
            let reasoning = unsigned_or_zero(item_at(items, 3));
            let write = unsigned_or_zero(item_at(cache, 0));
            let read = unsigned_or_zero(item_at(cache, 1));
            let good = total is Some && input is Some && output is Some && reasoning is Some
                && write is Some && read is Some && cache.len() <= 2;
            &&& good ==> event_in(tree)->0->tokens == (OpencodeTokens {
                total: total->0,
                input: input->0,
                output: output->0,
                reasoning: reasoning->0,
                cache: OpencodeCacheTokens { write: write->0, read: read->0 },
            })
            &&& !good ==> event_in(tree)->0->tokens == zero_tokens()
        }),
{
    lemma_types_differ();
}

/// The cache counts of an object may come as an array too, with up to two items.
pub proof fn law_cache_counts_may_come_as_an_array(
    tree: JsonTree,
    part: JsonTree,
    tokens: JsonTree,
    cache: Seq<JsonTree>,
)
    requires
        text_of(member(tree, "type"@)) == Some("step_finish"@),
        member(tree, "part"@) == Some(part),
        member(part, "tokens"@) == Some(tokens),
        tokens is Object,
        member(tokens, "cache"@) == Some(JsonTree::Array(cache)),
        forall|k: Seq<char>|
            k == "total"@ || k == "input"@ || k == "output"@ || k == "reasoning"@
                ==> unsigned_or_zero(#[trigger] member(tokens, k)) is Some,
    ensures
        ({
            let write = unsigned_or_zero(item_at(cache, 0));
            let read = unsigned_or_zero(item_at(cache, 1));
            let good = write is Some && read is Some && cache.len() <= 2;
            &&& good ==> event_in(tree)->0->tokens == (OpencodeTokens {
                total: unsigned_or_zero(member(tokens, "total"@))->0,
                input: unsigned_or_zero(member(tokens, "input"@))->0,
                output: unsigned_or_zero(member(tokens, "output"@))->0,
                reasoning: unsigned_or_zero(member(tokens, "reasoning"@))->0,
                cache: OpencodeCacheTokens { write: write->0, read: read->0 },
            })
            &&& !good ==> event_in(tree)->0->tokens == zero_tokens()
        }),
{
    lemma_types_differ();
    let total = member(tokens, "total"@);
    let input = member(tokens, "input"@);
    let output = member(tokens, "output"@);
    let reasoning = member(tokens, "reasoning"@);
    assert(unsigned_or_zero(total) is Some && unsigned_or_zero(input) is Some);
    assert(unsigned_or_zero(output) is Some && unsigned_or_zero(reasoning) is Some);
}

/// Without token counts, or with a value that cannot hold them, all counts are zero.
pub proof fn law_missing_counts_are_zero(tree: JsonTree, part: JsonTree)
    requires
        text_of(member(tree, "type"@)) == Some("step_finish"@),
        member(tree, "part"@) == Some(part),
        member(part, "tokens"@) matches Some(tokens) ==> tokens !is Object && tokens !is Array,
    ensures
        event_in(tree)->0->tokens == (OpencodeTokens {
            total: 0,
            input: 0,
            output: 0,
            reasoning: 0,
            cache: OpencodeCacheTokens { write: 0, read: 0 },
        }),
{
    lemma_types_differ();
}

proof fn lemma_types_differ()
    ensures
        "step_finish"@ != "step_start"@,
        "step_finish"@ != "text"@,
        "step_finish"@ != "tool_use"@,
        "tool_use"@ != "step_start"@,
        "tool_use"@ != "text"@,
        "text"@ != "step_start"@,
{
    reveal_strlit("step_finish");
    reveal_strlit("step_start");
    reveal_strlit("text");
    reveal_strlit("tool_use");
    assert("step_finish"@.len() == 11);
    assert("step_start"@.len() == 10);
    assert("text"@.len() == 4);
    assert("tool_use"@.len() == 8);
}

/// A use of a tool carries the tool's name, the output and the exit code of its state; of `bash` it
/// also carries the command. What is missing, or is not of the right kind, is left out.
pub proof fn law_tool_use_carries_the_state(
    tree: JsonTree,
    part: JsonTree,
    tool: JsonTree,
    state: Option<JsonTree>,
)
    requires
        text_of(member(tree, "type"@)) == Some("tool_use"@),
        member(tree, "part"@) == Some(part),
        member(part, "tool"@) == Some(tool),
        state == member(part, "state"@),
    ensures
        event_in(tree) is Some,
        event_in(tree)->0 is ToolUse,
        tool matches JsonTree::String(name) ==> event_in(tree)->0->tool == name,
        tool !is String ==> event_in(tree)->0->tool == "unknown"@,
        event_in(tree)->0->output == text_of(member_of(state, "output"@)),
        tool == JsonTree::String("bash"@) ==> event_in(tree)->0->command == text_of(
            member_of(member_of(state, "input"@), "command"@),
        ),
        member_of(member_of(state, "metadata"@), "exit"@) matches Some(JsonTree::Number(n))
            ==> match n.signed {
            Some(code) => event_in(tree)->0->exit_code == Some(code as i32),
            None => event_in(tree)->0->exit_code is None,
        },
        number_of(member_of(member_of(state, "metadata"@), "exit"@)) is None ==> event_in(
            tree,
        )->0->exit_code is None,
{
    lemma_types_differ();
}

/// An exit code that fits is carried as it is.
pub proof fn law_exit_codes_that_fit_are_kept(code: i64)
    requires
        i32::MIN <= code <= i32::MAX,
    ensures
        (code as i32) as int == code as int,
{
}

/// Two uses of one tool whose states agree carry the same, whatever else their parts hold.
pub proof fn law_tool_use_depends_on_nothing_else(
    one: JsonTree,
    other: JsonTree,
    part: JsonTree,
    another: JsonTree,
)
    requires
        member(one, "type"@) == member(other, "type"@),
        text_of(member(one, "type"@)) == Some("tool_use"@),
        member(one, "part"@) == Some(part),
        member(other, "part"@) == Some(another),
        member(part, "tool"@) == member(another, "tool"@),
        member(part, "state"@) == member(another, "state"@),
    ensures
        event_in(one) == event_in(other),
{
    lemma_types_differ();
}

/// A text event carries the text of its part, and is none without one; a step starts whatever its
/// part holds; a use of a tool needs the name of the tool, if only by its place.
pub proof fn law_text_and_start_events(tree: JsonTree, part: JsonTree, text: Seq<char>)
    requires
        member(tree, "part"@) == Some(part),
    ensures
        text_of(member(tree, "type"@)) == Some("text"@) && member(part, "text"@) == Some(
            JsonTree::String(text),
        ) ==> event_in(tree) == Some(EventView::Text { text }),
        text_of(member(tree, "type"@)) == Some("text"@) && text_of(member(part, "text"@)) is None
            ==> event_in(tree) is None,
        text_of(member(tree, "type"@)) == Some("step_start"@) ==> event_in(tree) == Some(
            EventView::StepStart,
        ),
        text_of(member(tree, "type"@)) == Some("tool_use"@) && member(part, "tool"@) is None
            ==> event_in(tree) is None,
{
    lemma_types_differ();
}

/// The event of a document depends on its `type` and its `part` alone.
pub proof fn law_events_depend_on_type_and_part(one: JsonTree, other: JsonTree)
    requires
        member(one, "type"@) == member(other, "type"@),
        member(one, "part"@) == member(other, "part"@),
    ensures
        event_in(one) == event_in(other),
{
}

/// A line that is not blank, and that without white space around it is a document, has the event
/// of the document; a blank line has none, and neither has a line that is no document.
pub proof fn law_lines_hold_documents(line: Seq<char>)
    ensures
        is_blank(line) ==> line_event(line) is None,
        !is_blank(line) ==> (document_tree(trimmed(line)) matches Some(tree) ==> line_event(line)
            == event_in(tree)),
        document_tree(trimmed(line)) is None ==> line_event(line) is None,
{
    law_blank_texts_are_trimmed_away(line);
}

/// A command is an emit call exactly if `ralph emit` stands in it, whatever is around.
pub proof fn law_emit_calls_may_stand_anywhere(front: Seq<char>, back: Seq<char>)
    ensures
        occurs_in(front + "ralph emit"@ + back, "ralph emit"@),
{
    law_parts_stand_between(front, "ralph emit"@, back);
}

/// An event is seen as it is: its texts by their characters, all else as it stands.
pub proof fn law_events_are_seen_as_they_are(event: OpencodeStreamEvent)
    ensures
        opt_event(None) is None,
        opt_event(Some(event)) is Some,
        event is StepStart ==> opt_event(Some(event))->0 is StepStart,
        event matches OpencodeStreamEvent::Text { text } ==> opt_event(Some(event)) == Some(
            (EventView::Text { text: text@ }),
        ),
        event matches OpencodeStreamEvent::StepFinish { reason, tokens, cost_bits } ==> opt_event(
            Some(event),
        ) == Some((EventView::StepFinish { reason: reason@, tokens, cost_bits })),
{
}

} // verus!
