//! The events of an upstream's stream: what one payload of each wire format
//! says. Unknown fields are passed over, and a payload that cannot be read says
//! nothing.

use crate::json::{
    count_field, field_of, get_count, get_field, get_text, json_model, json_parsed, json_text,
    node_model, parse_json, read_json, text_field, write_json, JsonModel, Node,
};
use crate::text::{finishes_with, law_parts_occur, text3, text5};
use crate::types::{text_in, FrontendFormat, TokenUsage};
use vstd::prelude::*;
use vstd::utf8::encode_utf8;

verus! {

/// One event of a stream.
#[derive(Debug)]
pub enum StreamEvent {
    /// A piece of the answer.
    TextDelta(String),
    /// A piece of the reasoning.
    ThinkingDelta(String),
    /// A tool call begins.
    ToolCallStart { index: u64, id: Option<String>, name: String },
    /// A piece of the arguments of a tool call.
    ToolCallArgsDelta { index: u64, args: String },
    /// Token counts.
    Usage(TokenUsage),
    /// The answer ends.
    Finish(String),
}

/// What a `StreamEvent` says.
pub enum EventModel {
    TextDelta(Seq<char>),
    ThinkingDelta(Seq<char>),
    ToolCallStart { index: nat, id: Option<Seq<char>>, name: Seq<char> },
    ToolCallArgsDelta { index: nat, args: Seq<char> },
    Usage(TokenUsage),
    Finish(Seq<char>),
}

impl View for StreamEvent {
    type V = EventModel;

    open spec fn view(&self) -> EventModel {
        match *self {
            StreamEvent::TextDelta(t) => EventModel::TextDelta(t@),
            StreamEvent::ThinkingDelta(t) => EventModel::ThinkingDelta(t@),
            StreamEvent::ToolCallStart { index, id, name } => EventModel::ToolCallStart {
                index: index as nat,
                id: text_in(id),
                name: name@,
            },
            StreamEvent::ToolCallArgsDelta { index, args } => EventModel::ToolCallArgsDelta {
                index: index as nat,
                args: args@,
            },
            StreamEvent::Usage(u) => EventModel::Usage(u),
            StreamEvent::Finish(t) => EventModel::Finish(t@),
        }
    }
}

/// The events as models.
pub open spec fn event_views(v: Seq<StreamEvent>) -> Seq<EventModel> {
    v.map_values(|e: StreamEvent| e@)
}

/// The items of a list; none where there is no list.
pub open spec fn items_in(m: Option<JsonModel>) -> Seq<JsonModel> {
    match m {
        Some(JsonModel::Array(items)) => items,
        _ => Seq::empty(),
    }
}

/// The first item of a list.
pub open spec fn first_in(m: Option<JsonModel>) -> Option<JsonModel> {
    if items_in(m).len() > 0 {
        Some(items_in(m)[0])
    } else {
        None
    }
}

/// A field of a value that may not be there.
pub open spec fn field_in(m: Option<JsonModel>, name: Seq<char>) -> Option<JsonModel> {
    match m {
        Some(v) => field_of(v, name),
        None => None,
    }
}

/// The text of a field of a value that may not be there.
pub open spec fn text_field_in(m: Option<JsonModel>, name: Seq<char>) -> Option<Seq<char>> {
    match m {
        Some(v) => text_field(v, name),
        None => None,
    }
}

/// The count in a field of a value that may not be there.
pub open spec fn count_field_in(m: Option<JsonModel>, name: Seq<char>) -> Option<u64> {
    match m {
        Some(v) => count_field(v, name),
        None => None,
    }
}

spec fn node_in(n: Option<Node>) -> Option<JsonModel> {
    match n {
        Some(x) => Some(node_model(x)),
        None => None,
    }
}

fn child(n: &Option<Node>, name: &str) -> (r: Option<Node>)
    ensures
        node_in(r) == field_in(node_in(*n), name@),
{
    match n {
        Some(x) => match get_field(x, name) {
            Some(v) => Some(read_json(v)),
            None => None,
        },
        None => None,
    }
}

fn child_text(n: &Option<Node>, name: &str) -> (r: Option<String>)
    ensures
        text_in(r) == text_field_in(node_in(*n), name@),
{
    match child(n, name) {
        Some(Node::Text(s)) => Some(s),
        _ => None,
    }
}

fn child_count(n: &Option<Node>, name: &str) -> (r: Option<u64>)
    ensures
        r == count_field_in(node_in(*n), name@),
{
    match n {
        Some(x) => get_count(x, name),
        None => None,
    }
}

fn list_of(n: Option<Node>) -> (r: Vec<serde_json::Value>)
    ensures
        r@.map_values(|v: serde_json::Value| json_model(v)) == items_in(node_in(n)),
{
    match n {
        Some(Node::Array(items)) => items,
        _ => {
            let none: Vec<serde_json::Value> = Vec::new();
            assert(none@.map_values(|v: serde_json::Value| json_model(v)) =~= Seq::<
                JsonModel,
            >::empty());
            none
        },
    }
}

fn first_of(n: Option<Node>) -> (r: Option<Node>)
    ensures
        node_in(r) == first_in(node_in(n)),
{
    let ghost shown = items_in(node_in(n));
    let items = list_of(n);
    if items.len() > 0 {
        assert(shown[0] == json_model(items@[0]));
        Some(read_json(&items[0]))
    } else {
        None
    }
}

/// An event where there is a text.
pub open spec fn finish_events(reason: Option<Seq<char>>) -> Seq<EventModel> {
    match reason {
        Some(t) => seq![EventModel::Finish(t)],
        None => Seq::empty(),
    }
}

fn push_event(out: &mut Vec<StreamEvent>, e: StreamEvent)
    ensures
        event_views(final(out)@) == event_views(old(out)@).push(e@),
{
    let ghost before = out@;
    out.push(e);
    assert(event_views(out@) =~= event_views(before).push(e@));
}

/// The text of a Gemini part: an answer, or reasoning.
pub open spec fn gemini_text(part: JsonModel) -> Seq<EventModel> {
    match text_field(part, "text"@) {
        Some(t) => if field_of(part, "thought"@) == Some(JsonModel::Bool(true)) {
            seq![EventModel::ThinkingDelta(t)]
        } else {
            seq![EventModel::TextDelta(t)]
        },
        None => Seq::empty(),
    }
}

/// The tool call of a Gemini part. Its arguments come whole.
pub open spec fn gemini_call(part: JsonModel, index: nat) -> Seq<EventModel> {
    let call = field_of(part, "functionCall"@);
    match text_field_in(call, "name"@) {
        Some(name) => seq![
            EventModel::ToolCallStart { index, id: text_field_in(call, "id"@), name },
            EventModel::ToolCallArgsDelta {
                index,
                args: match field_in(call, "args"@) {
                    Some(a) => json_text(a),
                    None => "{}"@,
                },
            },
        ],
        None => Seq::empty(),
    }
}

/// The events of the first `n` parts of a Gemini answer.
pub open spec fn gemini_parts(parts: Seq<JsonModel>, n: int) -> Seq<EventModel>
    decreases n,
{
    if n <= 0 {
        Seq::empty()
    } else {
        gemini_parts(parts, n - 1) + gemini_text(parts[n - 1]) + gemini_call(
            parts[n - 1],
            (n - 1) as nat,
        )
    }
}

/// The token counts of a Gemini payload.
pub open spec fn gemini_usage(m: JsonModel) -> Seq<EventModel> {
    match field_of(m, "usageMetadata"@) {
        Some(u) => seq![
            EventModel::Usage(
                TokenUsage {
                    input: count_field(u, "promptTokenCount"@),
                    output: count_field(u, "candidatesTokenCount"@),
                    cached: count_field(u, "cachedContentTokenCount"@),
                    thinking: count_field(u, "thoughtsTokenCount"@),
                },
            ),
        ],
        None => Seq::empty(),
    }
}

/// The events of a Gemini payload: those of the first candidate's parts, the
/// token counts, and the reason why it ends.
pub open spec fn gemini_model(m: JsonModel) -> Seq<EventModel> {
    let candidate = first_in(field_of(m, "candidates"@));
    let parts = items_in(field_in(field_in(candidate, "content"@), "parts"@));
    gemini_parts(parts, parts.len() as int) + gemini_usage(m) + finish_events(
        text_field_in(candidate, "finishReason"@),
    )
}

fn gemini_part(part: &serde_json::Value, index: usize, out: &mut Vec<StreamEvent>)
    ensures
        event_views(final(out)@) == event_views(old(out)@) + gemini_text(json_model(*part))
            + gemini_call(json_model(*part), index as nat),
{
    let ghost before = event_views(out@);
    let ghost m = json_model(*part);
    let node = Some(read_json(part));
    if let Some(text) = get_text(part, "text") {
        let thought = match child(&node, "thought") {
            Some(Node::Bool(b)) => b,
            _ => false,
        };
        if thought {
            push_event(out, StreamEvent::ThinkingDelta(text));
        } else {
            push_event(out, StreamEvent::TextDelta(text));
        }
    }
    assert(event_views(out@) =~= before + gemini_text(m));
    let ghost after_text = event_views(out@);
    let call = child(&node, "functionCall");
    if let Some(name) = child_text(&call, "name") {
        let id = child_text(&call, "id");
        let args = match &call {
            Some(c) => match get_field(c, "args") {
                Some(a) => write_json(a),
                None => "{}".to_owned(),
            },
            None => "{}".to_owned(),
        };
        push_event(out, StreamEvent::ToolCallStart { index: index as u64, id, name });
        push_event(out, StreamEvent::ToolCallArgsDelta { index: index as u64, args });
    }
    assert(event_views(out@) =~= after_text + gemini_call(m, index as nat));
}

/// The events of a Gemini payload that was read.
pub fn read_gemini(v: &serde_json::Value) -> (r: Vec<StreamEvent>)
    ensures
        event_views(r@) == gemini_model(json_model(*v)),
{
    let ghost m = json_model(*v);
    let node = Some(read_json(v));
    let candidate = first_of(child(&node, "candidates"));
    let content = child(&candidate, "content");
    let parts = list_of(child(&content, "parts"));
    let ghost shown = items_in(
        field_in(field_in(first_in(field_of(m, "candidates"@)), "content"@), "parts"@),
    );
    let mut out: Vec<StreamEvent> = Vec::new();
    let mut i: usize = 0;
    assert(event_views(out@) =~= gemini_parts(shown, 0));
    while i < parts.len()
        invariant
            i <= parts@.len(),
            shown == parts@.map_values(|v: serde_json::Value| json_model(v)),
            event_views(out@) == gemini_parts(shown, i as int),
        decreases parts@.len() - i,
    {
        assert(shown[i as int] == json_model(parts@[i as int]));
        gemini_part(&parts[i], i, &mut out);
        i = i + 1;
    }
    let ghost after_parts = event_views(out@);
    let usage = child(&node, "usageMetadata");
    if usage.is_some() {
        push_event(
            &mut out,
            StreamEvent::Usage(
                TokenUsage {
                    input: child_count(&usage, "promptTokenCount"),
                    output: child_count(&usage, "candidatesTokenCount"),
                    cached: child_count(&usage, "cachedContentTokenCount"),
                    thinking: child_count(&usage, "thoughtsTokenCount"),
                },
            ),
        );
    }
    assert(event_views(out@) =~= after_parts + gemini_usage(m));
    let ghost after_usage = event_views(out@);
    if let Some(reason) = child_text(&candidate, "finishReason") {
        push_event(&mut out, StreamEvent::Finish(reason));
    }
    assert(event_views(out@) =~= after_usage + finish_events(
        text_field_in(first_in(field_of(m, "candidates"@)), "finishReason"@),
    ));
    out
}

/// A piece of an OpenAI tool call.
pub open spec fn openai_call(call: JsonModel) -> Seq<EventModel> {
    let index: nat = match count_field(call, "index"@) {
        Some(n) => n as nat,
        None => 0,
    };
    let function = field_of(call, "function"@);
    let start = match text_field_in(function, "name"@) {
        Some(name) => seq![EventModel::ToolCallStart { index, id: text_field(call, "id"@), name }],
        None => Seq::empty(),
    };
    let args = match text_field_in(function, "arguments"@) {
        Some(a) => seq![EventModel::ToolCallArgsDelta { index, args: a }],
        None => Seq::empty(),
    };
    start + args
}

/// The pieces of the first `n` tool calls of an OpenAI delta.
pub open spec fn openai_calls(calls: Seq<JsonModel>, n: int) -> Seq<EventModel>
    decreases n,
{
    if n <= 0 {
        Seq::empty()
    } else {
        openai_calls(calls, n - 1) + openai_call(calls[n - 1])
    }
}

/// The text of an OpenAI delta.
pub open spec fn openai_text(delta: Option<JsonModel>) -> Seq<EventModel> {
    match text_field_in(delta, "content"@) {
        Some(t) => seq![EventModel::TextDelta(t)],
        None => Seq::empty(),
    }
}

/// The token counts of an OpenAI payload. An empty field counts as none.
pub open spec fn openai_usage(m: JsonModel) -> Seq<EventModel> {
    match field_of(m, "usage"@) {
        Some(JsonModel::Object(fields)) => {
            let u = Some(JsonModel::Object(fields));
            seq![
                EventModel::Usage(
                    TokenUsage {
                        input: count_field_in(u, "prompt_tokens"@),
                        output: count_field_in(u, "completion_tokens"@),
                        cached: count_field_in(
                            field_in(u, "prompt_tokens_details"@),
                            "cached_tokens"@,
                        ),
                        thinking: count_field_in(
                            field_in(u, "completion_tokens_details"@),
                            "reasoning_tokens"@,
                        ),
                    },
                ),
            ]
        },
        _ => Seq::empty(),
    }
}

/// The events of an OpenAI payload: those of the first choice's delta, the token
/// counts, and the reason why it ends.
pub open spec fn openai_model(m: JsonModel) -> Seq<EventModel> {
    let choice = first_in(field_of(m, "choices"@));
    let delta = field_in(choice, "delta"@);
    let calls = items_in(field_in(delta, "tool_calls"@));
    openai_text(delta) + openai_calls(calls, calls.len() as int) + openai_usage(m) + finish_events(
        text_field_in(choice, "finish_reason"@),
    )
}

fn openai_piece(call: &serde_json::Value, out: &mut Vec<StreamEvent>)
    ensures
        event_views(final(out)@) == event_views(old(out)@) + openai_call(json_model(*call)),
{
    let ghost before = event_views(out@);
    let node = Some(read_json(call));
    let index: u64 = match child_count(&node, "index") {
        Some(n) => n,
        None => 0,
    };
    let function = child(&node, "function");
    if let Some(name) = child_text(&function, "name") {
        let id = child_text(&node, "id");
        push_event(out, StreamEvent::ToolCallStart { index, id, name });
    }
    if let Some(args) = child_text(&function, "arguments") {
        push_event(out, StreamEvent::ToolCallArgsDelta { index, args });
    }
    assert(event_views(out@) =~= before + openai_call(json_model(*call)));
}

/// The events of an OpenAI payload that was read.
pub fn read_openai(v: &serde_json::Value) -> (r: Vec<StreamEvent>)
    ensures
        event_views(r@) == openai_model(json_model(*v)),
{
    let ghost m = json_model(*v);
    let node = Some(read_json(v));
    let choice = first_of(child(&node, "choices"));
    let delta = child(&choice, "delta");
    let ghost delta_model = node_in(delta);
    let mut out: Vec<StreamEvent> = Vec::new();
    assert(event_views(out@) =~= Seq::<EventModel>::empty());
    if let Some(text) = child_text(&delta, "content") {
        push_event(&mut out, StreamEvent::TextDelta(text));
    }
    assert(event_views(out@) =~= openai_text(delta_model));
    let calls = list_of(child(&delta, "tool_calls"));
    let ghost shown = items_in(field_in(delta_model, "tool_calls"@));
    let ghost head = openai_text(delta_model);
    let mut i: usize = 0;
    assert(head + openai_calls(shown, 0) =~= head);
    while i < calls.len()
        invariant
            i <= calls@.len(),
            shown == calls@.map_values(|v: serde_json::Value| json_model(v)),
            event_views(out@) == head + openai_calls(shown, i as int),
        decreases calls@.len() - i,
    {
        assert(shown[i as int] == json_model(calls@[i as int]));
        openai_piece(&calls[i], &mut out);
        i = i + 1;
        assert(event_views(out@) =~= head + openai_calls(shown, i as int));
    }
    let ghost after_calls = event_views(out@);
    let usage = child(&node, "usage");
    let is_object = match &usage {
        Some(Node::Object(_)) => true,
        _ => false,
    };
    if is_object {
        let input_details = child(&usage, "prompt_tokens_details");
        let output_details = child(&usage, "completion_tokens_details");
        push_event(
            &mut out,
            StreamEvent::Usage(
                TokenUsage {
                    input: child_count(&usage, "prompt_tokens"),
                    output: child_count(&usage, "completion_tokens"),
                    cached: child_count(&input_details, "cached_tokens"),
                    thinking: child_count(&output_details, "reasoning_tokens"),
                },
            ),
        );
    }
    assert(event_views(out@) =~= after_calls + openai_usage(m));
    let ghost after_usage = event_views(out@);
    if let Some(reason) = child_text(&choice, "finish_reason") {
        push_event(&mut out, StreamEvent::Finish(reason));
    }
    assert(event_views(out@) =~= after_usage + finish_events(
        text_field_in(first_in(field_of(m, "choices"@)), "finish_reason"@),
    ));
    out
}

/// The piece that an Anthropic delta carries: text, reasoning, or a piece of the
/// arguments of a tool call.
pub open spec fn anthropic_delta(delta: Option<JsonModel>, index: nat) -> Seq<EventModel> {
    let text = match text_field_in(delta, "text"@) {
        Some(t) => seq![EventModel::TextDelta(t)],
        None => Seq::empty(),
    };
    let thinking = match text_field_in(delta, "thinking"@) {
        Some(t) => seq![EventModel::ThinkingDelta(t)],
        None => Seq::empty(),
    };
    let args = match text_field_in(delta, "partial_json"@) {
        Some(a) => seq![EventModel::ToolCallArgsDelta { index, args: a }],
        None => Seq::empty(),
    };
    text + thinking + args
}

/// The tool call that an Anthropic content block begins.
pub open spec fn anthropic_block(block: Option<JsonModel>, index: nat) -> Seq<EventModel> {
    match text_field_in(block, "name"@) {
        Some(name) => seq![
            EventModel::ToolCallStart { index, id: text_field_in(block, "id"@), name },
        ],
        None => Seq::empty(),
    }
}

/// The token counts of an Anthropic payload.
pub open spec fn anthropic_usage(usage: Option<JsonModel>) -> Seq<EventModel> {
    match usage {
        Some(u) => seq![
            EventModel::Usage(
                TokenUsage {
                    input: count_field(u, "input_tokens"@),
                    output: count_field(u, "output_tokens"@),
                    cached: count_field(u, "cache_read_input_tokens"@),
                    thinking: None,
                },
            ),
        ],
        None => Seq::empty(),
    }
}

/// The events of an Anthropic payload: the tool call that begins, the piece that
/// is added, the token counts of the message and of the payload, and the reason
/// why it ends.
pub open spec fn anthropic_model(m: JsonModel) -> Seq<EventModel> {
    let index: nat = match count_field(m, "index"@) {
        Some(n) => n as nat,
        None => 0,
    };
    let delta = field_of(m, "delta"@);
    anthropic_block(field_of(m, "content_block"@), index) + anthropic_delta(delta, index)
        + anthropic_usage(field_in(field_of(m, "message"@), "usage"@)) + anthropic_usage(
        field_of(m, "usage"@),
    ) + finish_events(text_field_in(delta, "stop_reason"@))
}

fn push_counts(usage: &Option<Node>, out: &mut Vec<StreamEvent>)
    ensures
        event_views(final(out)@) == event_views(old(out)@) + anthropic_usage(node_in(*usage)),
{
    let ghost before = event_views(out@);
    if usage.is_some() {
        push_event(
            out,
            StreamEvent::Usage(
                TokenUsage {
                    input: child_count(usage, "input_tokens"),
                    output: child_count(usage, "output_tokens"),
                    cached: child_count(usage, "cache_read_input_tokens"),
                    thinking: None,
                },
            ),
        );
    }
    assert(event_views(out@) =~= before + anthropic_usage(node_in(*usage)));
}

/// The events of an Anthropic payload that was read.
pub fn read_anthropic(v: &serde_json::Value) -> (r: Vec<StreamEvent>)
    ensures
        event_views(r@) == anthropic_model(json_model(*v)),
{
    let ghost m = json_model(*v);
    let node = Some(read_json(v));
    let index: u64 = match child_count(&node, "index") {
        Some(n) => n,
        None => 0,
    };
    let block = child(&node, "content_block");
    let delta = child(&node, "delta");
    let message = child(&node, "message");
    let mut out: Vec<StreamEvent> = Vec::new();
    assert(event_views(out@) =~= Seq::<EventModel>::empty());
    if let Some(name) = child_text(&block, "name") {
        let id = child_text(&block, "id");
        push_event(&mut out, StreamEvent::ToolCallStart { index, id, name });
    }
    let ghost after_block = event_views(out@);
    assert(after_block =~= anthropic_block(field_of(m, "content_block"@), index as nat));
    if let Some(text) = child_text(&delta, "text") {
        push_event(&mut out, StreamEvent::TextDelta(text));
    }
    if let Some(text) = child_text(&delta, "thinking") {
        push_event(&mut out, StreamEvent::ThinkingDelta(text));
    }
    if let Some(args) = child_text(&delta, "partial_json") {
        push_event(&mut out, StreamEvent::ToolCallArgsDelta { index, args });
    }
    assert(event_views(out@) =~= after_block + anthropic_delta(
        field_of(m, "delta"@),
        index as nat,
    ));
    push_counts(&child(&message, "usage"), &mut out);
    push_counts(&child(&node, "usage"), &mut out);
    let ghost after_counts = event_views(out@);
    if let Some(reason) = child_text(&delta, "stop_reason") {
        push_event(&mut out, StreamEvent::Finish(reason));
    }
    assert(event_views(out@) =~= after_counts + finish_events(
        text_field_in(field_of(m, "delta"@), "stop_reason"@),
    ));
    out
}

/// The events of a payload that may not be JSON.
pub open spec fn events_or_none(m: Option<JsonModel>, f: spec_fn(JsonModel) -> Seq<EventModel>) -> Seq<
    EventModel,
> {
    match m {
        Some(v) => f(v),
        None => Seq::empty(),
    }
}

/// The events of a Gemini payload.
pub fn gemini_events(payload: &str) -> (r: Vec<StreamEvent>)
    ensures
        event_views(r@) == events_or_none(
            json_parsed(encode_utf8(payload@)),
            |m: JsonModel| gemini_model(m),
        ),
{
    match parse_json(payload.as_bytes()) {
        Some(v) => read_gemini(&v),
        None => {
            let none: Vec<StreamEvent> = Vec::new();
            assert(event_views(none@) =~= Seq::<EventModel>::empty());
            none
        },
    }
}

/// The events of an Anthropic payload.
pub fn anthropic_events(payload: &str) -> (r: Vec<StreamEvent>)
    ensures
        event_views(r@) == events_or_none(
            json_parsed(encode_utf8(payload@)),
            |m: JsonModel| anthropic_model(m),
        ),
{
    match parse_json(payload.as_bytes()) {
        Some(v) => read_anthropic(&v),
        None => {
            let none: Vec<StreamEvent> = Vec::new();
            assert(event_views(none@) =~= Seq::<EventModel>::empty());
            none
        },
    }
}

/// The events of an OpenAI payload.
pub fn openai_events(payload: &str) -> (r: Vec<StreamEvent>)
    ensures
        event_views(r@) == events_or_none(
            json_parsed(encode_utf8(payload@)),
            |m: JsonModel| openai_model(m),
        ),
{
    match parse_json(payload.as_bytes()) {
        Some(v) => read_openai(&v),
        None => {
            let none: Vec<StreamEvent> = Vec::new();
            assert(event_views(none@) =~= Seq::<EventModel>::empty());
            none
        },
    }
}

/// The frame that carries a payload to a client. An Anthropic client is told the
/// type of a payload that has one.
pub open spec fn client_frame_of(format: FrontendFormat, payload: Seq<char>) -> Seq<char> {
    let kind = match json_parsed(encode_utf8(payload)) {
        Some(m) => text_field(m, "type"@),
        None => None,
    };
    match (format, kind) {
        (FrontendFormat::Anthropic, Some(k)) => "event: "@ + k + "\ndata: "@ + payload + "\n\n"@,
        _ => "data: "@ + payload + "\n\n"@,
    }
}

/// The frame that carries a payload to a client.
pub fn client_frame(format: FrontendFormat, payload: &str) -> (r: String)
    ensures
        r@ == client_frame_of(format, payload@),
{
    let kind = match parse_json(payload.as_bytes()) {
        Some(v) => get_text(&v, "type"),
        None => None,
    };
    match (format, kind) {
        (FrontendFormat::Anthropic, Some(k)) => text5(
            "event: ",
            k.as_str(),
            "\ndata: ",
            payload,
            "\n\n",
        ),
        _ => text3("data: ", payload, "\n\n"),
    }
}

/// The text that events tell, in order.
pub open spec fn told(events: Seq<EventModel>) -> Seq<char>
    decreases events.len(),
{
    if events.len() == 0 {
        Seq::empty()
    } else {
        let before = told(events.drop_last());
        match events.last() {
            EventModel::TextDelta(t) => before + t,
            _ => before,
        }
    }
}

/// The thoughts that events tell, in order.
pub open spec fn thought(events: Seq<EventModel>) -> Seq<char>
    decreases events.len(),
{
    if events.len() == 0 {
        Seq::empty()
    } else {
        let before = thought(events.drop_last());
        match events.last() {
            EventModel::ThinkingDelta(t) => before + t,
            _ => before,
        }
    }
}

proof fn lemma_told(a: Seq<EventModel>, b: Seq<EventModel>)
    ensures
        told(a + b) == told(a) + told(b),
        thought(a + b) == thought(a) + thought(b),
    decreases b.len(),
{
    if b.len() == 0 {
        assert(a + b =~= a);
        assert(told(a) + told(b) =~= told(a));
        assert(thought(a) + thought(b) =~= thought(a));
    } else {
        assert((a + b).drop_last() =~= a + b.drop_last());
        assert((a + b).last() == b.last());
        lemma_told(a, b.drop_last());
        assert(told(a + b) =~= told(a) + told(b));
        assert(thought(a + b) =~= thought(a) + thought(b));
    }
}

proof fn lemma_told_one(e: EventModel)
    ensures
        told(seq![e]) == (match e {
            EventModel::TextDelta(t) => t,
            _ => Seq::empty(),
        }),
        thought(seq![e]) == (match e {
            EventModel::ThinkingDelta(t) => t,
            _ => Seq::empty(),
        }),
{
    assert(seq![e].drop_last() =~= Seq::<EventModel>::empty());
    assert(told(seq![e].drop_last()) =~= Seq::<char>::empty());
    assert(thought(seq![e].drop_last()) =~= Seq::<char>::empty());
    if let EventModel::TextDelta(t) = e {
        assert(Seq::<char>::empty() + t =~= t);
    }
    if let EventModel::ThinkingDelta(t) = e {
        assert(Seq::<char>::empty() + t =~= t);
    }
}

proof fn lemma_told_finish(reason: Option<Seq<char>>)
    ensures
        told(finish_events(reason)).len() == 0,
        thought(finish_events(reason)).len() == 0,
{
    if let Some(t) = reason {
        lemma_told_one(EventModel::Finish(t));
    }
}

/// The text of the parts of an answer, without the thoughts.
pub open spec fn text_of_parts(parts: Seq<JsonModel>, thoughts: bool, n: int) -> Seq<char>
    decreases n,
{
    if n <= 0 {
        Seq::empty()
    } else {
        let before = text_of_parts(parts, thoughts, n - 1);
        let is_thought = field_of(parts[n - 1], "thought"@) == Some(JsonModel::Bool(true));
        match text_field(parts[n - 1], "text"@) {
            Some(t) => if is_thought == thoughts {
                before + t
            } else {
                before
            },
            None => before,
        }
    }
}

proof fn lemma_gemini_parts(parts: Seq<JsonModel>, n: int)
    requires
        0 <= n <= parts.len(),
    ensures
        told(gemini_parts(parts, n)) == text_of_parts(parts, false, n),
        thought(gemini_parts(parts, n)) == text_of_parts(parts, true, n),
    decreases n,
{
    if n > 0 {
        lemma_gemini_parts(parts, n - 1);
        let part = parts[n - 1];
        let text = gemini_text(part);
        let call = gemini_call(part, (n - 1) as nat);
        lemma_told(gemini_parts(parts, n - 1) + text, call);
        lemma_told(gemini_parts(parts, n - 1), text);
        if let Some(t) = text_field(part, "text"@) {
            lemma_told_one(EventModel::TextDelta(t));
            lemma_told_one(EventModel::ThinkingDelta(t));
        }
        lemma_told_call(part, (n - 1) as nat);
        assert(told(gemini_parts(parts, n)) =~= text_of_parts(parts, false, n));
        assert(thought(gemini_parts(parts, n)) =~= text_of_parts(parts, true, n));
    }
}

proof fn lemma_told_call(part: JsonModel, index: nat)
    ensures
        told(gemini_call(part, index)).len() == 0,
        thought(gemini_call(part, index)).len() == 0,
{
    let call = gemini_call(part, index);
    if call.len() > 0 {
        assert(call =~= seq![call[0]] + seq![call[1]]);
        lemma_told(seq![call[0]], seq![call[1]]);
        lemma_told_one(call[0]);
        lemma_told_one(call[1]);
    }
}

/// The text a client is told is that of the parts of the first candidate, in
/// order and without loss; thoughts are told as thoughts and not as text.
pub proof fn law_gemini_tells_the_whole_text(m: JsonModel, c: JsonModel, parts: Seq<JsonModel>)
    requires
        first_in(field_of(m, "candidates"@)) == Some(c),
        field_in(field_of(c, "content"@), "parts"@) == Some(JsonModel::Array(parts)),
    ensures
        told(gemini_model(m)) == text_of_parts(parts, false, parts.len() as int),
        thought(gemini_model(m)) == text_of_parts(parts, true, parts.len() as int),
{
    let n = parts.len() as int;
    let a = gemini_parts(parts, n);
    let b = gemini_usage(m);
    let reason = text_field(c, "finishReason"@);
    lemma_gemini_parts(parts, n);
    lemma_told(a + b, finish_events(reason));
    lemma_told(a, b);
    lemma_told_finish(reason);
    if b.len() > 0 {
        assert(b =~= seq![b[0]]);
        lemma_told_one(b[0]);
    }
    assert(told(gemini_model(m)) =~= told(a));
    assert(thought(gemini_model(m)) =~= thought(a));
}

/// A tool call of a part is told with its name, its id and its arguments, under
/// the place of the part.
pub proof fn law_gemini_tells_every_call(
    parts: Seq<JsonModel>,
    i: int,
    n: int,
    call: JsonModel,
    name: Seq<char>,
)
    requires
        0 <= i < n <= parts.len(),
        field_of(parts[i], "functionCall"@) == Some(call),
        text_field(call, "name"@) == Some(name),
    ensures
        gemini_parts(parts, n).contains(
            EventModel::ToolCallStart { index: i as nat, id: text_field(call, "id"@), name },
        ),
        field_of(call, "args"@) matches Some(a) ==> gemini_parts(parts, n).contains(
            EventModel::ToolCallArgsDelta { index: i as nat, args: json_text(a) },
        ),
    decreases n,
{
    let all = gemini_parts(parts, n);
    let before = gemini_parts(parts, n - 1) + gemini_text(parts[n - 1]);
    let last = gemini_call(parts[n - 1], (n - 1) as nat);
    assert(all =~= before + last);
    if i == n - 1 {
        assert(all[before.len() as int] == last[0]);
        assert(all[before.len() as int + 1] == last[1]);
    } else {
        law_gemini_tells_every_call(parts, i, n - 1, call, name);
        let rest = gemini_parts(parts, n - 1);
        let start = EventModel::ToolCallStart {
            index: i as nat,
            id: text_field(call, "id"@),
            name,
        };
        let k = choose|k: int| 0 <= k < rest.len() && rest[k] == start;
        assert(all[k] == start);
        if let Some(a) = field_of(call, "args"@) {
            let args = EventModel::ToolCallArgsDelta { index: i as nat, args: json_text(a) };
            let k = choose|k: int| 0 <= k < rest.len() && rest[k] == args;
            assert(all[k] == args);
        }
    }
}

/// The text a client is told is the content of the delta of the first choice.
pub proof fn law_openai_tells_the_content(m: JsonModel, c: JsonModel, d: JsonModel, t: Seq<char>)
    requires
        first_in(field_of(m, "choices"@)) == Some(c),
        field_of(c, "delta"@) == Some(d),
        text_field(d, "content"@) == Some(t),
    ensures
        openai_model(m).len() > 0,
        openai_model(m)[0] == EventModel::TextDelta(t),
{
}

/// Every piece of a tool call is told: its start where it has a name, its
/// arguments where it has some, under its own index.
pub proof fn law_openai_tells_every_call(
    calls: Seq<JsonModel>,
    i: int,
    n: int,
    f: JsonModel,
    index: u64,
)
    requires
        0 <= i < n <= calls.len(),
        field_of(calls[i], "function"@) == Some(f),
        count_field(calls[i], "index"@) == Some(index),
    ensures
        text_field(f, "name"@) matches Some(name) ==> openai_calls(calls, n).contains(
            EventModel::ToolCallStart {
                index: index as nat,
                id: text_field(calls[i], "id"@),
                name,
            },
        ),
        text_field(f, "arguments"@) matches Some(args) ==> openai_calls(calls, n).contains(
            EventModel::ToolCallArgsDelta { index: index as nat, args },
        ),
    decreases n,
{
    let all = openai_calls(calls, n);
    let rest = openai_calls(calls, n - 1);
    let last = openai_call(calls[n - 1]);
    assert(all =~= rest + last);
    if i == n - 1 {
        if let Some(name) = text_field(f, "name"@) {
            assert(last[0] == EventModel::ToolCallStart {
                index: index as nat,
                id: text_field(calls[i], "id"@),
                name,
            });
            assert(all[rest.len() as int] == last[0]);
        }
        if let Some(args) = text_field(f, "arguments"@) {
            assert(last.last() == EventModel::ToolCallArgsDelta { index: index as nat, args });
            assert(all[all.len() - 1] == last.last());
        }
    } else {
        law_openai_tells_every_call(calls, i, n - 1, f, index);
        if let Some(name) = text_field(f, "name"@) {
            let e = EventModel::ToolCallStart {
                index: index as nat,
                id: text_field(calls[i], "id"@),
                name,
            };
            let k = choose|k: int| 0 <= k < rest.len() && rest[k] == e;
            assert(all[k] == e);
        }
        if let Some(args) = text_field(f, "arguments"@) {
            let e = EventModel::ToolCallArgsDelta { index: index as nat, args };
            let k = choose|k: int| 0 <= k < rest.len() && rest[k] == e;
            assert(all[k] == e);
        }
    }
}

/// A delta tells its text as text, its thinking as thinking and its partial
/// arguments under the index of its block; nothing is told twice.
pub proof fn law_anthropic_tells_the_delta(d: JsonModel, index: nat)
    ensures
        told(anthropic_delta(Some(d), index)) == (match text_field(d, "text"@) {
            Some(t) => t,
            None => Seq::empty(),
        }),
        thought(anthropic_delta(Some(d), index)) == (match text_field(d, "thinking"@) {
            Some(t) => t,
            None => Seq::empty(),
        }),
        text_field(d, "partial_json"@) matches Some(args) ==> anthropic_delta(
            Some(d),
            index,
        ).contains(EventModel::ToolCallArgsDelta { index, args }),
        anthropic_delta(None, index).len() == 0,
{
    let all = anthropic_delta(Some(d), index);
    let none = Seq::<EventModel>::empty();
    let a = match text_field(d, "text"@) {
        Some(t) => seq![EventModel::TextDelta(t)],
        None => none,
    };
    let b = match text_field(d, "thinking"@) {
        Some(t) => seq![EventModel::ThinkingDelta(t)],
        None => none,
    };
    let c = match text_field(d, "partial_json"@) {
        Some(args) => seq![EventModel::ToolCallArgsDelta { index, args }],
        None => none,
    };
    assert(all =~= a + b + c);
    lemma_told(a + b, c);
    lemma_told(a, b);
    if a.len() > 0 {
        lemma_told_one(a[0]);
        assert(a =~= seq![a[0]]);
    }
    if b.len() > 0 {
        lemma_told_one(b[0]);
        assert(b =~= seq![b[0]]);
    }
    if c.len() > 0 {
        lemma_told_one(c[0]);
        assert(c =~= seq![c[0]]);
        assert(all[all.len() - 1] == c[0]);
    }
    assert(told(all) =~= told(a));
    assert(thought(all) =~= thought(b));
}

/// Each count of tokens is read from its own field of the provider's report; what
/// the report leaves out stays unknown.
pub proof fn law_reports_are_read_field_by_field(m: JsonModel, u: JsonModel)
    ensures
        field_of(m, "usageMetadata"@) == Some(u) ==> gemini_usage(m) == seq![
            EventModel::Usage(
                TokenUsage {
                    input: count_field(u, "promptTokenCount"@),
                    output: count_field(u, "candidatesTokenCount"@),
                    cached: count_field(u, "cachedContentTokenCount"@),
                    thinking: count_field(u, "thoughtsTokenCount"@),
                },
            ),
        ],
        field_of(m, "usageMetadata"@) is None ==> gemini_usage(m).len() == 0,
        field_of(m, "usage"@) == Some(u) && u is Object ==> openai_usage(m).len() == 1 && (
        openai_usage(m)[0] matches EventModel::Usage(t) && t.input == count_field(
            u,
            "prompt_tokens"@,
        ) && t.output == count_field(u, "completion_tokens"@) && (field_of(
            u,
            "prompt_tokens_details"@,
        ) matches Some(d) ==> t.cached == count_field(d, "cached_tokens"@)) && (field_of(
            u,
            "completion_tokens_details"@,
        ) matches Some(d) ==> t.thinking == count_field(d, "reasoning_tokens"@))),
        field_of(m, "usage"@) is None ==> openai_usage(m).len() == 0,
        anthropic_usage(Some(u)) == seq![
            EventModel::Usage(
                TokenUsage {
                    input: count_field(u, "input_tokens"@),
                    output: count_field(u, "output_tokens"@),
                    cached: count_field(u, "cache_read_input_tokens"@),
                    thinking: None,
                },
            ),
        ],
        anthropic_usage(None).len() == 0,
{
}

/// The reason an answer ended for comes last, in the provider's words, and there
/// is none before the end.
pub proof fn law_reasons_come_last(m: JsonModel, c: JsonModel, reason: Seq<char>)
    ensures
        first_in(field_of(m, "candidates"@)) == Some(c) && text_field(c, "finishReason"@) == Some(
            reason,
        ) ==> gemini_model(m).len() > 0 && gemini_model(m).last() == EventModel::Finish(reason),
        first_in(field_of(m, "choices"@)) == Some(c) && text_field(c, "finish_reason"@) == Some(
            reason,
        ) ==> openai_model(m).len() > 0 && openai_model(m).last() == EventModel::Finish(reason),
        field_of(m, "delta"@) == Some(c) && text_field(c, "stop_reason"@) == Some(reason)
            ==> anthropic_model(m).len() > 0 && anthropic_model(m).last() == EventModel::Finish(
            reason,
        ),
{
}

/// A block that names a tool starts its call, under the index of the block.
pub proof fn law_anthropic_blocks_start_calls(b: JsonModel, index: nat, name: Seq<char>)
    ensures
        text_field(b, "name"@) == Some(name) ==> anthropic_block(Some(b), index) == seq![
            EventModel::ToolCallStart { index, id: text_field(b, "id"@), name },
        ],
        text_field(b, "name"@) is None ==> anthropic_block(Some(b), index).len() == 0,
        anthropic_block(None, index).len() == 0,
{
}

/// An event of Anthropic's is made of its block, its delta, its reports and its
/// reason, in this order, each under the index it gives.
pub proof fn law_anthropic_events_are_whole(m: JsonModel, index: u64, e: EventModel)
    requires
        count_field(m, "index"@) == Some(index),
    ensures
        anthropic_block(field_of(m, "content_block"@), index as nat).contains(e)
            ==> anthropic_model(m).contains(e),
        anthropic_delta(field_of(m, "delta"@), index as nat).contains(e) ==> anthropic_model(
            m,
        ).contains(e),
        anthropic_usage(field_of(m, "usage"@)).contains(e) ==> anthropic_model(m).contains(e),
        anthropic_usage(field_in(field_of(m, "message"@), "usage"@)).contains(e)
            ==> anthropic_model(m).contains(e),
{
    let a = anthropic_block(field_of(m, "content_block"@), index as nat);
    let b = anthropic_delta(field_of(m, "delta"@), index as nat);
    let c = anthropic_usage(field_in(field_of(m, "message"@), "usage"@));
    let d = anthropic_usage(field_of(m, "usage"@));
    let f = finish_events(text_field_in(field_of(m, "delta"@), "stop_reason"@));
    let all = a + b + c + d + f;
    assert(anthropic_model(m) == all);
    if a.contains(e) {
        let k = choose|k: int| 0 <= k < a.len() && a[k] == e;
        assert(all[k] == e);
    }
    if b.contains(e) {
        let k = choose|k: int| 0 <= k < b.len() && b[k] == e;
        assert(all[a.len() as int + k] == e);
    }
    if c.contains(e) {
        let k = choose|k: int| 0 <= k < c.len() && c[k] == e;
        assert(all[a.len() + b.len() + k] == e);
    }
    if d.contains(e) {
        let k = choose|k: int| 0 <= k < d.len() && d[k] == e;
        assert(all[a.len() + b.len() + c.len() + k] == e);
    }
}

/// Only the first of several candidates is told, and none of an empty list.
pub proof fn law_first_candidates_are_told(items: Seq<JsonModel>)
    ensures
        items.len() > 0 ==> first_in(Some(JsonModel::Array(items))) == Some(items[0]),
        items.len() == 0 ==> first_in(Some(JsonModel::Array(items))) is None,
        first_in(None) is None,
{
}

/// A frame carries the payload whole and ends with an empty line; the kind of an
/// event stands before it for the clients that expect it, and for no others.
pub proof fn law_frames_carry_the_payload(format: FrontendFormat, payload: Seq<char>, m: JsonModel)
    ensures
        ({
            let frame = client_frame_of(format, payload);
            let data = "data: "@ + payload + "\n\n"@;
            &&& finishes_with(frame, data)
            &&& format != FrontendFormat::Anthropic ==> frame == data
            &&& json_parsed(encode_utf8(payload)) is None ==> frame == data
            &&& json_parsed(encode_utf8(payload)) == Some(m) && text_field(m, "type"@) is None
                ==> frame == data
            &&& format == FrontendFormat::Anthropic && json_parsed(encode_utf8(payload)) == Some(m)
                && text_field(m, "type"@) is Some ==> frame == "event: "@ + text_field(
                m,
                "type"@,
            )->0 + "\n"@ + data
        }),
{
    let frame = client_frame_of(format, payload);
    let data = "data: "@ + payload + "\n\n"@;
    reveal_strlit("\ndata: ");
    reveal_strlit("\n");
    reveal_strlit("data: ");
    assert("\ndata: "@ =~= "\n"@ + "data: "@);
    let kind = match json_parsed(encode_utf8(payload)) {
        Some(v) => text_field(v, "type"@),
        None => None,
    };
    if let Some(k) = kind {
        assert("event: "@ + k + "\ndata: "@ + payload + "\n\n"@ =~= "event: "@ + k + "\n"@ + data);
        law_parts_occur("event: "@ + k + "\n"@, data, Seq::empty());
    }
    law_parts_occur(Seq::empty(), data, Seq::empty());
    assert(Seq::<char>::empty() + data =~= data);
}

/// An event of the OpenAI format is made of its text, its tool calls, its report
/// and its reason; nothing of these is lost.
pub proof fn law_openai_events_are_whole(
    m: JsonModel,
    c: JsonModel,
    d: JsonModel,
    calls: Seq<JsonModel>,
    e: EventModel,
)
    requires
        first_in(field_of(m, "choices"@)) == Some(c),
        field_of(c, "delta"@) == Some(d),
        field_of(d, "tool_calls"@) == Some(JsonModel::Array(calls)),
    ensures
        openai_calls(calls, calls.len() as int).contains(e) ==> openai_model(m).contains(e),
        openai_usage(m).contains(e) ==> openai_model(m).contains(e),
{
    let a = openai_text(Some(d));
    let b = openai_calls(calls, calls.len() as int);
    let u = openai_usage(m);
    let f = finish_events(text_field(c, "finish_reason"@));
    let all = a + b + u + f;
    assert(openai_model(m) == all);
    if b.contains(e) {
        let k = choose|k: int| 0 <= k < b.len() && b[k] == e;
        assert(all[a.len() as int + k] == e);
    }
    if u.contains(e) {
        let k = choose|k: int| 0 <= k < u.len() && u[k] == e;
        assert(all[a.len() + b.len() + k] == e);
    }
}

/// An event of Gemini's is made of its parts, its report and its reason; nothing
/// of these is lost.
pub proof fn law_gemini_events_are_whole(
    m: JsonModel,
    c: JsonModel,
    parts: Seq<JsonModel>,
    e: EventModel,
)
    requires
        first_in(field_of(m, "candidates"@)) == Some(c),
        field_in(field_of(c, "content"@), "parts"@) == Some(JsonModel::Array(parts)),
    ensures
        gemini_parts(parts, parts.len() as int).contains(e) ==> gemini_model(m).contains(e),
        gemini_usage(m).contains(e) ==> gemini_model(m).contains(e),
{
    let a = gemini_parts(parts, parts.len() as int);
    let u = gemini_usage(m);
    let f = finish_events(text_field(c, "finishReason"@));
    let all = a + u + f;
    assert(gemini_model(m) == all);
    if a.contains(e) {
        let k = choose|k: int| 0 <= k < a.len() && a[k] == e;
        assert(all[k] == e);
    }
    if u.contains(e) {
        let k = choose|k: int| 0 <= k < u.len() && u[k] == e;
        assert(all[a.len() as int + k] == e);
    }
}

/// A report is told also where the stream has no more to say.
pub proof fn law_reports_stand_alone(m: JsonModel, e: EventModel)
    ensures
        openai_usage(m).contains(e) ==> openai_model(m).contains(e),
        gemini_usage(m).contains(e) ==> gemini_model(m).contains(e),
{
    let choice = first_in(field_of(m, "choices"@));
    let delta = field_in(choice, "delta"@);
    let calls = items_in(field_in(delta, "tool_calls"@));
    let a = openai_text(delta) + openai_calls(calls, calls.len() as int);
    let u = openai_usage(m);
    if u.contains(e) {
        let k = choose|k: int| 0 <= k < u.len() && u[k] == e;
        assert(openai_model(m)[a.len() as int + k] == e);
    }
    let candidate = first_in(field_of(m, "candidates"@));
    let parts = items_in(field_in(field_in(candidate, "content"@), "parts"@));
    let b = gemini_parts(parts, parts.len() as int);
    let v = gemini_usage(m);
    if v.contains(e) {
        let k = choose|k: int| 0 <= k < v.len() && v[k] == e;
        assert(gemini_model(m)[b.len() as int + k] == e);
    }
}

} // verus!
