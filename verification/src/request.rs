//! What routing reads of a request: what it needs of a model, and the state that
//! its conversation carries.

use crate::json::{
    field_of, get_field, json_model, json_text, node_model, read_json, text_field, write_json,
    JsonModel, Node,
};
use crate::text::{byte_count, byte_len, same, views};
use crate::types::{text_in, Capabilities, Message, Part, Role};
use vstd::prelude::*;

verus! {

/// Whether a field holds `true`.
pub open spec fn flag_field(m: JsonModel, name: Seq<char>) -> bool {
    field_of(m, name) == Some(JsonModel::Bool(true))
}

fn get_flag(n: &Node, name: &str) -> (r: bool)
    ensures
        r == flag_field(node_model(*n), name@),
{
    match get_field(n, name) {
        Some(f) => match read_json(f) {
            Node::Bool(b) => b,
            _ => false,
        },
        None => false,
    }
}

/// What a stored list of capabilities claims of a model; what it does not name is
/// not claimed.
pub open spec fn capabilities_in(m: JsonModel) -> Capabilities {
    Capabilities {
        text: flag_field(m, "text"@),
        vision: flag_field(m, "vision"@),
        reasoning: flag_field(m, "reasoning"@),
        tool_calling: flag_field(m, "tool_calling"@),
        audio: flag_field(m, "audio"@),
    }
}

/// What a stored list of capabilities claims of a model.
pub fn read_capabilities(raw: &serde_json::Value) -> (r: Capabilities)
    ensures
        r == capabilities_in(json_model(*raw)),
{
    let n = read_json(raw);
    Capabilities {
        text: get_flag(&n, "text"),
        vision: get_flag(&n, "vision"),
        reasoning: get_flag(&n, "reasoning"),
        tool_calling: get_flag(&n, "tool_calling"),
        audio: get_flag(&n, "audio"),
    }
}

/// Whether a value, or one inside it, is an object of one of the types.
pub open spec fn mentions(m: JsonModel, kinds: Seq<Seq<char>>) -> bool
    decreases m, 0int,
{
    match m {
        JsonModel::Array(items) => some_item(items, kinds, 0),
        JsonModel::Object(fields) => (text_field(m, "type"@) matches Some(t) && kinds.contains(t))
            || some_field(fields, kinds, 0),
        _ => false,
    }
}

/// Whether an item, from `i` on, mentions one of the types.
pub open spec fn some_item(items: Seq<JsonModel>, kinds: Seq<Seq<char>>, i: int) -> bool
    decreases items, items.len() - i,
{
    if i < 0 || i >= items.len() {
        false
    } else {
        mentions(items[i], kinds) || some_item(items, kinds, i + 1)
    }
}

/// Whether a field, from `i` on, mentions one of the types.
pub open spec fn some_field(
    fields: Seq<(Seq<char>, JsonModel)>,
    kinds: Seq<Seq<char>>,
    i: int,
) -> bool
    decreases fields, fields.len() - i,
{
    if i < 0 || i >= fields.len() {
        false
    } else {
        mentions(fields[i].1, kinds) || some_field(fields, kinds, i + 1)
    }
}

fn is_kind(name: &str, kinds: &Vec<String>) -> (r: bool)
    ensures
        r == views(kinds@).contains(name@),
{
    let ghost shown = views(kinds@);
    let mut i: usize = 0;
    while i < kinds.len()
        invariant
            i <= kinds@.len(),
            shown == views(kinds@),
            forall|k: int| 0 <= k < i ==> #[trigger] shown[k] != name@,
        decreases kinds@.len() - i,
    {
        assert(shown[i as int] == kinds@[i as int]@);
        if same(kinds[i].as_str(), name) {
            return true;
        }
        i = i + 1;
    }
    false
}

fn has_mention(v: &serde_json::Value, kinds: &Vec<String>) -> (r: bool)
    ensures
        r == mentions(json_model(*v), views(kinds@)),
    decreases json_model(*v),
{
    let ghost m = json_model(*v);
    match read_json(v) {
        Node::Array(items) => {
            let ghost shown = m->Array_0;
            let mut i: usize = 0;
            while i < items.len()
                invariant
                    i <= items@.len(),
                    m == json_model(*v),
                    m == JsonModel::Array(shown),
                    shown == items@.map_values(|x: serde_json::Value| json_model(x)),
                    some_item(shown, views(kinds@), 0) == some_item(shown, views(kinds@), i as int),
                decreases items@.len() - i,
            {
                assert(shown[i as int] == json_model(items@[i as int]));
                assert(decreases_to!(m => m->Array_0));
                assert(decreases_to!(m->Array_0 => m->Array_0[i as int]));
                if has_mention(&items[i], kinds) {
                    return true;
                }
                i = i + 1;
            }
            false
        },
        Node::Object(fields) => {
            let ghost shown = m->Object_0;
            let n = Node::Object(fields);
            if let Some(f) = get_field(&n, "type") {
                if let Node::Text(t) = read_json(f) {
                    if is_kind(t.as_str(), kinds) {
                        return true;
                    }
                }
            }
            let fields = match n {
                Node::Object(f) => f,
                _ => Vec::new(),
            };
            let mut i: usize = 0;
            while i < fields.len()
                invariant
                    i <= fields@.len(),
                    m == json_model(*v),
                    m == JsonModel::Object(shown),
                    shown == fields@.map_values(
                        |f: (String, serde_json::Value)| (f.0@, json_model(f.1)),
                    ),
                    some_field(shown, views(kinds@), 0) == some_field(
                        shown,
                        views(kinds@),
                        i as int,
                    ),
                    !(text_field(m, "type"@) matches Some(t) && views(kinds@).contains(t)),
                decreases fields@.len() - i,
            {
                assert(shown[i as int] == (fields@[i as int].0@, json_model(fields@[i as int].1)));
                assert(decreases_to!(m => m->Object_0));
                assert(decreases_to!(m->Object_0 => m->Object_0[i as int]));
                assert(decreases_to!(m->Object_0[i as int] => m->Object_0[i as int].1));
                if has_mention(&fields[i].1, kinds) {
                    return true;
                }
                i = i + 1;
            }
            false
        },
        _ => false,
    }
}

/// What a request needs of a model.
#[derive(Debug, Clone, Copy, PartialEq, Eq, Structural)]
pub struct Needs {
    pub tools: bool,
    pub images: bool,
    pub reasoning: bool,
    /// A quarter of the bytes of the conversation.
    pub input_tokens: u64,
}

/// What a request needs of a model.
pub open spec fn needs_of(m: JsonModel) -> Needs {
    let messages = field_of(m, "messages"@);
    Needs {
        tools: field_of(m, "tools"@) matches Some(JsonModel::Array(items)) && items.len() > 0,
        images: messages matches Some(v) && mentions(v, seq!["image"@, "image_url"@]),
        reasoning: field_of(m, "reasoning_effort"@) is Some || field_of(m, "thinking"@) is Some,
        input_tokens: match messages {
            Some(v) => (byte_len(json_text(v)) / 4) as u64,
            None => 0,
        },
    }
}

/// What a request needs of a model.
pub fn read_needs(body: &serde_json::Value) -> (r: Needs)
    ensures
        r == needs_of(json_model(*body)),
{
    let n = read_json(body);
    let tools = match get_field(&n, "tools") {
        Some(f) => match read_json(f) {
            Node::Array(items) => items.len() > 0,
            _ => false,
        },
        None => false,
    };
    let reasoning = get_field(&n, "reasoning_effort").is_some() || get_field(
        &n,
        "thinking",
    ).is_some();
    match get_field(&n, "messages") {
        Some(messages) => {
            let mut kinds: Vec<String> = Vec::new();
            kinds.push("image".to_owned());
            kinds.push("image_url".to_owned());
            assert(views(kinds@) =~= seq!["image"@, "image_url"@]);
            let text = write_json(messages);
            Needs {
                tools,
                images: has_mention(messages, &kinds),
                reasoning,
                input_tokens: byte_count(text.as_str()) as u64 / 4,
            }
        },
        None => Needs { tools, images: false, reasoning, input_tokens: 0 },
    }
}

/// Whether a model can do what a request needs.
pub fn covers(capabilities: &Capabilities, needs: &Needs) -> (r: bool)
    ensures
        r == ((needs.tools ==> capabilities.tool_calling) && (needs.images ==> capabilities.vision)
            && (needs.reasoning ==> capabilities.reasoning)),
{
    (!needs.tools || capabilities.tool_calling) && (!needs.images || capabilities.vision) && (
    !needs.reasoning || capabilities.reasoning)
}

/// The text of a field; one that is none is empty.
pub open spec fn text_or_empty(m: JsonModel, name: Seq<char>) -> Seq<char> {
    match text_field(m, name) {
        Some(t) => t,
        None => ""@,
    }
}

/// Whether a part is what an item of a message holds: thinking, a tool call, or
/// the text of anything else.
pub open spec fn is_part(p: Part, m: JsonModel) -> bool {
    let kind = text_field(m, "type"@);
    if kind == Some("thinking"@) || kind == Some("redacted_thinking"@) {
        p matches Part::Thinking { text, signature } && text@ == text_or_empty(m, "thinking"@)
            && text_in(signature) == text_field(m, "signature"@)
    } else if kind == Some("tool_use"@) {
        p matches Part::ToolCall { id, name, arguments, signature } && id@ == text_or_empty(
            m,
            "id"@,
        ) && name@ == text_or_empty(m, "name"@) && arguments@ == (match field_of(m, "input"@) {
            Some(v) => json_text(v),
            None => ""@,
        }) && text_in(signature) == text_field(m, "signature"@)
    } else {
        p matches Part::Text(text) && text@ == text_or_empty(m, "text"@)
    }
}

/// Whether parts are what items hold, in their order.
pub open spec fn are_parts(parts: Seq<Part>, items: Seq<JsonModel>) -> bool {
    &&& parts.len() == items.len()
    &&& forall|i: int| 0 <= i < items.len() ==> is_part(#[trigger] parts[i], items[i])
}

/// The items of a list under a name; anything else has none.
pub open spec fn list_under(m: JsonModel, name: Seq<char>) -> Seq<JsonModel> {
    match field_of(m, name) {
        Some(JsonModel::Array(items)) => items,
        _ => Seq::empty(),
    }
}

fn get_or_empty(n: &Node, name: &str) -> (r: String)
    ensures
        r@ == text_or_empty(node_model(*n), name@),
{
    match get_optional(n, name) {
        Some(s) => s,
        None => "".to_owned(),
    }
}

fn get_optional(n: &Node, name: &str) -> (r: Option<String>)
    ensures
        text_in(r) == text_field(node_model(*n), name@),
{
    match get_field(n, name) {
        Some(f) => match read_json(f) {
            Node::Text(s) => Some(s),
            _ => None,
        },
        None => None,
    }
}

fn get_list(n: &Node, name: &str) -> (r: Vec<serde_json::Value>)
    ensures
        r@.map_values(|v: serde_json::Value| json_model(v)) == list_under(node_model(*n), name@),
{
    let none: Vec<serde_json::Value> = Vec::new();
    assert(none@.map_values(|v: serde_json::Value| json_model(v)) =~= Seq::<JsonModel>::empty());
    match get_field(n, name) {
        Some(f) => match read_json(f) {
            Node::Array(items) => items,
            _ => none,
        },
        None => none,
    }
}

/// Reads an item of a message.
pub fn read_part(v: &serde_json::Value) -> (r: Part)
    ensures
        is_part(r, json_model(*v)),
{
    let n = read_json(v);
    let kind = match get_optional(&n, "type") {
        Some(k) => k,
        None => {
            return Part::Text(get_or_empty(&n, "text"));
        },
    };
    if same(kind.as_str(), "thinking") || same(kind.as_str(), "redacted_thinking") {
        Part::Thinking {
            text: get_or_empty(&n, "thinking"),
            signature: get_optional(&n, "signature"),
        }
    } else if same(kind.as_str(), "tool_use") {
        let arguments = match get_field(&n, "input") {
            Some(f) => write_json(f),
            None => "".to_owned(),
        };
        Part::ToolCall {
            id: get_or_empty(&n, "id"),
            name: get_or_empty(&n, "name"),
            arguments,
            signature: get_optional(&n, "signature"),
        }
    } else {
        Part::Text(get_or_empty(&n, "text"))
    }
}

fn read_parts(items: &Vec<serde_json::Value>) -> (r: Vec<Part>)
    ensures
        are_parts(r@, items@.map_values(|v: serde_json::Value| json_model(v))),
{
    let mut parts: Vec<Part> = Vec::new();
    let mut i: usize = 0;
    while i < items.len()
        invariant
            i <= items@.len(),
            parts@.len() == i,
            forall|k: int| 0 <= k < i ==> is_part(#[trigger] parts@[k], json_model(items@[k])),
        decreases items@.len() - i,
    {
        let p = read_part(&items[i]);
        parts.push(p);
        i = i + 1;
    }
    parts
}

/// The conversation of a request, as far as the state goes that it carries: each
/// message with its parts, all as the user's.
pub fn read_conversation(body: &serde_json::Value) -> (r: Vec<Message>)
    ensures
        ({
            let items = list_under(json_model(*body), "messages"@);
            &&& r@.len() == items.len()
            &&& forall|i: int|
                0 <= i < items.len() ==> (#[trigger] r@[i]).role == Role::User && are_parts(
                    r@[i].parts@,
                    list_under(items[i], "content"@),
                )
        }),
{
    let list = get_list(&read_json(body), "messages");
    let ghost shown = list_under(json_model(*body), "messages"@);
    let mut out: Vec<Message> = Vec::new();
    let mut i: usize = 0;
    while i < list.len()
        invariant
            i <= list@.len(),
            out@.len() == i,
            shown == list@.map_values(|v: serde_json::Value| json_model(v)),
            forall|k: int|
                0 <= k < i ==> (#[trigger] out@[k]).role == Role::User && are_parts(
                    out@[k].parts@,
                    list_under(shown[k], "content"@),
                ),
        decreases list@.len() - i,
    {
        let content = get_list(&read_json(&list[i]), "content");
        assert(shown[i as int] == json_model(list@[i as int]));
        out.push(Message { role: Role::User, parts: read_parts(&content) });
        i = i + 1;
    }
    out
}

/// A capability is declared by a true flag of its own name and by nothing else.
pub proof fn law_capabilities_are_flags(m: JsonModel)
    ensures
        ({
            let c = capabilities_in(m);
            let yes = Some(JsonModel::Bool(true));
            &&& c.text <==> field_of(m, "text"@) == yes
            &&& c.vision <==> field_of(m, "vision"@) == yes
            &&& c.reasoning <==> field_of(m, "reasoning"@) == yes
            &&& c.tool_calling <==> field_of(m, "tool_calling"@) == yes
            &&& c.audio <==> field_of(m, "audio"@) == yes
        }),
{
}

proof fn lemma_some_item(items: Seq<JsonModel>, kinds: Seq<Seq<char>>, i: int, at: int)
    requires
        0 <= i <= at < items.len(),
        mentions(items[at], kinds),
    ensures
        some_item(items, kinds, i),
    decreases at - i,
{
    if i < at {
        lemma_some_item(items, kinds, i + 1, at);
    }
}

proof fn lemma_no_item(items: Seq<JsonModel>, kinds: Seq<Seq<char>>, i: int)
    requires
        0 <= i <= items.len(),
        forall|k: int| i <= k < items.len() ==> !mentions(#[trigger] items[k], kinds),
    ensures
        !some_item(items, kinds, i),
    decreases items.len() - i,
{
    if i < items.len() {
        lemma_no_item(items, kinds, i + 1);
    }
}

proof fn lemma_some_field(
    fields: Seq<(Seq<char>, JsonModel)>,
    kinds: Seq<Seq<char>>,
    i: int,
    at: int,
)
    requires
        0 <= i <= at < fields.len(),
        mentions(fields[at].1, kinds),
    ensures
        some_field(fields, kinds, i),
    decreases at - i,
{
    if i < at {
        lemma_some_field(fields, kinds, i + 1, at);
    }
}

proof fn lemma_no_field(fields: Seq<(Seq<char>, JsonModel)>, kinds: Seq<Seq<char>>, i: int)
    requires
        0 <= i <= fields.len(),
        forall|k: int| i <= k < fields.len() ==> !mentions((#[trigger] fields[k]).1, kinds),
    ensures
        !some_field(fields, kinds, i),
    decreases fields.len() - i,
{
    if i < fields.len() {
        lemma_no_field(fields, kinds, i + 1);
    }
}

/// Something of a kind is found at any depth: an object is of the kind of its
/// type, a list or an object mentions what any part of it does, and nothing else
/// mentions anything.
pub proof fn law_mentions_are_found_at_any_depth(
    m: JsonModel,
    items: Seq<JsonModel>,
    fields: Seq<(Seq<char>, JsonModel)>,
    kinds: Seq<Seq<char>>,
    i: int,
    kind: Seq<char>,
)
    ensures
        m is Object && text_field(m, "type"@) == Some(kind) && kinds.contains(kind) ==> mentions(
            m,
            kinds,
        ),
        0 <= i < items.len() && mentions(items[i], kinds) ==> mentions(
            JsonModel::Array(items),
            kinds,
        ),
        0 <= i < fields.len() && mentions(fields[i].1, kinds) ==> mentions(
            JsonModel::Object(fields),
            kinds,
        ),
        (forall|k: int| 0 <= k < items.len() ==> !mentions(#[trigger] items[k], kinds))
            ==> !mentions(JsonModel::Array(items), kinds),
        (forall|k: int| 0 <= k < fields.len() ==> !mentions((#[trigger] fields[k]).1, kinds)) && (
        text_field(JsonModel::Object(fields), "type"@) matches Some(t) ==> !kinds.contains(t))
            ==> !mentions(JsonModel::Object(fields), kinds),
        !(m is Array) && !(m is Object) ==> !mentions(m, kinds),
{
    if 0 <= i < items.len() && mentions(items[i], kinds) {
        lemma_some_item(items, kinds, 0, i);
    }
    if 0 <= i < fields.len() && mentions(fields[i].1, kinds) {
        lemma_some_field(fields, kinds, 0, i);
    }
    if forall|k: int| 0 <= k < items.len() ==> !mentions(#[trigger] items[k], kinds) {
        lemma_no_item(items, kinds, 0);
    }
    if forall|k: int| 0 <= k < fields.len() ==> !mentions((#[trigger] fields[k]).1, kinds) {
        lemma_no_field(fields, kinds, 0);
    }
}

/// A request needs tools where it brings some, images where its messages hold one
/// at any depth, and reasoning where it asks for an effort or for thinking; four
/// bytes of its messages make a token.
pub proof fn law_requests_tell_their_needs(m: JsonModel, v: JsonModel, items: Seq<JsonModel>)
    ensures
        ({
            let n = needs_of(m);
            &&& field_of(m, "tools"@) == Some(JsonModel::Array(items)) ==> (n.tools <==> items.len()
                > 0)
            &&& !(field_of(m, "tools"@) matches Some(JsonModel::Array(_))) ==> !n.tools
            &&& field_of(m, "messages"@) == Some(v) ==> (n.images <==> mentions(
                v,
                seq!["image"@, "image_url"@],
            ))
            &&& field_of(m, "messages"@) is None ==> !n.images && n.input_tokens == 0
            &&& n.reasoning <==> field_of(m, "reasoning_effort"@) is Some || field_of(
                m,
                "thinking"@,
            ) is Some
            &&& field_of(m, "messages"@) == Some(v) && byte_len(json_text(v)) <= u64::MAX
                ==> n.input_tokens * 4 <= byte_len(json_text(v)) < n.input_tokens * 4 + 4
        }),
{
}

/// A part is what its type says: thinking with its signature, a tool call with
/// its arguments, and a text otherwise.
pub proof fn law_parts_are_what_their_type_says(p: Part, m: JsonModel)
    requires
        is_part(p, m),
    ensures
        p is Thinking <==> text_field(m, "type"@) == Some("thinking"@) || text_field(m, "type"@)
            == Some("redacted_thinking"@),
        p is ToolCall <==> text_field(m, "type"@) == Some("tool_use"@),
        p matches Part::Thinking { text, signature } ==> text_in(signature) == text_field(
            m,
            "signature"@,
        ) && (text_field(m, "thinking"@) is Some ==> text_field(m, "thinking"@) == Some(text@)),
        p matches Part::ToolCall { id, name, arguments, signature } ==> text_in(signature)
            == text_field(m, "signature"@) && (text_field(m, "id"@) is Some ==> text_field(m, "id"@)
            == Some(id@)) && (text_field(m, "name"@) is Some ==> text_field(m, "name"@) == Some(
            name@,
        )) && (field_of(m, "input"@) matches Some(v) ==> arguments@ == json_text(v)),
        p matches Part::Text(text) ==> (text_field(m, "text"@) is Some ==> text_field(m, "text"@)
            == Some(text@)),
{
    reveal_strlit("thinking");
    reveal_strlit("redacted_thinking");
    reveal_strlit("tool_use");
    assert("thinking"@[1] == 'h' && "redacted_thinking"@.len() == 17 && "tool_use"@[1] == 'o'
        && "thinking"@.len() == 8 && "tool_use"@.len() == 8);
}

/// Every item is one part, in order.
pub proof fn law_items_are_parts_in_order(parts: Seq<Part>, items: Seq<JsonModel>, i: int)
    requires
        are_parts(parts, items),
    ensures
        parts.len() == items.len(),
        0 <= i < items.len() ==> is_part(parts[i], items[i]),
{
}

/// A list under a name is that list, and anything else under it is an empty one;
/// a text that is missing is empty.
pub proof fn law_missing_is_empty(m: JsonModel, name: Seq<char>, items: Seq<JsonModel>, s: Seq<char>)
    ensures
        field_of(m, name) == Some(JsonModel::Array(items)) ==> list_under(m, name) == items,
        !(field_of(m, name) matches Some(JsonModel::Array(_))) ==> list_under(m, name).len() == 0,
        text_field(m, name) == Some(s) ==> text_or_empty(m, name) == s,
        text_field(m, name) is None ==> text_or_empty(m, name).len() == 0,
{
    reveal_strlit("");
}

} // verus!
