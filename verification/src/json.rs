//! JSON values: what they hold and how they print.

use crate::number::is_finite;
use crate::text::{same, views};
use vstd::prelude::*;
use vstd::utf8::encode_utf8;

verus! {

/// A JSON value of `serde_json`.
#[verifier::external_type_specification]
#[verifier::external_body]
pub struct ExValue(serde_json::Value);

/// What a JSON value holds. A number is an integer, or the bits of a finite
/// double.
pub enum JsonModel {
    Null,
    Bool(bool),
    Whole(int),
    Double(u64),
    Text(Seq<char>),
    Array(Seq<JsonModel>),
    Object(Seq<(Seq<char>, JsonModel)>),
}

/// One level of a JSON value.
pub enum Node {
    Null,
    Bool(bool),
    PosInt(u64),
    NegInt(i64),
    Double(u64),
    Text(String),
    Array(Vec<serde_json::Value>),
    Object(Vec<(String, serde_json::Value)>),
}

/// What a JSON value holds, down to its leaves.
pub uninterp spec fn json_model(v: serde_json::Value) -> JsonModel;

/// The compact text of a JSON value.
pub uninterp spec fn json_text(m: JsonModel) -> Seq<char>;

/// What one level of a JSON value holds.
pub open spec fn node_model(n: Node) -> JsonModel {
    match n {
        Node::Null => JsonModel::Null,
        Node::Bool(b) => JsonModel::Bool(b),
        Node::PosInt(v) => JsonModel::Whole(v as int),
        Node::NegInt(v) => JsonModel::Whole(v as int),
        Node::Double(bits) => JsonModel::Double(bits),
        Node::Text(s) => JsonModel::Text(s@),
        Node::Array(items) => JsonModel::Array(
            items@.map_values(|v: serde_json::Value| json_model(v)),
        ),
        Node::Object(fields) => JsonModel::Object(
            fields@.map_values(|f: (String, serde_json::Value)| (f.0@, json_model(f.1))),
        ),
    }
}

/// Tells the variants of `serde_json::Value` apart and hands out copies of the
/// fields: `Number` is read with `as_u64`, `as_i64` and `as_f64`, a double as
/// its bits. `serde_json` holds no number that is not finite.
#[verifier::external_body]
pub(crate) fn read_json(v: &serde_json::Value) -> (r: Node)
    ensures
        node_model(r) == json_model(*v),
        r matches Node::Double(bits) ==> is_finite(bits),
{
    match v {
        serde_json::Value::Null => Node::Null,
        serde_json::Value::Bool(b) => Node::Bool(*b),
        serde_json::Value::Number(n) => match (n.as_u64(), n.as_i64(), n.as_f64()) {
            (Some(u), _, _) => Node::PosInt(u),
            (_, Some(i), _) => Node::NegInt(i),
            (_, _, d) => Node::Double(d.map_or(0, |x| x.to_bits())),
        },
        serde_json::Value::String(s) => Node::Text(s.clone()),
        serde_json::Value::Array(a) => Node::Array(a.clone()),
        serde_json::Value::Object(m) => Node::Object(m.clone().into_iter().collect()),
    }
}

/// `serde_json::Value::to_string`: the compact text depends on what the value
/// holds alone.
#[verifier::external_body]
pub(crate) fn write_json(v: &serde_json::Value) -> (r: String)
    ensures
        r@ == json_text(json_model(*v)),
{
    v.to_string()
}

/// A list of texts written as a JSON array.
pub uninterp spec fn json_list_text(items: Seq<Seq<char>>) -> Seq<char>;

/// `serde_json::to_string` of a list of strings, which cannot fail: the compact
/// JSON array.
#[verifier::external_body]
pub(crate) fn write_list(items: &Vec<String>) -> (r: String)
    ensures
        r@ == json_list_text(views(items@)),
{
    serde_json::to_string(items).unwrap_or_default()
}

/// The value of the first field of a name, from `i` on.
pub open spec fn field_from(fields: Seq<(Seq<char>, JsonModel)>, name: Seq<char>, i: int) -> Option<
    JsonModel,
>
    decreases fields.len() - i,
{
    if i < 0 || i >= fields.len() {
        None
    } else if fields[i].0 == name {
        Some(fields[i].1)
    } else {
        field_from(fields, name, i + 1)
    }
}

/// The value of a field of a JSON object; a value that is no object has none.
pub open spec fn field_of(m: JsonModel, name: Seq<char>) -> Option<JsonModel> {
    match m {
        JsonModel::Object(fields) => field_from(fields, name, 0),
        _ => None,
    }
}

/// The text of a field, where it is one.
pub open spec fn text_field(m: JsonModel, name: Seq<char>) -> Option<Seq<char>> {
    match field_of(m, name) {
        Some(JsonModel::Text(s)) => Some(s),
        _ => None,
    }
}

/// The value of a field of one level of a JSON value.
pub fn get_field<'a>(n: &'a Node, name: &str) -> (r: Option<&'a serde_json::Value>)
    ensures
        match r {
            Some(v) => field_of(node_model(*n), name@) == Some(json_model(*v)),
            None => field_of(node_model(*n), name@) is None,
        },
{
    match n {
        Node::Object(fields) => {
            let ghost shown = node_model(*n)->Object_0;
            let mut i: usize = 0;
            while i < fields.len()
                invariant
                    i <= fields@.len(),
                    node_model(*n) == JsonModel::Object(shown),
                    shown.len() == fields@.len(),
                    forall|k: int|
                        0 <= k < fields@.len() ==> (#[trigger] shown[k]).0 == fields@[k].0@
                            && shown[k].1 == json_model(fields@[k].1),
                    field_from(shown, name@, 0) == field_from(shown, name@, i as int),
                decreases fields@.len() - i,
            {
                assert(shown[i as int].0 == fields@[i as int].0@);
                if same(fields[i].0.as_str(), name) {
                    return Some(&fields[i].1);
                }
                i = i + 1;
            }
            None
        },
        _ => None,
    }
}

/// The text of a field of a JSON value, where it is one.
pub fn get_text(v: &serde_json::Value, name: &str) -> (r: Option<String>)
    ensures
        match r {
            Some(s) => text_field(json_model(*v), name@) == Some(s@),
            None => text_field(json_model(*v), name@) is None,
        },
{
    let n = read_json(v);
    match get_field(&n, name) {
        Some(f) => match read_json(f) {
            Node::Text(s) => Some(s),
            _ => None,
        },
        None => None,
    }
}

/// What a JSON document holds, or what is wrong with bytes that are none.
pub uninterp spec fn json_read(bytes: Seq<u8>) -> Result<JsonModel, Seq<char>>;

/// What a JSON value that was read holds, or why none was.
pub open spec fn read_view(r: Result<serde_json::Value, String>) -> Result<JsonModel, Seq<char>> {
    match r {
        Ok(v) => Ok(json_model(v)),
        Err(e) => Err(e@),
    }
}

/// `serde_json::from_slice` into a `Value`: what the document holds, or the
/// text of the error, depends on the bytes alone.
#[verifier::external_body]
pub(crate) fn try_parse_json(bytes: &[u8]) -> (r: Result<serde_json::Value, String>)
    ensures
        read_view(r) == json_read(bytes@),
{
    serde_json::from_slice::<serde_json::Value>(bytes).map_err(|e| e.to_string())
}

/// What a JSON document holds; `None` for bytes that are no JSON document.
pub open spec fn json_parsed(bytes: Seq<u8>) -> Option<JsonModel> {
    match json_read(bytes) {
        Ok(m) => Some(m),
        Err(_) => None,
    }
}

/// What an optional JSON value holds.
pub open spec fn value_in(v: Option<serde_json::Value>) -> Option<JsonModel> {
    match v {
        Some(x) => Some(json_model(x)),
        None => None,
    }
}

/// Reads a JSON document, where the bytes are one.
pub fn parse_json(bytes: &[u8]) -> (r: Option<serde_json::Value>)
    ensures
        value_in(r) == json_parsed(bytes@),
{
    match try_parse_json(bytes) {
        Ok(v) => Some(v),
        Err(_) => None,
    }
}

/// Reads a stored JSON text; the default stands for a text that is no JSON
/// document.
pub fn stored_json(text: &str, default: serde_json::Value) -> (r: serde_json::Value)
    ensures
        json_model(r) == match json_parsed(encode_utf8(text@)) {
            Some(m) => m,
            None => json_model(default),
        },
{
    match parse_json(text.as_bytes()) {
        Some(v) => v,
        None => default,
    }
}

/// The texts of a JSON list of nothing but texts.
pub open spec fn texts_in(m: Option<JsonModel>) -> Option<Seq<Seq<char>>> {
    match m {
        Some(JsonModel::Array(items)) => if forall|i: int|
            0 <= i < items.len() ==> #[trigger] items[i] is Text {
            Some(items.map_values(|v: JsonModel| v->Text_0))
        } else {
            None
        },
        _ => None,
    }
}

/// Reads a stored JSON list of texts; anything else stands for no texts.
pub fn stored_texts(text: &str) -> (r: Vec<String>)
    ensures
        views(r@) == match texts_in(json_parsed(encode_utf8(text@))) {
            Some(t) => t,
            None => Seq::empty(),
        },
{
    let mut out: Vec<String> = Vec::new();
    assert(views(out@) =~= Seq::<Seq<char>>::empty());
    let v = match parse_json(text.as_bytes()) {
        Some(v) => v,
        None => {
            return out;
        },
    };
    let items = match read_json(&v) {
        Node::Array(items) => items,
        _ => {
            return out;
        },
    };
    let ghost shown = json_model(v)->Array_0;
    let mut i: usize = 0;
    while i < items.len()
        invariant
            i <= items@.len(),
            json_parsed(encode_utf8(text@)) == Some(JsonModel::Array(shown)),
            shown == items@.map_values(|v: serde_json::Value| json_model(v)),
            forall|k: int| 0 <= k < i ==> #[trigger] shown[k] is Text,
            views(out@) == shown.take(i as int).map_values(|v: JsonModel| v->Text_0),
        decreases items@.len() - i,
    {
        let ghost before = out@;
        assert(shown[i as int] == json_model(items@[i as int]));
        match read_json(&items[i]) {
            Node::Text(s) => {
                out.push(s);
                assert(views(out@) =~= views(before).push(s@));
                assert(shown.take(i + 1) =~= shown.take(i as int).push(shown[i as int]));
                assert(views(out@) =~= shown.take(i + 1).map_values(|v: JsonModel| v->Text_0));
            },
            _ => {
                let none: Vec<String> = Vec::new();
                assert(views(none@) =~= Seq::<Seq<char>>::empty());
                return none;
            },
        }
        i = i + 1;
    }
    assert(shown.take(i as int) =~= shown);
    out
}

/// The whole number of at most 64 bits, with its sign, that a field holds.
pub open spec fn whole_field(m: JsonModel, name: Seq<char>) -> Option<i64> {
    match field_of(m, name) {
        Some(JsonModel::Whole(n)) => if i64::MIN <= n <= i64::MAX {
            Some(n as i64)
        } else {
            None
        },
        _ => None,
    }
}

/// The whole number that a field of one level of a JSON value holds.
pub fn get_whole(n: &Node, name: &str) -> (r: Option<i64>)
    ensures
        r == whole_field(node_model(*n), name@),
{
    match get_field(n, name) {
        Some(f) => match read_json(f) {
            Node::PosInt(v) => if v <= i64::MAX as u64 {
                Some(v as i64)
            } else {
                None
            },
            Node::NegInt(v) => Some(v),
            _ => None,
        },
        None => None,
    }
}

/// The count that a field holds: a whole number of at most 64 bits.
pub open spec fn count_field(m: JsonModel, name: Seq<char>) -> Option<u64> {
    match field_of(m, name) {
        Some(JsonModel::Whole(n)) => if 0 <= n <= u64::MAX {
            Some(n as u64)
        } else {
            None
        },
        _ => None,
    }
}

/// The count that a field of one level of a JSON value holds.
pub fn get_count(n: &Node, name: &str) -> (r: Option<u64>)
    ensures
        r == count_field(node_model(*n), name@),
{
    match get_field(n, name) {
        Some(f) => match read_json(f) {
            Node::PosInt(v) => Some(v),
            Node::NegInt(v) => if v >= 0 {
                Some(v as u64)
            } else {
                None
            },
            _ => None,
        },
        None => None,
    }
}

proof fn lemma_field_from(fields: Seq<(Seq<char>, JsonModel)>, name: Seq<char>, i: int, at: int)
    requires
        0 <= i <= at <= fields.len(),
        forall|k: int| i <= k < at ==> (#[trigger] fields[k]).0 != name,
        at < fields.len() ==> fields[at].0 == name,
    ensures
        field_from(fields, name, i) == (if at < fields.len() {
            Some(fields[at].1)
        } else {
            None
        }),
    decreases at - i,
{
    if i < at {
        lemma_field_from(fields, name, i + 1, at);
    }
}

/// A field is found under its name: of several the first, and none where no field
/// has the name or the value is no object.
pub proof fn law_fields_are_found_by_name(
    fields: Seq<(Seq<char>, JsonModel)>,
    name: Seq<char>,
    at: int,
    m: JsonModel,
)
    ensures
        0 <= at < fields.len() && fields[at].0 == name && (forall|k: int|
            0 <= k < at ==> (#[trigger] fields[k]).0 != name) ==> field_of(
            JsonModel::Object(fields),
            name,
        ) == Some(fields[at].1),
        (forall|k: int| 0 <= k < fields.len() ==> (#[trigger] fields[k]).0 != name) ==> field_of(
            JsonModel::Object(fields),
            name,
        ) is None,
        !(m is Object) ==> field_of(m, name) is None,
{
    if 0 <= at < fields.len() && fields[at].0 == name && (forall|k: int|
        0 <= k < at ==> (#[trigger] fields[k]).0 != name) {
        lemma_field_from(fields, name, 0, at);
    }
    if forall|k: int| 0 <= k < fields.len() ==> (#[trigger] fields[k]).0 != name {
        lemma_field_from(fields, name, 0, fields.len() as int);
    }
}

/// A field is read as what it is: a text as a text, a whole number as that number
/// where it fits; anything else under the name is not read.
pub proof fn law_fields_are_read_by_kind(m: JsonModel, name: Seq<char>, s: Seq<char>, n: int)
    ensures
        text_field(m, name) == Some(s) <==> field_of(m, name) == Some(JsonModel::Text(s)),
        i64::MIN <= n <= i64::MAX ==> (whole_field(m, name) == Some(n as i64) <==> field_of(m, name)
            == Some(JsonModel::Whole(n))),
        0 <= n <= u64::MAX ==> (count_field(m, name) == Some(n as u64) <==> field_of(m, name)
            == Some(JsonModel::Whole(n))),
        field_of(m, name) == Some(JsonModel::Whole(n)) && n < 0 ==> count_field(m, name) is None,
        field_of(m, name) is None ==> text_field(m, name) is None && whole_field(m, name) is None
            && count_field(m, name) is None,
{
}

/// A list of texts is read item by item; a list with anything else in it, or a
/// value that is no list, is none.
pub proof fn law_lists_of_texts(items: Seq<JsonModel>, texts: Seq<Seq<char>>, i: int, m: JsonModel)
    ensures
        texts_in(Some(JsonModel::Array(items))) == Some(texts) <==> items.len() == texts.len() && (
        forall|k: int|
            0 <= k < items.len() ==> #[trigger] items[k] == JsonModel::Text(texts[k])),
        0 <= i < items.len() && !(items[i] is Text) ==> texts_in(
            Some(JsonModel::Array(items)),
        ) is None,
        !(m is Array) ==> texts_in(Some(m)) is None,
        texts_in(None) is None,
{
    let r = texts_in(Some(JsonModel::Array(items)));
    if r == Some(texts) {
        assert forall|k: int| 0 <= k < items.len() implies #[trigger] items[k] == JsonModel::Text(
            texts[k],
        ) by {
            assert(items[k] is Text);
        }
    }
    if items.len() == texts.len() && (forall|k: int|
        0 <= k < items.len() ==> #[trigger] items[k] == JsonModel::Text(texts[k])) {
        assert(items.map_values(|v: JsonModel| v->Text_0) =~= texts);
    }
}

} // verus!
