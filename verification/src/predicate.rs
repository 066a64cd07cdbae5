//! Executable Route predicates.
//!
//! A predicate is a deterministic expression tree over facts about a request
//! and a candidate target. Evaluation is three-valued: a fact that cannot be
//! established is unknown, never guessed. Each evaluation also explains itself.

use crate::json::{json_model, json_text, node_model, read_json, write_json, JsonModel, Node};
use crate::number::{
    compare_whole, law_small_numbers_are_exact, nearly_equal, nearly_equals, units, Number, Standing,
};
use crate::text::{
    byte_count, byte_len, can_cut, contains, contains_part, cuts_at, head, head_of, join, joined, law_parts_occur, same, trim,
    trim_of, views,
};
use crate::types::Capabilities;
use vstd::prelude::*;

verus! {

/// A truth value that may be unknown.
#[derive(Debug, Clone, Copy, PartialEq, Eq, Structural)]
pub enum Tri {
    True,
    False,
    Unknown,
}

/// The three-valued form of a truth value.
pub open spec fn tri(b: bool) -> Tri {
    if b {
        Tri::True
    } else {
        Tri::False
    }
}

/// Three-valued negation.
pub open spec fn tri_not(a: Tri) -> Tri {
    match a {
        Tri::True => Tri::False,
        Tri::False => Tri::True,
        Tri::Unknown => Tri::Unknown,
    }
}

impl Tri {
    pub fn from_bool(b: bool) -> (r: Self)
        ensures
            r == tri(b),
    {
        if b {
            Tri::True
        } else {
            Tri::False
        }
    }

    pub fn is_true(self) -> (r: bool)
        ensures
            r == (self is True),
    {
        matches!(self, Tri::True)
    }

    pub fn as_str(self) -> (r: &'static str)
        ensures
            r@ == (match self {
                Tri::True => "true"@,
                Tri::False => "false"@,
                Tri::Unknown => "unknown"@,
            }),
    {
        match self {
            Tri::True => "true",
            Tri::False => "false",
            Tri::Unknown => "unknown",
        }
    }
}

/// How an unknown result affects a target. The admin chooses.
#[derive(Debug, Clone, Copy, PartialEq, Eq, Structural)]
pub enum WhenUnknown {
    /// The target is not eligible: the default.
    Skip,
    /// The target remains eligible.
    Allow,
}

impl Default for WhenUnknown {
    fn default() -> (r: Self)
        ensures
            r == WhenUnknown::Skip,
    {
        WhenUnknown::Skip
    }
}

/// A reference to a fact.
#[derive(Debug, Clone, PartialEq, Eq)]
pub enum FactRef {
    /// A fact name with no argument.
    Bare(String),
    /// A parameterized fact.
    Detailed { name: String, arg: Option<String> },
}

impl FactRef {
    /// The name of the fact.
    pub open spec fn spec_name(self) -> Seq<char> {
        match self {
            FactRef::Bare(n) => n@,
            FactRef::Detailed { name, .. } => name@,
        }
    }

    /// The argument of the fact.
    pub open spec fn spec_arg(self) -> Option<Seq<char>> {
        match self {
            FactRef::Bare(_) => None,
            FactRef::Detailed { arg: Some(a), .. } => Some(a@),
            FactRef::Detailed { arg: None, .. } => None,
        }
    }

    pub fn name(&self) -> (r: &str)
        ensures
            r@ == self.spec_name(),
    {
        match self {
            FactRef::Bare(n) => n.as_str(),
            FactRef::Detailed { name, .. } => name.as_str(),
        }
    }

    pub fn arg(&self) -> (r: Option<&str>)
        ensures
            match r {
                Some(a) => self.spec_arg() == Some(a@),
                None => self.spec_arg() is None,
            },
    {
        match self {
            FactRef::Bare(_) => None,
            FactRef::Detailed { arg, .. } => match arg {
                Some(a) => Some(a.as_str()),
                None => None,
            },
        }
    }
}

/// A comparison between a fact and a value.
#[derive(Debug, Clone, Copy, PartialEq, Eq, Structural)]
pub enum CmpOp {
    Eq,
    Ne,
    Lt,
    Lte,
    Gt,
    Gte,
    In,
    NotIn,
    Contains,
}

/// How a comparison is written.
pub open spec fn op_text(op: CmpOp) -> Seq<char> {
    match op {
        CmpOp::Eq => "=="@,
        CmpOp::Ne => "!="@,
        CmpOp::Lt => "<"@,
        CmpOp::Lte => "<="@,
        CmpOp::Gt => ">"@,
        CmpOp::Gte => ">="@,
        CmpOp::In => "in"@,
        CmpOp::NotIn => "not in"@,
        CmpOp::Contains => "contains"@,
    }
}

fn op_str(op: CmpOp) -> (r: &'static str)
    ensures
        r@ == op_text(op),
{
    match op {
        CmpOp::Eq => "==",
        CmpOp::Ne => "!=",
        CmpOp::Lt => "<",
        CmpOp::Lte => "<=",
        CmpOp::Gt => ">",
        CmpOp::Gte => ">=",
        CmpOp::In => "in",
        CmpOp::NotIn => "not in",
        CmpOp::Contains => "contains",
    }
}

/// A predicate expression tree.
#[derive(Debug, PartialEq)]
pub enum Predicate {
    /// A literal.
    Const(bool),
    /// True where every part is.
    And { and: Vec<Predicate> },
    /// True where some part is.
    Or { or: Vec<Predicate> },
    /// True where the part is false.
    Not { not: Box<Predicate> },
    /// A fact compared with a value.
    Cmp { fact: FactRef, op: CmpOp, value: serde_json::Value },
}

/// The stored shape of a target predicate: the expression, and the policy for
/// an unknown result.
#[derive(Debug)]
pub struct TargetPredicate {
    pub expr: Option<Predicate>,
    pub when_unknown: WhenUnknown,
}

impl Default for TargetPredicate {
    fn default() -> (r: Self)
        ensures
            r == (TargetPredicate { expr: None, when_unknown: WhenUnknown::Skip }),
    {
        TargetPredicate { expr: None, when_unknown: WhenUnknown::Skip }
    }
}

/// Whether a stored text stands for no predicate at all.
pub open spec fn means_nothing(raw: Seq<char>) -> bool {
    trim_of(raw) == ""@ || trim_of(raw) == "{}"@ || trim_of(raw) == "null"@
}

impl TargetPredicate {
    pub fn is_empty(&self) -> (r: bool)
        ensures
            r == (self.expr is None),
    {
        self.expr.is_none()
    }

    /// The target predicate of a stored text. `envelope` and `bare` are what
    /// the text deserializes to as a target predicate and as a bare expression.
    /// An empty text, `{}` and `null` mean "always eligible", and so does a
    /// text that is neither.
    pub fn parse(raw: &str, envelope: Option<TargetPredicate>, bare: Option<Predicate>) -> (r: Self)
        ensures
            r == (if means_nothing(raw@) {
                TargetPredicate { expr: None, when_unknown: WhenUnknown::Skip }
            } else if envelope is Some && envelope->0.expr is Some {
                envelope->0
            } else {
                TargetPredicate { expr: bare, when_unknown: WhenUnknown::Skip }
            }),
    {
        let text = trim(raw);
        if same(text.as_str(), "") || same(text.as_str(), "{}") || same(text.as_str(), "null") {
            return TargetPredicate::default();
        }
        if let Some(tp) = envelope {
            if tp.expr.is_some() {
                return tp;
            }
        }
        TargetPredicate { expr: bare, when_unknown: WhenUnknown::Skip }
    }
}

/// Facts about the request itself.
#[derive(Debug, Clone)]
pub struct RequestFacts<'a> {
    pub frontend: &'a str,
    /// The model name the client asked for.
    pub requested_model: &'a str,
    /// The Route name, when the request resolved to a Route.
    pub requested_route: Option<&'a str>,
    /// The virtual key's free-form tag, when present.
    pub key_tag: Option<&'a str>,
    pub has_tools: bool,
    pub has_images: bool,
    pub has_reasoning: bool,
    pub input_tokens: u64,
}

/// Facts about one candidate target.
#[derive(Debug, Clone)]
pub struct TargetFacts<'a> {
    pub model_id: &'a str,
    pub model_display: &'a str,
    pub provider_id: &'a str,
    pub provider_name: &'a str,
    pub capabilities: &'a Capabilities,
    /// The raw capabilities JSON, which tells "declared false" from "not
    /// configured".
    pub capabilities_raw: &'a serde_json::Value,
    pub context_window: Option<i64>,
    pub max_output_tokens: Option<i64>,
}

/// The outcome of an evaluation: the result and its explanation.
#[derive(Debug, Clone)]
pub struct Eval {
    pub result: Tri,
    pub explanation: String,
}

/// What an `Eval` says.
pub struct Outcome {
    pub result: Tri,
    pub explanation: Seq<char>,
}

impl View for Eval {
    type V = Outcome;

    open spec fn view(&self) -> Outcome {
        Outcome { result: self.result, explanation: self.explanation@ }
    }
}

/// The value of a fact.
pub enum FactValue {
    Flag(bool),
    Text(String),
    Count(i128),
}

/// What a fact says.
pub enum Fact {
    Flag(bool),
    Text(Seq<char>),
    Count(i128),
}

impl View for FactValue {
    type V = Fact;

    open spec fn view(&self) -> Fact {
        match *self {
            FactValue::Flag(b) => Fact::Flag(b),
            FactValue::Text(s) => Fact::Text(s@),
            FactValue::Count(n) => Fact::Count(n),
        }
    }
}

impl FactValue {
    /// Whether a count is one that a JSON number can hold.
    pub open spec fn wf(self) -> bool {
        self matches FactValue::Count(n) ==> -0x8000_0000_0000_0000 <= n <= 0xffff_ffff_ffff_ffff
    }
}

/// The names under which a capability can be declared.
pub open spec fn declared_names(name: Seq<char>) -> Seq<Seq<char>> {
    if name == "tool_calling"@ {
        seq!["tool_calling"@, "tools"@, "tool_calls"@]
    } else {
        seq![name]
    }
}

/// Whether one of the fields has that name.
pub open spec fn field_named(fields: Seq<(Seq<char>, JsonModel)>, name: Seq<char>) -> bool {
    exists|i: int| 0 <= i < fields.len() && (#[trigger] fields[i]).0 == name
}

/// Whether a JSON value is an object with a field of that name.
pub open spec fn has_field(m: JsonModel, name: Seq<char>) -> bool {
    m matches JsonModel::Object(fields) && field_named(fields, name)
}

/// Whether the capabilities JSON declares a capability, true or false.
pub open spec fn declares(m: JsonModel, name: Seq<char>) -> bool {
    exists|k: int|
        0 <= k < declared_names(name).len() && has_field(m, #[trigger] declared_names(name)[k])
}

/// What the configuration says of a declared capability.
pub open spec fn capability(caps: Capabilities, name: Seq<char>) -> bool {
    if name == "text"@ {
        caps.text
    } else if name == "vision"@ {
        caps.vision
    } else if name == "reasoning"@ {
        caps.reasoning
    } else if name == "tool_calling"@ || name == "tools"@ {
        caps.tool_calling
    } else if name == "audio"@ {
        caps.audio
    } else {
        false
    }
}

/// The text of an optional fact.
pub open spec fn optional_text(s: Option<&str>) -> Option<Fact> {
    match s {
        Some(v) => Some(Fact::Text(v@)),
        None => None,
    }
}

/// The number of an optional fact.
pub open spec fn optional_count(n: Option<i64>) -> Option<Fact> {
    match n {
        Some(v) => Some(Fact::Count(v as i128)),
        None => None,
    }
}

/// What is known of a fact; `None` where nothing is.
pub open spec fn fact_of(
    name: Seq<char>,
    arg: Option<Seq<char>>,
    req: RequestFacts,
    t: TargetFacts,
) -> Option<Fact> {
    if name == "has_tools"@ {
        Some(Fact::Flag(req.has_tools))
    } else if name == "has_images"@ {
        Some(Fact::Flag(req.has_images))
    } else if name == "has_reasoning"@ {
        Some(Fact::Flag(req.has_reasoning))
    } else if name == "frontend"@ {
        Some(Fact::Text(req.frontend@))
    } else if name == "requested_alias"@ || name == "requested_model"@ {
        Some(Fact::Text(req.requested_model@))
    } else if name == "requested_route"@ {
        optional_text(req.requested_route)
    } else if name == "key_tag"@ {
        optional_text(req.key_tag)
    } else if name == "input_tokens"@ {
        Some(Fact::Count(req.input_tokens as i128))
    } else if name == "target_model"@ || name == "target_model_id"@ {
        Some(Fact::Text(t.model_id@))
    } else if name == "target_provider"@ || name == "target_provider_id"@ {
        Some(Fact::Text(t.provider_id@))
    } else if name == "target_capability"@ {
        match arg {
            Some(cap) => if declares(json_model(*t.capabilities_raw), cap) {
                Some(Fact::Flag(capability(*t.capabilities, cap)))
            } else {
                None
            },
            None => None,
        }
    } else if name == "target_context_window"@ {
        optional_count(t.context_window)
    } else if name == "target_max_output_tokens"@ {
        optional_count(t.max_output_tokens)
    } else {
        None
    }
}

fn capability_flag(caps: &Capabilities, name: &str) -> (r: bool)
    ensures
        r == capability(*caps, name@),
{
    if same(name, "text") {
        caps.text
    } else if same(name, "vision") {
        caps.vision
    } else if same(name, "reasoning") {
        caps.reasoning
    } else if same(name, "tool_calling") || same(name, "tools") {
        caps.tool_calling
    } else if same(name, "audio") {
        caps.audio
    } else {
        false
    }
}

/// Whether one level of a JSON value is an object with a field of that name.
fn node_has_field(n: &Node, name: &str) -> (r: bool)
    ensures
        r == has_field(node_model(*n), name@),
{
    match n {
        Node::Object(fields) => {
            let ghost shown = node_model(*n)->Object_0;
            let mut i: usize = 0;
            while i < fields.len()
                invariant
                    i <= fields@.len(),
                    node_model(*n) == JsonModel::Object(shown),
                    shown.len() == fields@.len(),
                    forall|k: int| 0 <= k < fields@.len() ==> (#[trigger] shown[k]).0 == fields@[k].0@,
                    forall|k: int| 0 <= k < i ==> (#[trigger] shown[k]).0 != name@,
                decreases fields@.len() - i,
            {
                if same(fields[i].0.as_str(), name) {
                    assert(shown[i as int].0 == name@);
                    return true;
                }
                i = i + 1;
            }
            false
        },
        _ => false,
    }
}

/// Whether the capabilities JSON, given by its outermost level, declares a
/// capability.
fn capabilities_declared(raw: &Node, name: &str) -> (r: bool)
    ensures
        r == declares(node_model(*raw), name@),
{
    let ghost m = node_model(*raw);
    let ghost names = declared_names(name@);
    if same(name, "tool_calling") {
        let found = node_has_field(raw, "tool_calling") || node_has_field(raw, "tools")
            || node_has_field(raw, "tool_calls");
        proof {
            assert(names[0] == "tool_calling"@ && names[1] == "tools"@ && names[2]
                == "tool_calls"@);
            assert(has_field(m, names[0]) || has_field(m, names[1]) || has_field(m, names[2])
                ==> declares(m, name@));
        }
        found
    } else {
        proof {
            assert(names[0] == name@);
        }
        node_has_field(raw, name)
    }
}

/// The value of a fact, or `None` when the fact is unknown.
fn fact_value(fact: &FactRef, req: &RequestFacts<'_>, t: &TargetFacts<'_>) -> (r: Option<FactValue>)
    ensures
        match r {
            Some(v) => v.wf() && fact_of(fact.spec_name(), fact.spec_arg(), *req, *t) == Some(v@),
            None => fact_of(fact.spec_name(), fact.spec_arg(), *req, *t) is None,
        },
{
    let name = fact.name();
    if same(name, "has_tools") {
        Some(FactValue::Flag(req.has_tools))
    } else if same(name, "has_images") {
        Some(FactValue::Flag(req.has_images))
    } else if same(name, "has_reasoning") {
        Some(FactValue::Flag(req.has_reasoning))
    } else if same(name, "frontend") {
        Some(FactValue::Text(req.frontend.to_owned()))
    } else if same(name, "requested_alias") || same(name, "requested_model") {
        Some(FactValue::Text(req.requested_model.to_owned()))
    } else if same(name, "requested_route") {
        match req.requested_route {
            Some(v) => Some(FactValue::Text(v.to_owned())),
            None => None,
        }
    } else if same(name, "key_tag") {
        match req.key_tag {
            Some(v) => Some(FactValue::Text(v.to_owned())),
            None => None,
        }
    } else if same(name, "input_tokens") {
        Some(FactValue::Count(req.input_tokens as i128))
    } else if same(name, "target_model") || same(name, "target_model_id") {
        Some(FactValue::Text(t.model_id.to_owned()))
    } else if same(name, "target_provider") || same(name, "target_provider_id") {
        Some(FactValue::Text(t.provider_id.to_owned()))
    } else if same(name, "target_capability") {
        match fact.arg() {
            Some(cap) => {
                let raw = read_json(t.capabilities_raw);
                if capabilities_declared(&raw, cap) {
                    Some(FactValue::Flag(capability_flag(t.capabilities, cap)))
                } else {
                    None
                }
            },
            None => None,
        }
    } else if same(name, "target_context_window") {
        match t.context_window {
            Some(v) => Some(FactValue::Count(v as i128)),
            None => None,
        }
    } else if same(name, "target_max_output_tokens") {
        match t.max_output_tokens {
            Some(v) => Some(FactValue::Count(v as i128)),
            None => None,
        }
    } else {
        None
    }
}

/// A value that a fact is compared with. Nulls and nested values equal no fact.
pub enum Atom {
    Other,
    Flag(bool),
    Text(String),
    Count(Number),
}

/// What an `Atom` holds.
pub enum AtomModel {
    Other,
    Flag(bool),
    Text(Seq<char>),
    Count(Number),
}

impl View for Atom {
    type V = AtomModel;

    open spec fn view(&self) -> AtomModel {
        match *self {
            Atom::Other => AtomModel::Other,
            Atom::Flag(b) => AtomModel::Flag(b),
            Atom::Text(s) => AtomModel::Text(s@),
            Atom::Count(n) => AtomModel::Count(n),
        }
    }
}

impl Atom {
    /// Whether a number is one that a JSON document can hold.
    pub open spec fn wf(self) -> bool {
        self matches Atom::Count(n) ==> crate::number::is_json_number(n)
    }
}

/// What a comparison compares with: one value, or the items of an array.
pub enum Operand {
    One(Atom),
    Many(Vec<Atom>),
}

/// What an `Operand` holds.
pub enum OperandModel {
    One(AtomModel),
    Many(Seq<AtomModel>),
}

impl View for Operand {
    type V = OperandModel;

    open spec fn view(&self) -> OperandModel {
        match *self {
            Operand::One(a) => OperandModel::One(a@),
            Operand::Many(items) => OperandModel::Many(items@.map_values(|a: Atom| a@)),
        }
    }
}

/// Whether every number among the items is one that a JSON document can hold.
pub open spec fn all_wf(items: Seq<Atom>) -> bool {
    forall|i: int| 0 <= i < items.len() ==> (#[trigger] items[i]).wf()
}

impl Operand {
    pub open spec fn wf(self) -> bool {
        match self {
            Operand::One(a) => a.wf(),
            Operand::Many(items) => all_wf(items@),
        }
    }
}

/// A JSON value as a comparison sees it.
pub open spec fn atom_of(m: JsonModel) -> AtomModel {
    match m {
        JsonModel::Bool(b) => AtomModel::Flag(b),
        JsonModel::Text(s) => AtomModel::Text(s),
        JsonModel::Whole(v) => AtomModel::Count(Number::Whole(v as i128)),
        JsonModel::Double(bits) => AtomModel::Count(Number::Double(bits)),
        _ => AtomModel::Other,
    }
}

/// A JSON value as the right-hand side of a comparison.
pub open spec fn operand_of(m: JsonModel) -> OperandModel {
    match m {
        JsonModel::Array(items) => OperandModel::Many(items.map_values(|v: JsonModel| atom_of(v))),
        _ => OperandModel::One(atom_of(m)),
    }
}

fn read_atom(v: &serde_json::Value) -> (r: Atom)
    ensures
        r.wf(),
        r@ == atom_of(json_model(*v)),
{
    match read_json(v) {
        Node::Bool(b) => Atom::Flag(b),
        Node::Text(s) => Atom::Text(s),
        Node::PosInt(n) => Atom::Count(Number::Whole(n as i128)),
        Node::NegInt(n) => Atom::Count(Number::Whole(n as i128)),
        Node::Double(bits) => Atom::Count(Number::Double(bits)),
        _ => Atom::Other,
    }
}

fn read_operand(v: &serde_json::Value) -> (r: Operand)
    ensures
        r.wf(),
        r@ == operand_of(json_model(*v)),
{
    match read_json(v) {
        Node::Array(items) => {
            let mut out: Vec<Atom> = Vec::new();
            let mut i: usize = 0;
            while i < items.len()
                invariant
                    i <= items@.len(),
                    out@.len() == i,
                    forall|k: int|
                        0 <= k < i ==> (#[trigger] out@[k]).wf() && out@[k]@ == atom_of(
                            json_model(items@[k]),
                        ),
                decreases items@.len() - i,
            {
                out.push(read_atom(&items[i]));
                i = i + 1;
            }
            proof {
                assert(out@.map_values(|a: Atom| a@) =~= operand_of(json_model(*v))->Many_0);
            }
            Operand::Many(out)
        },
        _ => Operand::One(read_atom(v)),
    }
}

/// Whether a fact equals a value. Numbers are equal where they are nearly so
/// as doubles.
pub open spec fn fact_equals(f: Fact, a: AtomModel) -> bool {
    match (f, a) {
        (Fact::Flag(x), AtomModel::Flag(y)) => x == y,
        (Fact::Text(x), AtomModel::Text(y)) => x == y,
        (Fact::Count(x), AtomModel::Count(y)) => nearly_equal(units(Number::Whole(x)), units(y)),
        _ => false,
    }
}

fn equals(f: &FactValue, a: &Atom) -> (r: bool)
    requires
        f.wf(),
        a.wf(),
    ensures
        r == fact_equals(f@, a@),
{
    match (f, a) {
        (FactValue::Flag(x), Atom::Flag(y)) => *x == *y,
        (FactValue::Text(x), Atom::Text(y)) => same(x.as_str(), y.as_str()),
        (FactValue::Count(x), Atom::Count(y)) => nearly_equals(*x, *y),
        _ => false,
    }
}

/// Whether two numbers stand in an order.
pub open spec fn ordered(op: CmpOp, a: int, b: int) -> bool {
    match op {
        CmpOp::Lt => a < b,
        CmpOp::Lte => a <= b,
        CmpOp::Gt => a > b,
        _ => a >= b,
    }
}

/// Whether a fact is one of the items.
pub open spec fn is_among(f: Fact, items: Seq<AtomModel>) -> bool {
    exists|i: int| 0 <= i < items.len() && fact_equals(f, #[trigger] items[i])
}

/// The truth of a comparison with a known fact; the text says why there is
/// none.
pub open spec fn comparison(f: Fact, op: CmpOp, v: OperandModel) -> Result<bool, Seq<char>> {
    match op {
        CmpOp::Eq => Ok(v matches OperandModel::One(a) && fact_equals(f, a)),
        CmpOp::Ne => Ok(!(v matches OperandModel::One(a) && fact_equals(f, a))),
        CmpOp::In | CmpOp::NotIn => match v {
            OperandModel::Many(items) => Ok(is_among(f, items) == (op == CmpOp::In)),
            OperandModel::One(_) => Err(": 'in' value must be an array"@),
        },
        CmpOp::Contains => match (f, v) {
            (Fact::Text(s), OperandModel::One(AtomModel::Text(sub))) => Ok(contains_part(s, sub)),
            _ => Err(": 'contains' needs a string or array"@),
        },
        _ => match (f, v) {
            (Fact::Count(x), OperandModel::One(AtomModel::Count(y))) => Ok(
                ordered(op, units(Number::Whole(x)), units(y)),
            ),
            _ => Err(": not comparable (non-numeric)"@),
        },
    }
}

fn among(f: &FactValue, items: &Vec<Atom>) -> (r: bool)
    requires
        f.wf(),
        all_wf(items@),
    ensures
        r == is_among(f@, items@.map_values(|a: Atom| a@)),
{
    let ghost shown = items@.map_values(|a: Atom| a@);
    let mut i: usize = 0;
    while i < items.len()
        invariant
            i <= items@.len(),
            f.wf(),
            all_wf(items@),
            shown == items@.map_values(|a: Atom| a@),
            forall|k: int| 0 <= k < i ==> !fact_equals(f@, #[trigger] shown[k]),
        decreases items@.len() - i,
    {
        assert(items@[i as int].wf());
        if equals(f, &items[i]) {
            assert(fact_equals(f@, shown[i as int]));
            return true;
        }
        i = i + 1;
    }
    false
}

/// The truth of a comparison with a known fact; the text says why there is
/// none.
pub fn compare(f: &FactValue, op: CmpOp, v: &Operand) -> (r: Result<bool, &'static str>)
    requires
        f.wf(),
        v.wf(),
    ensures
        match r {
            Ok(b) => comparison(f@, op, v@) == Ok::<bool, Seq<char>>(b),
            Err(why) => comparison(f@, op, v@) == Err::<bool, Seq<char>>(why@),
        },
{
    match op {
        CmpOp::Eq => match v {
            Operand::One(a) => Ok(equals(f, a)),
            Operand::Many(_) => Ok(false),
        },
        CmpOp::Ne => match v {
            Operand::One(a) => Ok(!equals(f, a)),
            Operand::Many(_) => Ok(true),
        },
        CmpOp::In | CmpOp::NotIn => match v {
            Operand::Many(items) => Ok(among(f, items) == matches!(op, CmpOp::In)),
            Operand::One(_) => Err(": 'in' value must be an array"),
        },
        CmpOp::Contains => match (f, v) {
            (FactValue::Text(s), Operand::One(Atom::Text(sub))) => Ok(
                contains(s.as_str(), sub.as_str()),
            ),
            _ => Err(": 'contains' needs a string or array"),
        },
        CmpOp::Lt | CmpOp::Lte | CmpOp::Gt | CmpOp::Gte => match (f, v) {
            (FactValue::Count(x), Operand::One(Atom::Count(y))) => {
                let s = compare_whole(*x, *y);
                Ok(
                    match op {
                        CmpOp::Lt => matches!(s, Standing::Below),
                        CmpOp::Lte => !matches!(s, Standing::Above),
                        CmpOp::Gt => matches!(s, Standing::Above),
                        _ => !matches!(s, Standing::Below),
                    },
                )
            },
            _ => Err(": not comparable (non-numeric)"),
        },
    }
}

/// A value's text as an explanation shows it: past sixty bytes it is cut and
/// marked. There is none where the cut would split a character.
pub open spec fn compacted(text: Seq<char>) -> Option<Seq<char>> {
    if byte_len(text) <= 60 {
        Some(text)
    } else if cuts_at(text, 60) {
        Some(head_of(text, 60) + "…"@)
    } else {
        None
    }
}

fn compact(text: &str) -> (r: Option<String>)
    ensures
        match r {
            Some(s) => compacted(text@) == Some(s@),
            None => compacted(text@) is None,
        },
{
    if byte_count(text) <= 60 {
        Some(text.to_owned())
    } else if can_cut(text, 60) {
        let mut s = head(text, 60);
        s.append("…");
        Some(s)
    } else {
        None
    }
}

/// The argument of a fact as an explanation shows it.
pub open spec fn arg_text(arg: Option<Seq<char>>) -> Seq<char> {
    match arg {
        Some(a) => "("@ + a + ")"@,
        None => ""@,
    }
}

/// A fact with its argument as an explanation shows it.
pub open spec fn fact_text(fact: FactRef) -> Seq<char> {
    fact.spec_name() + arg_text(fact.spec_arg())
}

fn arg_string(fact: &FactRef) -> (r: String)
    ensures
        r@ == arg_text(fact.spec_arg()),
{
    match fact.arg() {
        Some(a) => {
            let mut s = "(".to_owned();
            s.append(a);
            s.append(")");
            s
        },
        None => "".to_owned(),
    }
}

/// The outcome of comparing a fact with a value, from what is known of the
/// fact and from the value's text.
pub open spec fn compared(
    fact: FactRef,
    op: CmpOp,
    known: Option<Fact>,
    v: OperandModel,
    text: Seq<char>,
) -> Option<Outcome> {
    match known {
        None => Some(
            Outcome {
                result: Tri::Unknown,
                explanation: "fact '"@ + fact.spec_name() + "'"@ + arg_text(fact.spec_arg())
                    + " is unknown"@,
            },
        ),
        Some(f) => match compacted(text) {
            None => None,
            Some(shown) => {
                let label = fact_text(fact) + " "@ + op_text(op) + " "@ + shown;
                match comparison(f, op, v) {
                    Err(why) => Some(Outcome { result: Tri::Unknown, explanation: label + why }),
                    Ok(b) => Some(
                        Outcome {
                            result: tri(b),
                            explanation: label + " => "@ + (if b {
                                "true"@
                            } else {
                                "false"@
                            }),
                        },
                    ),
                }
            },
        },
    }
}

/// The outcome of comparing a fact with a value, from what is known of the
/// fact and from the value's text. There is none where the text cannot be cut
/// to be shown.
pub fn explain(
    fact: &FactRef,
    op: CmpOp,
    known: Option<FactValue>,
    v: &Operand,
    text: &str,
) -> (r: Option<Eval>)
    requires
        known matches Some(f) ==> f.wf(),
        v.wf(),
    ensures
        ({
            let facts = match known {
                Some(f) => Some(f@),
                None => None,
            };
            match r {
                Some(e) => compared(*fact, op, facts, v@, text@) == Some(e@),
                None => compared(*fact, op, facts, v@, text@) is None,
            }
        }),
{
    let arg = arg_string(fact);
    match known {
        None => {
            let mut s = "fact '".to_owned();
            s.append(fact.name());
            s.append("'");
            s.append(arg.as_str());
            s.append(" is unknown");
            Some(Eval { result: Tri::Unknown, explanation: s })
        },
        Some(f) => match compact(text) {
            None => None,
            Some(shown) => {
                let mut s = fact.name().to_owned();
                s.append(arg.as_str());
                s.append(" ");
                s.append(op_str(op));
                s.append(" ");
                s.append(shown.as_str());
                match compare(&f, op, v) {
                    Err(why) => {
                        s.append(why);
                        Some(Eval { result: Tri::Unknown, explanation: s })
                    },
                    Ok(b) => {
                        s.append(" => ");
                        s.append(
                            if b {
                                "true"
                            } else {
                                "false"
                            },
                        );
                        Some(Eval { result: Tri::from_bool(b), explanation: s })
                    },
                }
            },
        },
    }
}

/// The outcome of each part, in brackets.
pub open spec fn bracketed(parts: Seq<Option<Outcome>>) -> Seq<Seq<char>> {
    parts.map_values(|o: Option<Outcome>| "["@ + o->0.explanation + "]"@)
}

/// The first part from `i` on that has no outcome or ends the evaluation with
/// `end`; the number of parts where there is none.
pub open spec fn first_end(parts: Seq<Option<Outcome>>, end: Tri, i: int) -> int
    decreases parts.len() - i,
{
    if i < 0 || i >= parts.len() {
        parts.len() as int
    } else if parts[i] is None || parts[i]->0.result == end {
        i
    } else {
        first_end(parts, end, i + 1)
    }
}

/// Whether the result of some part is unknown.
pub open spec fn any_unknown(parts: Seq<Option<Outcome>>) -> bool {
    exists|i: int| 0 <= i < parts.len() && (#[trigger] parts[i])->0.result == Tri::Unknown
}

/// The outcome of parts that are taken in order until one has the result `end`,
/// which is then the result. Where none has it, the result is unknown if some
/// part is, and else the opposite of `end`.
pub open spec fn combined(
    parts: Seq<Option<Outcome>>,
    end: Tri,
    decided: Seq<char>,
    unknown: Seq<char>,
    rest: Seq<char>,
) -> Option<Outcome> {
    let k = first_end(parts, end, 0);
    if k < parts.len() {
        if parts[k] is None {
            None
        } else {
            Some(
                Outcome {
                    result: end,
                    explanation: decided + joined(bracketed(parts.take(k + 1)), " "@),
                },
            )
        }
    } else if any_unknown(parts) {
        Some(
            Outcome {
                result: Tri::Unknown,
                explanation: unknown + joined(bracketed(parts), " "@),
            },
        )
    } else {
        Some(Outcome { result: tri_not(end), explanation: rest + joined(bracketed(parts), " "@) })
    }
}

/// The outcome of a predicate tree. There is none where an explanation cannot
/// be shown because a value's text cannot be cut.
pub open spec fn outcome(p: Predicate, req: RequestFacts, t: TargetFacts) -> Option<Outcome>
    decreases p,
{
    match p {
        Predicate::Const(b) => Some(
            Outcome {
                result: tri(b),
                explanation: "constant "@ + (if b {
                    "true"@
                } else {
                    "false"@
                }),
            },
        ),
        Predicate::And { and } => combined(
            outcomes(and@, req, t),
            Tri::False,
            "and: false because "@,
            "and: unknown because "@,
            "and: all true "@,
        ),
        Predicate::Or { or } => combined(
            outcomes(or@, req, t),
            Tri::True,
            "or: true because "@,
            "or: unknown because "@,
            "or: all false "@,
        ),
        Predicate::Not { not } => match outcome(*not, req, t) {
            Some(o) => Some(
                Outcome {
                    result: tri_not(o.result),
                    explanation: "not ["@ + o.explanation + "]"@,
                },
            ),
            None => None,
        },
        Predicate::Cmp { fact, op, value } => compared(
            fact,
            op,
            fact_of(fact.spec_name(), fact.spec_arg(), req, t),
            operand_of(json_model(value)),
            json_text(json_model(value)),
        ),
    }
}

/// The outcomes of the parts of a conjunction or a disjunction.
pub open spec fn outcomes(
    parts: Seq<Predicate>,
    req: RequestFacts,
    t: TargetFacts,
) -> Seq<Option<Outcome>>
    decreases parts,
{
    if parts.len() == 0 {
        Seq::empty()
    } else {
        outcomes(parts.drop_last(), req, t).push(outcome(parts.last(), req, t))
    }
}

/// The parts are evaluated one by one.
pub proof fn lemma_outcomes(parts: Seq<Predicate>, req: RequestFacts, t: TargetFacts)
    ensures
        outcomes(parts, req, t).len() == parts.len(),
        forall|i: int|
            0 <= i < parts.len() ==> (#[trigger] outcomes(parts, req, t)[i]) == outcome(
                parts[i],
                req,
                t,
            ),
    decreases parts.len(),
{
    if parts.len() > 0 {
        lemma_outcomes(parts.drop_last(), req, t);
    }
}

proof fn lemma_first_end(parts: Seq<Option<Outcome>>, end: Tri, i: int, k: int)
    requires
        0 <= i <= k <= parts.len(),
        forall|j: int| i <= j < k ==> (#[trigger] parts[j]) is Some && parts[j]->0.result != end,
        k < parts.len() ==> (parts[k] is None || parts[k]->0.result == end),
    ensures
        first_end(parts, end, i) == k,
    decreases k - i,
{
    if i < k {
        lemma_first_end(parts, end, i + 1, k);
    }
}

/// The outcome of a predicate tree: the parts of a conjunction in order up to
/// the first that is false, those of a disjunction up to the first that is
/// true. `None` where an explanation cannot be shown because a value's text
/// cannot be cut.
pub fn eval_checked(pred: &Predicate, req: &RequestFacts<'_>, t: &TargetFacts<'_>) -> (r: Option<Eval>)
    ensures
        match r {
            Some(e) => outcome(*pred, *req, *t) == Some(e@),
            None => outcome(*pred, *req, *t) is None,
        },
    decreases *pred,
{
    match pred {
        Predicate::Const(b) => {
            let mut s = "constant ".to_owned();
            s.append(
                if *b {
                    "true"
                } else {
                    "false"
                },
            );
            Some(Eval { result: Tri::from_bool(*b), explanation: s })
        },
        Predicate::And { and } => combine(
            and,
            Tri::False,
            "and: false because ",
            "and: unknown because ",
            "and: all true ",
            req,
            t,
        ),
        Predicate::Or { or } => combine(
            or,
            Tri::True,
            "or: true because ",
            "or: unknown because ",
            "or: all false ",
            req,
            t,
        ),
        Predicate::Not { not } => {
            match eval_checked(&**not, req, t) {
                Some(e) => {
                    let result = match e.result {
                        Tri::True => Tri::False,
                        Tri::False => Tri::True,
                        Tri::Unknown => Tri::Unknown,
                    };
                    let mut s = "not [".to_owned();
                    s.append(e.explanation.as_str());
                    s.append("]");
                    Some(Eval { result, explanation: s })
                },
                None => None,
            }
        },
        Predicate::Cmp { fact, op, value } => {
            let known = fact_value(fact, req, t);
            let operand = read_operand(value);
            let text = write_json(value);
            explain(fact, *op, known, &operand, text.as_str())
        },
    }
}

/// The outcome of parts that are taken in order until one has the result `end`.
fn combine(
    parts: &Vec<Predicate>,
    end: Tri,
    decided: &str,
    unknown: &str,
    rest: &str,
    req: &RequestFacts<'_>,
    t: &TargetFacts<'_>,
) -> (r: Option<Eval>)
    requires
        end != Tri::Unknown,
    ensures
        ({
            let o = combined(outcomes(parts@, *req, *t), end, decided@, unknown@, rest@);
            match r {
                Some(e) => o == Some(e@),
                None => o is None,
            }
        }),
    decreases *parts,
{
    let ghost all = outcomes(parts@, *req, *t);
    proof {
        lemma_outcomes(parts@, *req, *t);
    }
    let mut shown: Vec<String> = Vec::new();
    let mut saw_unknown = false;
    let mut i: usize = 0;
    while i < parts.len()
        invariant
            i <= parts@.len(),
            all.len() == parts@.len(),
            all == outcomes(parts@, *req, *t),
            forall|k: int|
                0 <= k < parts@.len() ==> (#[trigger] all[k]) == outcome(parts@[k], *req, *t),
            shown@.len() == i,
            forall|k: int|
                0 <= k < i ==> (#[trigger] shown@[k])@ == "["@ + all[k]->0.explanation + "]"@,
            forall|k: int| 0 <= k < i ==> (#[trigger] all[k]) is Some && all[k]->0.result != end,
            saw_unknown == any_unknown(all.take(i as int)),
        decreases parts@.len() - i,
    {
        let e = match eval_checked(&parts[i], req, t) {
            Some(e) => e,
            None => {
                proof {
                    lemma_first_end(all, end, 0, i as int);
                }
                return None;
            },
        };
        let mut part = "[".to_owned();
        part.append(e.explanation.as_str());
        part.append("]");
        shown.push(part);
        proof {
            assert(all[i as int] == Some(e@));
            assert(all.take(i + 1) == all.take(i as int).push(all[i as int]));
            lemma_push_unknown(all.take(i as int), all[i as int]);
        }
        if e.result == end {
            proof {
                lemma_first_end(all, end, 0, i as int);
                assert(views(shown@) =~= bracketed(all.take(i + 1)));
            }
            let mut s = decided.to_owned();
            s.append(join(&shown, " ").as_str());
            return Some(Eval { result: end, explanation: s });
        }
        if e.result == Tri::Unknown {
            saw_unknown = true;
        }
        i = i + 1;
    }
    proof {
        lemma_first_end(all, end, 0, all.len() as int);
        assert(all.take(all.len() as int) == all);
        assert(views(shown@) =~= bracketed(all));
    }
    if saw_unknown {
        let mut s = unknown.to_owned();
        s.append(join(&shown, " ").as_str());
        Some(Eval { result: Tri::Unknown, explanation: s })
    } else {
        let mut s = rest.to_owned();
        s.append(join(&shown, " ").as_str());
        let result = match end {
            Tri::True => Tri::False,
            Tri::False => Tri::True,
            Tri::Unknown => Tri::Unknown,
        };
        Some(Eval { result, explanation: s })
    }
}

proof fn lemma_push_unknown(parts: Seq<Option<Outcome>>, o: Option<Outcome>)
    ensures
        any_unknown(parts.push(o)) == (any_unknown(parts) || o->0.result == Tri::Unknown),
{
    if any_unknown(parts) {
        let i = choose|i: int|
            0 <= i < parts.len() && (#[trigger] parts[i])->0.result == Tri::Unknown;
        assert(parts.push(o)[i]->0.result == Tri::Unknown);
    }
    if o->0.result == Tri::Unknown {
        assert(parts.push(o)[parts.len() as int]->0.result == Tri::Unknown);
    }
    if any_unknown(parts.push(o)) && o->0.result != Tri::Unknown {
        let i = choose|i: int|
            0 <= i < parts.push(o).len() && (#[trigger] parts.push(o)[i])->0.result == Tri::Unknown;
        assert(parts[i]->0.result == Tri::Unknown);
    }
}

/// Evaluates a predicate tree.
pub fn eval(pred: &Predicate, req: &RequestFacts<'_>, t: &TargetFacts<'_>) -> (r: Eval)
    requires
        outcome(*pred, *req, *t) is Some,
    ensures
        outcome(*pred, *req, *t) == Some(r@),
{
    match eval_checked(pred, req, t) {
        Some(e) => e,
        None => Eval { result: Tri::Unknown, explanation: String::new() },
    }
}

/// The full eligibility decision for one target.
#[derive(Debug, Clone)]
pub struct Eligibility {
    pub eligible: bool,
    pub result: Tri,
    pub explanation: String,
}

/// What an `Eligibility` says.
pub struct Decision {
    pub eligible: bool,
    pub result: Tri,
    pub explanation: Seq<char>,
}

impl View for Eligibility {
    type V = Decision;

    open spec fn view(&self) -> Decision {
        Decision { eligible: self.eligible, result: self.result, explanation: self.explanation@ }
    }
}

/// What an outcome means for a target under a policy for unknown results.
pub open spec fn decided(o: Outcome, when_unknown: WhenUnknown) -> Decision {
    Decision {
        eligible: o.result == Tri::True || (o.result == Tri::Unknown && when_unknown
            == WhenUnknown::Allow),
        result: o.result,
        explanation: o.explanation + " (when_unknown="@ + (match when_unknown {
            WhenUnknown::Skip => "skip"@,
            WhenUnknown::Allow => "allow"@,
        }) + ")"@,
    }
}

/// The eligibility decision for a target: a target without a predicate is
/// always eligible.
pub open spec fn decision(
    pred: TargetPredicate,
    req: RequestFacts,
    t: TargetFacts,
) -> Option<Decision> {
    match pred.expr {
        None => Some(
            Decision {
                eligible: true,
                result: Tri::True,
                explanation: "no predicate configured"@,
            },
        ),
        Some(expr) => match outcome(expr, req, t) {
            Some(o) => Some(decided(o, pred.when_unknown)),
            None => None,
        },
    }
}

/// What an outcome means for a target under a policy for unknown results.
pub fn decide(e: Eval, when_unknown: WhenUnknown) -> (r: Eligibility)
    ensures
        r@ == decided(e@, when_unknown),
{
    let eligible = match e.result {
        Tri::True => true,
        Tri::False => false,
        Tri::Unknown => when_unknown == WhenUnknown::Allow,
    };
    let mut s = e.explanation;
    s.append(" (when_unknown=");
    s.append(
        match when_unknown {
            WhenUnknown::Skip => "skip",
            WhenUnknown::Allow => "allow",
        },
    );
    s.append(")");
    Eligibility { eligible, result: e.result, explanation: s }
}

/// Decides eligibility from a target predicate; `None` where the explanation
/// cannot be shown.
pub fn eligibility_checked(
    pred: &TargetPredicate,
    req: &RequestFacts<'_>,
    t: &TargetFacts<'_>,
) -> (r: Option<Eligibility>)
    ensures
        match r {
            Some(e) => decision(*pred, *req, *t) == Some(e@),
            None => decision(*pred, *req, *t) is None,
        },
{
    match &pred.expr {
        None => Some(
            Eligibility {
                eligible: true,
                result: Tri::True,
                explanation: "no predicate configured".to_owned(),
            },
        ),
        Some(expr) => match eval_checked(expr, req, t) {
            Some(e) => Some(decide(e, pred.when_unknown)),
            None => None,
        },
    }
}

/// Decides eligibility from a target predicate.
pub fn eligibility(
    pred: &TargetPredicate,
    req: &RequestFacts<'_>,
    t: &TargetFacts<'_>,
) -> (r: Eligibility)
    requires
        decision(*pred, *req, *t) is Some,
    ensures
        decision(*pred, *req, *t) == Some(r@),
{
    match eligibility_checked(pred, req, t) {
        Some(e) => e,
        None => Eligibility { eligible: false, result: Tri::Unknown, explanation: String::new() },
    }
}

/// Three-valued conjunction: false where some value is, else unknown where
/// some value is, else true.
pub open spec fn all_of(values: Seq<Tri>) -> Tri {
    if values.contains(Tri::False) {
        Tri::False
    } else if values.contains(Tri::Unknown) {
        Tri::Unknown
    } else {
        Tri::True
    }
}

/// Three-valued disjunction: true where some value is, else unknown where some
/// value is, else false.
pub open spec fn any_of(values: Seq<Tri>) -> Tri {
    if values.contains(Tri::True) {
        Tri::True
    } else if values.contains(Tri::Unknown) {
        Tri::Unknown
    } else {
        Tri::False
    }
}

/// The results of a list of predicates.
pub open spec fn results(parts: Seq<Predicate>, req: RequestFacts, t: TargetFacts) -> Seq<Tri> {
    parts.map_values(|p: Predicate| outcome(p, req, t)->0.result)
}

proof fn lemma_first_end_finds(parts: Seq<Option<Outcome>>, end: Tri, i: int)
    requires
        0 <= i <= parts.len(),
    ensures
        i <= first_end(parts, end, i) <= parts.len(),
        forall|j: int|
            i <= j < first_end(parts, end, i) ==> (#[trigger] parts[j]) is Some
                && parts[j]->0.result != end,
        first_end(parts, end, i) < parts.len() ==> parts[first_end(parts, end, i)] is None
            || parts[first_end(parts, end, i)]->0.result == end,
    decreases parts.len() - i,
{
    if i < parts.len() {
        lemma_first_end_finds(parts, end, i + 1);
    }
}

/// The result of a conjunction is the three-valued conjunction of the results
/// of its parts, whatever their order.
pub proof fn law_and(and: Vec<Predicate>, req: RequestFacts, t: TargetFacts)
    requires
        forall|i: int| 0 <= i < and@.len() ==> outcome(#[trigger] and@[i], req, t) is Some,
    ensures
        outcome(Predicate::And { and }, req, t) is Some,
        outcome(Predicate::And { and }, req, t)->0.result == all_of(results(and@, req, t)),
{
    lemma_combined(and@, Tri::False, req, t);
}

/// The result of a disjunction is the three-valued disjunction of the results
/// of its parts, whatever their order.
pub proof fn law_or(or: Vec<Predicate>, req: RequestFacts, t: TargetFacts)
    requires
        forall|i: int| 0 <= i < or@.len() ==> outcome(#[trigger] or@[i], req, t) is Some,
    ensures
        outcome(Predicate::Or { or }, req, t) is Some,
        outcome(Predicate::Or { or }, req, t)->0.result == any_of(results(or@, req, t)),
{
    lemma_combined(or@, Tri::True, req, t);
}

proof fn lemma_combined(parts: Seq<Predicate>, end: Tri, req: RequestFacts, t: TargetFacts)
    requires
        end != Tri::Unknown,
        forall|i: int| 0 <= i < parts.len() ==> outcome(#[trigger] parts[i], req, t) is Some,
    ensures
        ({
            let all = outcomes(parts, req, t);
            let values = results(parts, req, t);
            &&& (first_end(all, end, 0) < all.len()) == values.contains(end)
            &&& first_end(all, end, 0) < all.len() ==> all[first_end(all, end, 0)] is Some
            &&& any_unknown(all) == values.contains(Tri::Unknown)
        }),
{
    let all = outcomes(parts, req, t);
    let values = results(parts, req, t);
    lemma_outcomes(parts, req, t);
    lemma_first_end_finds(all, end, 0);
    assert(forall|i: int|
        0 <= i < parts.len() ==> (#[trigger] all[i]) == outcome(parts[i], req, t));
    assert(forall|i: int| 0 <= i < parts.len() ==> (#[trigger] values[i]) == all[i]->0.result);
    let k = first_end(all, end, 0);
    if k < all.len() {
        assert(outcome(parts[k], req, t) is Some);
        assert(values[k] == end);
    }
    if values.contains(end) {
        let i = choose|i: int| 0 <= i < values.len() && values[i] == end;
        assert(all[i]->0.result == end);
    }
    if any_unknown(all) {
        let i = choose|i: int| 0 <= i < all.len() && (#[trigger] all[i])->0.result == Tri::Unknown;
        assert(values[i] == Tri::Unknown);
    }
    if values.contains(Tri::Unknown) {
        let i = choose|i: int| 0 <= i < values.len() && values[i] == Tri::Unknown;
        assert(all[i]->0.result == Tri::Unknown);
    }
}

/// De Morgan: the negation of a conjunction is the disjunction of the
/// negations, and the other way round.
pub proof fn law_de_morgan(values: Seq<Tri>)
    ensures
        tri_not(all_of(values)) == any_of(values.map_values(|v: Tri| tri_not(v))),
        tri_not(any_of(values)) == all_of(values.map_values(|v: Tri| tri_not(v))),
{
    let flipped = values.map_values(|v: Tri| tri_not(v));
    assert forall|v: Tri| values.contains(v) == flipped.contains(tri_not(v)) by {
        if values.contains(v) {
            let i = choose|i: int| 0 <= i < values.len() && values[i] == v;
            assert(flipped[i] == tri_not(v));
        }
        if flipped.contains(tri_not(v)) {
            let i = choose|i: int| 0 <= i < flipped.len() && flipped[i] == tri_not(v);
            assert(values[i] == v);
        }
    }
    assert(values.contains(Tri::True) == flipped.contains(tri_not(Tri::True)));
    assert(values.contains(Tri::False) == flipped.contains(tri_not(Tri::False)));
    assert(values.contains(Tri::Unknown) == flipped.contains(tri_not(Tri::Unknown)));
}

/// A predicate negated twice has the result of the predicate.
pub proof fn law_double_negation(p: Predicate, req: RequestFacts, t: TargetFacts)
    requires
        outcome(p, req, t) is Some,
    ensures
        ({
            let once = Predicate::Not { not: Box::new(p) };
            let twice = Predicate::Not { not: Box::new(once) };
            &&& outcome(twice, req, t) is Some
            &&& outcome(twice, req, t)->0.result == outcome(p, req, t)->0.result
        }),
{
    let once = Predicate::Not { not: Box::new(p) };
    assert(outcome(once, req, t) is Some);
}

/// A capability that the configuration does not declare is unknown, whatever
/// it is compared with: it is never guessed.
pub proof fn law_undeclared_capability_is_unknown(
    fact: FactRef,
    op: CmpOp,
    value: serde_json::Value,
    req: RequestFacts,
    t: TargetFacts,
)
    requires
        fact.spec_name() == "target_capability"@,
        fact.spec_arg() is Some,
        !declares(json_model(*t.capabilities_raw), fact.spec_arg()->0),
    ensures
        outcome(Predicate::Cmp { fact, op, value }, req, t) is Some,
        outcome(Predicate::Cmp { fact, op, value }, req, t)->0.result == Tri::Unknown,
{
    reveal_strlit("target_capability");
    reveal_strlit("has_tools");
    reveal_strlit("has_images");
    reveal_strlit("has_reasoning");
    reveal_strlit("frontend");
    reveal_strlit("requested_alias");
    reveal_strlit("requested_model");
    reveal_strlit("requested_route");
    reveal_strlit("key_tag");
    reveal_strlit("input_tokens");
    reveal_strlit("target_model");
    reveal_strlit("target_model_id");
    reveal_strlit("target_provider");
    reveal_strlit("target_provider_id");
    assert("target_capability"@.len() == 17);
    assert("target_capability"@[7] == 'c');
}

/// A target whose predicate is unknown is eligible only where the policy allows
/// it; one whose predicate is false never is; one whose predicate is true, or
/// that has none, always is.
pub proof fn law_unknown_is_never_guessed(pred: TargetPredicate, req: RequestFacts, t: TargetFacts)
    requires
        decision(pred, req, t) is Some,
    ensures
        ({
            let d = decision(pred, req, t)->0;
            &&& d.result == Tri::True ==> d.eligible
            &&& d.result == Tri::False ==> !d.eligible
            &&& d.result == Tri::Unknown ==> d.eligible == (pred.when_unknown == WhenUnknown::Allow)
            &&& pred.expr is None ==> d.eligible
        }),
{
}

/// Comparisons of numbers agree with each other: greater is not at most, less is
/// not at least, nothing is both, and what is neither is both at least and at
/// most.
pub proof fn law_comparisons_agree(x: i128, y: Number)
    ensures
        ({
            let v = OperandModel::One(AtomModel::Count(y));
            let lt = comparison(Fact::Count(x), CmpOp::Lt, v);
            let lte = comparison(Fact::Count(x), CmpOp::Lte, v);
            let gt = comparison(Fact::Count(x), CmpOp::Gt, v);
            let gte = comparison(Fact::Count(x), CmpOp::Gte, v);
            &&& lt is Ok && lte is Ok && gt is Ok && gte is Ok
            &&& gt->Ok_0 == !lte->Ok_0
            &&& lt->Ok_0 == !gte->Ok_0
            &&& !(lt->Ok_0 && gt->Ok_0)
            &&& !lt->Ok_0 && !gt->Ok_0 ==> lte->Ok_0 && gte->Ok_0
        }),
{
}

/// Numbers are compared as numbers: each comparison holds of a fact and a value,
/// both whole and held exactly by a double, where it holds of the two.
pub proof fn law_numbers_compare_as_numbers(x: i128, y: i128)
    requires
        -0x20_0000_0000_0000 < x < 0x20_0000_0000_0000,
        -0x20_0000_0000_0000 < y < 0x20_0000_0000_0000,
    ensures
        ({
            let f = Fact::Count(x);
            let v = OperandModel::One(AtomModel::Count(Number::Whole(y)));
            &&& comparison(f, CmpOp::Gt, v) == Ok::<bool, Seq<char>>(x > y)
            &&& comparison(f, CmpOp::Gte, v) == Ok::<bool, Seq<char>>(x >= y)
            &&& comparison(f, CmpOp::Lt, v) == Ok::<bool, Seq<char>>(x < y)
            &&& comparison(f, CmpOp::Lte, v) == Ok::<bool, Seq<char>>(x <= y)
            &&& comparison(f, CmpOp::Eq, v) == Ok::<bool, Seq<char>>(x == y)
            &&& comparison(f, CmpOp::Ne, v) == Ok::<bool, Seq<char>>(x != y)
        }),
{
    law_small_numbers_are_exact(x, y);
    law_small_numbers_are_exact(y, x);
}

/// A comparison of the size of a request holds where it holds of the number of
/// its input tokens.
pub proof fn law_request_size_is_compared(
    fact: FactRef,
    op: CmpOp,
    value: serde_json::Value,
    v: int,
    req: RequestFacts,
    t: TargetFacts,
)
    requires
        fact.spec_name() == "input_tokens"@,
        json_model(value) == JsonModel::Whole(v),
        0 <= v < 0x20_0000_0000_0000,
        req.input_tokens < 0x20_0000_0000_0000,
        outcome(Predicate::Cmp { fact, op, value }, req, t) is Some,
    ensures
        ({
            let r = outcome(Predicate::Cmp { fact, op, value }, req, t)->0.result;
            &&& op == CmpOp::Gt ==> r == tri(req.input_tokens > v)
            &&& op == CmpOp::Gte ==> r == tri(req.input_tokens >= v)
            &&& op == CmpOp::Lt ==> r == tri(req.input_tokens < v)
            &&& op == CmpOp::Lte ==> r == tri(req.input_tokens <= v)
            &&& op == CmpOp::Eq ==> r == tri(req.input_tokens == v)
            &&& op == CmpOp::Ne ==> r == tri(req.input_tokens != v)
            &&& op == CmpOp::In || op == CmpOp::NotIn || op == CmpOp::Contains ==> r == Tri::Unknown
        }),
{
    lemma_fact_names();
    law_numbers_compare_as_numbers(req.input_tokens as i128, v as i128);
}

proof fn lemma_fact_names()
    ensures
        "input_tokens"@.len() == 12,
        "has_tools"@.len() == 9,
        "has_images"@.len() == 10,
        "has_reasoning"@.len() == 13,
        "frontend"@.len() == 8,
        "key_tag"@.len() == 7,
        "target_model"@.len() == 12,
        "target_provider_id"@.len() == 18,
        "target_capability"@.len() == 17,
        "target_context_window"@.len() == 21,
        "target_max_output_tokens"@.len() == 24,
        "requested_alias"@.len() == 15,
        "requested_model"@.len() == 15,
        "requested_route"@.len() == 15,
        "target_model_id"@.len() == 15,
        "target_provider"@.len() == 15,
        "input_tokens"@ != "target_model"@,
        "requested_alias"@ != "requested_model"@,
        "requested_alias"@ != "requested_route"@,
        "requested_model"@ != "requested_route"@,
        "requested_alias"@ != "target_model_id"@,
        "requested_alias"@ != "target_provider"@,
        "requested_model"@ != "target_model_id"@,
        "requested_model"@ != "target_provider"@,
        "requested_route"@ != "target_model_id"@,
        "requested_route"@ != "target_provider"@,
        "target_model_id"@ != "target_provider"@,
{
    reveal_strlit("input_tokens");
    reveal_strlit("has_tools");
    reveal_strlit("has_images");
    reveal_strlit("has_reasoning");
    reveal_strlit("frontend");
    reveal_strlit("key_tag");
    reveal_strlit("requested_alias");
    reveal_strlit("requested_model");
    reveal_strlit("requested_route");
    reveal_strlit("target_model");
    reveal_strlit("target_model_id");
    reveal_strlit("target_provider");
    reveal_strlit("target_provider_id");
    reveal_strlit("target_capability");
    reveal_strlit("target_context_window");
    reveal_strlit("target_max_output_tokens");
    assert("input_tokens"@[0] == 'i' && "target_model"@[0] == 't');
    assert("requested_alias"@[10] == 'a' && "requested_model"@[10] == 'm' && "requested_route"@[10]
        == 'r');
    assert("requested_alias"@[0] == 'r' && "requested_model"@[0] == 'r' && "requested_route"@[0]
        == 'r' && "target_model_id"@[0] == 't' && "target_provider"@[0] == 't');
    assert("target_model_id"@[7] == 'm' && "target_provider"@[7] == 'p');
}

/// Each fact says what the request or the target says of it, and nothing else is
/// known: an optional one that is not given is unknown, and so is any other name.
pub proof fn law_facts_say_what_is_given(
    name: Seq<char>,
    arg: Option<Seq<char>>,
    req: RequestFacts,
    t: TargetFacts,
)
    ensures
        ({
            let f = fact_of(name, arg, req, t);
            &&& name == "has_tools"@ ==> f == Some(Fact::Flag(req.has_tools))
            &&& name == "has_images"@ ==> f == Some(Fact::Flag(req.has_images))
            &&& name == "has_reasoning"@ ==> f == Some(Fact::Flag(req.has_reasoning))
            &&& name == "frontend"@ ==> f == Some(Fact::Text(req.frontend@))
            &&& name == "requested_model"@ || name == "requested_alias"@ ==> f == Some(
                Fact::Text(req.requested_model@),
            )
            &&& name == "input_tokens"@ ==> f == Some(Fact::Count(req.input_tokens as i128))
            &&& name == "requested_route"@ ==> (req.requested_route is None ==> f is None) && (
            req.requested_route matches Some(r) ==> f == Some(Fact::Text(r@)))
            &&& name == "key_tag"@ ==> (req.key_tag is None ==> f is None) && (
            req.key_tag matches Some(r) ==> f == Some(Fact::Text(r@)))
            &&& name == "target_model"@ || name == "target_model_id"@ ==> f == Some(
                Fact::Text(t.model_id@),
            )
            &&& name == "target_provider"@ || name == "target_provider_id"@ ==> f == Some(
                Fact::Text(t.provider_id@),
            )
            &&& name == "target_context_window"@ ==> (t.context_window is None ==> f is None) && (
            t.context_window matches Some(n) ==> f == Some(Fact::Count(n as i128)))
            &&& name == "target_max_output_tokens"@ ==> (t.max_output_tokens is None ==> f is None)
                && (t.max_output_tokens matches Some(n) ==> f == Some(Fact::Count(n as i128)))
            &&& name == "target_capability"@ && arg is None ==> f is None
            &&& f is Some ==> name.len() >= 7
        }),
{
    lemma_fact_names();
}

/// A declared capability is known, as what the target's model is configured
/// with; each under its own name, and tool calls under two.
pub proof fn law_declared_capabilities_are_known(
    cap: Seq<char>,
    fields: Seq<(Seq<char>, JsonModel)>,
    i: int,
    req: RequestFacts,
    t: TargetFacts,
)
    requires
        json_model(*t.capabilities_raw) == JsonModel::Object(fields),
        0 <= i < fields.len(),
        fields[i].0 == cap || cap == "tool_calling"@ && (fields[i].0 == "tools"@ || fields[i].0
            == "tool_calls"@),
    ensures
        ({
            let f = fact_of("target_capability"@, Some(cap), req, t);
            &&& f is Some && f->0 is Flag
            &&& cap == "text"@ ==> f == Some(Fact::Flag(t.capabilities.text))
            &&& cap == "vision"@ ==> f == Some(Fact::Flag(t.capabilities.vision))
            &&& cap == "reasoning"@ ==> f == Some(Fact::Flag(t.capabilities.reasoning))
            &&& cap == "audio"@ ==> f == Some(Fact::Flag(t.capabilities.audio))
            &&& cap == "tool_calling"@ || cap == "tools"@ ==> f == Some(
                Fact::Flag(t.capabilities.tool_calling),
            )
        }),
{
    lemma_fact_names();
    reveal_strlit("text");
    reveal_strlit("vision");
    reveal_strlit("reasoning");
    reveal_strlit("audio");
    reveal_strlit("tools");
    reveal_strlit("tool_calling");
    reveal_strlit("tool_calls");
    assert("text"@.len() == 4 && "vision"@.len() == 6 && "reasoning"@.len() == 9 && "audio"@.len()
        == 5 && "tools"@.len() == 5 && "tool_calling"@.len() == 12 && "audio"@[0] == 'a'
        && "tools"@[0] == 't');
    let m = json_model(*t.capabilities_raw);
    let names = declared_names(cap);
    assert(field_named(fields, fields[i].0));
    if cap == "tool_calling"@ {
        assert(names[0] == "tool_calling"@ && names[1] == "tools"@ && names[2] == "tool_calls"@);
        if fields[i].0 == cap {
            assert(has_field(m, names[0]));
        } else if fields[i].0 == "tools"@ {
            assert(has_field(m, names[1]));
        } else {
            assert(has_field(m, names[2]));
        }
    } else {
        assert(names[0] == cap);
        assert(has_field(m, names[0]));
    }
}

/// A capability that no field declares is unknown: the fields of an object that
/// bear other names, and values that are no objects, declare nothing of it.
pub proof fn law_undeclared_is_unknown(cap: Seq<char>, req: RequestFacts, t: TargetFacts)
    requires
        json_model(*t.capabilities_raw) matches JsonModel::Object(fields) ==> forall|i: int|
            0 <= i < fields.len() ==> (#[trigger] fields[i]).0 != cap && !(cap == "tool_calling"@ && (
            fields[i].0 == "tools"@ || fields[i].0 == "tool_calls"@)),
    ensures
        fact_of("target_capability"@, Some(cap), req, t) is None,
{
    lemma_fact_names();
    let m = json_model(*t.capabilities_raw);
    if declares(m, cap) {
        let k = choose|k: int|
            0 <= k < declared_names(cap).len() && has_field(m, #[trigger] declared_names(cap)[k]);
        let fields = m->Object_0;
        let name = declared_names(cap)[k];
        let i = choose|i: int| 0 <= i < fields.len() && (#[trigger] fields[i]).0 == name;
        assert(fields[i].0 != cap);
    }
}

/// Equality is of one kind: flags with flags, texts with texts; other kinds are
/// never equal, and what is not equal is unequal.
pub proof fn law_equality(f: Fact, a: AtomModel)
    ensures
        ({
            let v = OperandModel::One(a);
            let eq = comparison(f, CmpOp::Eq, v);
            let ne = comparison(f, CmpOp::Ne, v);
            &&& eq is Ok && ne is Ok && eq->Ok_0 == !ne->Ok_0
            &&& f matches Fact::Flag(x) ==> eq->Ok_0 == (a == AtomModel::Flag(x))
            &&& f matches Fact::Text(x) ==> eq->Ok_0 == (a == AtomModel::Text(x))
            &&& f is Count && !(a is Count) ==> !eq->Ok_0
        }),
{
}

/// Membership is equality with some item, the other operator is its opposite, and
/// neither says anything of a value that is no list. A list is equal to nothing.
pub proof fn law_membership(f: Fact, items: Seq<AtomModel>, a: AtomModel, i: int)
    ensures
        ({
            let many = OperandModel::Many(items);
            let within = comparison(f, CmpOp::In, many);
            &&& within is Ok
            &&& comparison(f, CmpOp::NotIn, many) == Ok::<bool, Seq<char>>(!within->Ok_0)
            &&& 0 <= i < items.len() && comparison(f, CmpOp::Eq, OperandModel::One(items[i]))
                == Ok::<bool, Seq<char>>(true) ==> within->Ok_0
            &&& within->Ok_0 ==> exists|k: int|
                0 <= k < items.len() && comparison(
                    f,
                    CmpOp::Eq,
                    OperandModel::One(#[trigger] items[k]),
                ) == Ok::<bool, Seq<char>>(true)
            &&& comparison(f, CmpOp::In, OperandModel::One(a)) is Err
            &&& comparison(f, CmpOp::NotIn, OperandModel::One(a)) is Err
            &&& comparison(f, CmpOp::Eq, many) == Ok::<bool, Seq<char>>(false)
            &&& comparison(f, CmpOp::Ne, many) == Ok::<bool, Seq<char>>(true)
        }),
{
    if 0 <= i < items.len() && comparison(f, CmpOp::Eq, OperandModel::One(items[i])) == Ok::<
        bool,
        Seq<char>,
    >(true) {
        assert(fact_equals(f, items[i]));
    }
    if is_among(f, items) {
        let k = choose|k: int| 0 <= k < items.len() && fact_equals(f, #[trigger] items[k]);
        assert(comparison(f, CmpOp::Eq, OperandModel::One(items[k])) == Ok::<bool, Seq<char>>(true));
    }
}

/// A text contains another exactly where it is that text with something, maybe
/// nothing, around it; of anything but two texts the question has no answer.
pub proof fn law_containment(
    before: Seq<char>,
    part: Seq<char>,
    behind: Seq<char>,
    s: Seq<char>,
    f: Fact,
    v: OperandModel,
)
    ensures
        comparison(
            Fact::Text(before + part + behind),
            CmpOp::Contains,
            OperandModel::One(AtomModel::Text(part)),
        ) == Ok::<bool, Seq<char>>(true),
        comparison(Fact::Text(s), CmpOp::Contains, OperandModel::One(AtomModel::Text(part))) == Ok::<
            bool,
            Seq<char>,
        >(false) ==> s != before + part + behind,
        !(f is Text && v matches OperandModel::One(AtomModel::Text(_))) ==> comparison(
            f,
            CmpOp::Contains,
            v,
        ) is Err,
{
    law_parts_occur(before, part, behind);
}

/// An order is asked of two numbers only: of anything else the question has no
/// answer.
pub proof fn law_order_needs_numbers(f: Fact, op: CmpOp, v: OperandModel)
    requires
        op == CmpOp::Lt || op == CmpOp::Lte || op == CmpOp::Gt || op == CmpOp::Gte,
    ensures
        comparison(f, op, v) is Ok <==> f is Count && v matches OperandModel::One(
            AtomModel::Count(_),
        ),
{
}

/// A predicate's result follows its comparison: true or false where that has an
/// answer, unknown where it has none or the fact is unknown.
pub proof fn law_results_follow_comparisons(
    fact: FactRef,
    op: CmpOp,
    known: Option<Fact>,
    v: OperandModel,
    text: Seq<char>,
)
    requires
        compared(fact, op, known, v, text) is Some,
    ensures
        ({
            let r = compared(fact, op, known, v, text)->0.result;
            &&& known is None ==> r == Tri::Unknown
            &&& known matches Some(f) ==> (comparison(f, op, v) is Err ==> r == Tri::Unknown) && (
            comparison(f, op, v) matches Ok(b) ==> (b ==> r == Tri::True) && (!b ==> r
                == Tri::False))
        }),
{
}

/// A negation turns true and false round and leaves the unknown alone; a constant
/// is what it says.
pub proof fn law_negation(p: Predicate, b: bool, req: RequestFacts, t: TargetFacts)
    requires
        outcome(p, req, t) is Some,
    ensures
        ({
            let r = outcome(p, req, t)->0.result;
            let n = outcome(Predicate::Not { not: Box::new(p) }, req, t)->0.result;
            &&& r == Tri::True <==> n == Tri::False
            &&& r == Tri::False <==> n == Tri::True
            &&& r == Tri::Unknown <==> n == Tri::Unknown
        }),
        outcome(Predicate::Const(b), req, t) is Some,
        outcome(Predicate::Const(b), req, t)->0.result == Tri::True <==> b,
        outcome(Predicate::Const(b), req, t)->0.result == Tri::False <==> !b,
{
}

/// A value of a comparison is read by its kind, and a list item by item.
pub proof fn law_values_are_read_by_kind(m: JsonModel, items: Seq<JsonModel>, i: int)
    ensures
        m matches JsonModel::Bool(b) ==> operand_of(m) == OperandModel::One(AtomModel::Flag(b)),
        m matches JsonModel::Text(s) ==> operand_of(m) == OperandModel::One(AtomModel::Text(s)),
        m matches JsonModel::Whole(n) ==> operand_of(m) == OperandModel::One(
            AtomModel::Count(Number::Whole(n as i128)),
        ),
        m matches JsonModel::Double(d) ==> operand_of(m) == OperandModel::One(
            AtomModel::Count(Number::Double(d)),
        ),
        operand_of(JsonModel::Array(items)) is Many,
        operand_of(JsonModel::Array(items))->Many_0.len() == items.len(),
        0 <= i < items.len() && !(items[i] is Array) ==> operand_of(items[i]) == OperandModel::One(
            operand_of(JsonModel::Array(items))->Many_0[i],
        ),
{
}

} // verus!
