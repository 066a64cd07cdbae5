//! Probing a provider: fetching its list of models, and sending it a minimal
//! request.

use crate::admin::{api_fault, says, ApiError};
use crate::credentials::{CredentialStrategy, StaticKeyStrategy};
use crate::crypto::{crypto_text, redact, redacted, secret_in};
use crate::json::{
    field_of, get_field, get_whole, json_model, json_read, node_model, read_json, text_field,
    try_parse_json, whole_field, JsonModel, Node,
};
use crate::text::{
    begins_with, byte_count, byte_len, chars_of, cuts_at, decimal, decimal_text, head, head_of,
    same, starts_with, strip_prefix, text2, text3, text4, text_range, views,
};
use crate::types::{text_in, AccountRow, Message, ModelRow, Part, ProviderRow, Role};
use vstd::prelude::*;
use vstd::utf8::encode_utf8;

verus! {

/// The first `max` bytes of a text and an ellipsis; a text that is not longer
/// stays as it is.
pub open spec fn truncated(s: Seq<char>, max: int) -> Seq<char> {
    if byte_len(s) <= max {
        s
    } else {
        head_of(s, max) + "\u{2026}"@
    }
}

/// Whether a text can be cut after `max` bytes, if it has to be.
pub open spec fn can_truncate(s: Seq<char>, max: int) -> bool {
    byte_len(s) <= max || cuts_at(s, max)
}

/// Cuts a text after `max` bytes.
pub fn truncate(s: &str, max: usize) -> (r: String)
    requires
        can_truncate(s@, max as int),
    ensures
        r@ == truncated(s@, max as int),
{
    if byte_count(s) <= max {
        s.to_owned()
    } else {
        let h = head(s, max);
        text2(h.as_str(), "\u{2026}")
    }
}

/// A text without the slashes at its end.
pub open spec fn without_slashes(s: Seq<char>) -> Seq<char>
    decreases s.len(),
{
    if s.len() > 0 && s.last() == '/' {
        without_slashes(s.drop_last())
    } else {
        s
    }
}

pub(crate) fn strip_slashes(s: &str) -> (r: String)
    ensures
        r@ == without_slashes(s@),
{
    let chars = chars_of(s);
    let mut n: usize = chars.len();
    assert(chars@.take(n as int) =~= s@);
    while n > 0 && chars[n - 1] == '/'
        invariant
            n <= chars@.len(),
            without_slashes(chars@.take(n as int)) == without_slashes(s@),
        decreases n,
    {
        assert(chars@.take(n as int).drop_last() =~= chars@.take(n - 1));
        n = n - 1;
    }
    assert(chars@.subrange(0, n as int) =~= chars@.take(n as int));
    text_range(&chars, 0, n)
}

/// The URL of a provider's list of models.
pub open spec fn models_url(base: Seq<char>, path: Seq<char>) -> Seq<char> {
    if path.len() > 0 && path[0] == '/' {
        without_slashes(base) + path
    } else {
        without_slashes(base) + "/"@ + path
    }
}

/// The URL of a provider's list of models: the path is the provider's own, or
/// that of its wire format.
pub fn discovery_url(base_url: &str, models_path: &Option<String>, default_path: &str) -> (r: String)
    ensures
        r@ == models_url(
            base_url@,
            match *models_path {
                Some(p) => p@,
                None => default_path@,
            },
        ),
{
    let path = match models_path {
        Some(p) => p.clone(),
        None => default_path.to_owned(),
    };
    let base = strip_slashes(base_url);
    proof {
        reveal_strlit("/");
        assert("/"@ =~= seq!['/']);
        if path@.len() > 0 {
            assert(path@.take(1) =~= seq![path@[0]]);
        }
    }
    if starts_with(path.as_str(), "/") {
        assert(path@.take(1)[0] == '/');
        text2(base.as_str(), path.as_str())
    } else {
        text3(base.as_str(), "/", path.as_str())
    }
}

/// What a probe is for.
#[derive(Debug, Clone, Copy, PartialEq, Eq, Structural)]
pub enum Purpose {
    Discover,
    Test,
}

/// The error for a provider without accounts.
pub open spec fn no_credentials(p: Purpose) -> Seq<char> {
    match p {
        Purpose::Discover => "provider has no credentials to discover with"@,
        Purpose::Test => "provider has no credentials to test with"@,
    }
}

/// A provider with a credential to probe it with.
#[derive(Debug)]
pub struct Probe {
    pub provider: ProviderRow,
    pub account: AccountRow,
    pub credential: String,
}

/// Begins a probe: the provider must be there, its first account is used, and
/// the credential of that account must be readable.
pub fn begin_probe(
    purpose: Purpose,
    provider: Option<ProviderRow>,
    accounts: &Vec<AccountRow>,
    strategy: &StaticKeyStrategy,
) -> (r: Result<Probe, ApiError>)
    ensures
        provider is None ==> (r matches Err(e) && e@ == api_fault(404, "provider not found"@)),
        provider is Some && accounts@.len() == 0 ==> (r matches Err(e) && e@ == api_fault(
            400,
            no_credentials(purpose),
        )),
        provider is Some && accounts@.len() > 0 ==> match secret_in(
            strategy@,
            accounts@[0].secret_enc@,
        ) {
            Ok(secret) => r matches Ok(p) && p.provider == provider->0 && p.account == accounts@[0]
                && p.credential@ == secret,
            Err(f) => r matches Err(e) && e@ == api_fault(500, crypto_text(f)),
        },
{
    let provider = match provider {
        Some(p) => p,
        None => {
            return Err(ApiError::not_found("provider not found".to_owned()));
        },
    };
    if accounts.len() == 0 {
        let message = match purpose {
            Purpose::Discover => "provider has no credentials to discover with",
            Purpose::Test => "provider has no credentials to test with",
        };
        return Err(ApiError::bad(message.to_owned()));
    }
    let account = accounts[0].clone();
    match strategy.credential(&account) {
        Ok(credential) => Ok(Probe { provider, account, credential }),
        Err(e) => Err(ApiError::internal(e.message())),
    }
}

/// What came back from an upstream: a status and a body, or why nothing came.
#[derive(Debug)]
pub enum Reply {
    Answer { status: u16, body: String },
    Failed(String),
}

/// Whether a status means success.
pub open spec fn is_success(status: u16) -> bool {
    200 <= status < 300
}

/// Whether what is shown of a reply can be cut: of a success, or of an error.
pub open spec fn can_show(reply: Reply, success: bool) -> bool {
    reply matches Reply::Answer { status, body } ==> (is_success(status) == success
        ==> can_truncate(body@, 400))
}

/// The body of a list of models, or why there is none. What is shown of an error
/// is redacted.
pub fn judge_discovery(reply: Reply) -> (r: Result<String, ApiError>)
    requires
        can_show(reply, false),
    ensures
        match reply {
            Reply::Failed(e) => r matches Err(got) && got@ == api_fault(
                400,
                "discovery request failed: "@ + redacted(e@),
            ),
            Reply::Answer { status, body } => if is_success(status) {
                r matches Ok(text) && text@ == body@
            } else {
                r matches Err(got) && got@ == api_fault(
                    400,
                    "upstream returned HTTP "@ + decimal(status as nat) + ": "@ + redacted(
                        truncated(body@, 400),
                    ),
                )
            },
        },
{
    match reply {
        Reply::Failed(e) => {
            let shown = redact(e.as_str());
            Err(ApiError::bad(text2("discovery request failed: ", shown.as_str())))
        },
        Reply::Answer { status, body } => {
            if 200 <= status && status < 300 {
                return Ok(body);
            }
            let code = decimal_text(status as u64);
            let cut = truncate(body.as_str(), 400);
            let shown = redact(cut.as_str());
            Err(
                ApiError::bad(
                    text4("upstream returned HTTP ", code.as_str(), ": ", shown.as_str()),
                ),
            )
        },
    }
}

/// A model that an upstream advertises.
#[derive(Debug)]
pub struct DiscoveredModel {
    pub id: String,
    pub display_name: String,
    pub context_window: Option<i64>,
    pub max_output_tokens: Option<i64>,
}

/// What a `DiscoveredModel` holds.
pub struct ModelEntry {
    pub id: Seq<char>,
    pub display_name: Seq<char>,
    pub context_window: Option<i64>,
    pub max_output_tokens: Option<i64>,
}

impl View for DiscoveredModel {
    type V = ModelEntry;

    open spec fn view(&self) -> ModelEntry {
        ModelEntry {
            id: self.id@,
            display_name: self.display_name@,
            context_window: self.context_window,
            max_output_tokens: self.max_output_tokens,
        }
    }
}

/// The entries of a list of models.
pub open spec fn entry_views(v: Seq<DiscoveredModel>) -> Seq<ModelEntry> {
    v.map_values(|m: DiscoveredModel| m@)
}

/// Reads the text of a list of models, or says why it is no JSON document.
pub fn read_model_list(text: &str) -> (r: Result<serde_json::Value, ApiError>)
    ensures
        match json_read(encode_utf8(text@)) {
            Ok(m) => r matches Ok(v) && json_model(v) == m,
            Err(e) => r matches Err(x) && x@ == api_fault(
                400,
                "invalid discovery response: "@ + e,
            ),
        },
{
    match try_parse_json(text.as_bytes()) {
        Ok(v) => Ok(v),
        Err(e) => Err(ApiError::bad(text2("invalid discovery response: ", e.as_str()))),
    }
}

/// The first that is there.
pub open spec fn either<T>(a: Option<T>, b: Option<T>) -> Option<T> {
    if a is Some {
        a
    } else {
        b
    }
}

/// A name without the `models/` that some upstreams put before it.
pub open spec fn bare_name(s: Seq<char>) -> Seq<char> {
    if begins_with(s, "models/"@) {
        s.skip("models/"@.len() as int)
    } else {
        s
    }
}

/// The model that an item of a list stands for: the `id`, or the `name`, says
/// which it is, and an item with neither stands for none.
pub open spec fn entry_in(m: JsonModel) -> Option<ModelEntry> {
    match either(text_field(m, "id"@), text_field(m, "name"@)) {
        None => None,
        Some(name) => Some(
            ModelEntry {
                id: bare_name(name),
                display_name: match either(
                    text_field(m, "display_name"@),
                    text_field(m, "displayName"@),
                ) {
                    Some(shown) => shown,
                    None => bare_name(name),
                },
                context_window: either(
                    whole_field(m, "context_window"@),
                    whole_field(m, "inputTokenLimit"@),
                ),
                max_output_tokens: either(
                    whole_field(m, "max_output_tokens"@),
                    whole_field(m, "outputTokenLimit"@),
                ),
            },
        ),
    }
}

/// The items of a list of models: those under `data`, or else under `models`.
pub open spec fn items_in(m: JsonModel) -> Seq<JsonModel> {
    match either(field_of(m, "data"@), field_of(m, "models"@)) {
        Some(JsonModel::Array(items)) => items,
        _ => Seq::empty(),
    }
}

/// The models that items stand for, in their order.
pub open spec fn entries_in(items: Seq<JsonModel>) -> Seq<ModelEntry>
    decreases items.len(),
{
    if items.len() == 0 {
        Seq::empty()
    } else {
        let rest = entries_in(items.drop_last());
        match entry_in(items.last()) {
            Some(e) => rest.push(e),
            None => rest,
        }
    }
}

fn field_text(n: &Node, first: &str, second: &str) -> (r: Option<String>)
    ensures
        text_in(r) == either(
            text_field(node_model(*n), first@),
            text_field(node_model(*n), second@),
        ),
{
    if let Some(f) = get_field(n, first) {
        if let Node::Text(s) = read_json(f) {
            return Some(s);
        }
    }
    if let Some(f) = get_field(n, second) {
        if let Node::Text(s) = read_json(f) {
            return Some(s);
        }
    }
    None
}

fn field_whole(n: &Node, first: &str, second: &str) -> (r: Option<i64>)
    ensures
        r == either(
            whole_field(node_model(*n), first@),
            whole_field(node_model(*n), second@),
        ),
{
    match get_whole(n, first) {
        Some(v) => Some(v),
        None => get_whole(n, second),
    }
}

fn read_entry(v: &serde_json::Value) -> (r: Option<DiscoveredModel>)
    ensures
        match r {
            Some(m) => entry_in(json_model(*v)) == Some(m@),
            None => entry_in(json_model(*v)) is None,
        },
{
    let n = read_json(v);
    let name = match field_text(&n, "id", "name") {
        Some(s) => s,
        None => {
            return None;
        },
    };
    let id = match strip_prefix(name.as_str(), "models/") {
        Some(rest) => rest,
        None => name,
    };
    let display_name = match field_text(&n, "display_name", "displayName") {
        Some(shown) => shown,
        None => id.clone(),
    };
    Some(
        DiscoveredModel {
            id,
            display_name,
            context_window: field_whole(&n, "context_window", "inputTokenLimit"),
            max_output_tokens: field_whole(&n, "max_output_tokens", "outputTokenLimit"),
        },
    )
}

/// The models that a list of an upstream advertises.
pub fn parse_model_list(list: &serde_json::Value) -> (r: Vec<DiscoveredModel>)
    ensures
        entry_views(r@) == entries_in(items_in(json_model(*list))),
{
    let n = read_json(list);
    let under = match get_field(&n, "data") {
        Some(f) => Some(f),
        None => get_field(&n, "models"),
    };
    let items: Vec<serde_json::Value> = match under {
        Some(f) => match read_json(f) {
            Node::Array(items) => items,
            _ => Vec::new(),
        },
        None => Vec::new(),
    };
    let ghost shown = items_in(json_model(*list));
    assert(shown =~= items@.map_values(|v: serde_json::Value| json_model(v)));
    let mut out: Vec<DiscoveredModel> = Vec::new();
    let mut i: usize = 0;
    assert(entry_views(out@) =~= entries_in(shown.take(0)));
    while i < items.len()
        invariant
            i <= items@.len(),
            shown == items@.map_values(|v: serde_json::Value| json_model(v)),
            entry_views(out@) == entries_in(shown.take(i as int)),
        decreases items@.len() - i,
    {
        let ghost before = out@;
        assert(shown.take(i + 1).drop_last() =~= shown.take(i as int));
        assert(shown.take(i + 1).last() == json_model(items@[i as int]));
        if let Some(m) = read_entry(&items[i]) {
            out.push(m);
            assert(entry_views(out@) =~= entry_views(before).push(m@));
        }
        i = i + 1;
    }
    assert(shown.take(i as int) =~= shown);
    out
}

/// What a list of an upstream showed of a stored model.
#[derive(Debug)]
pub struct Observation {
    pub model_id: String,
    /// Whether the upstream advertises the model.
    pub advertised: bool,
    pub context_window: Option<i64>,
    pub max_output_tokens: Option<i64>,
    pub observed_at: String,
}

/// A list of models of an upstream, held against the stored ones.
#[derive(Debug)]
pub struct Discovery {
    pub models: Vec<DiscoveredModel>,
    /// For each model whether it is stored already.
    pub already_imported: Vec<bool>,
    /// The stored models that the upstream does not advertise any more.
    pub disappeared: Vec<String>,
    /// For each stored model what the list showed of it.
    pub observations: Vec<Observation>,
}

/// Whether a model is stored.
pub open spec fn is_imported(existing: Seq<ModelRow>, id: Seq<char>) -> bool {
    exists|i: int| 0 <= i < existing.len() && (#[trigger] existing[i]).upstream_id@ == id
}

/// Whether a model is advertised.
pub open spec fn is_advertised(models: Seq<DiscoveredModel>, id: Seq<char>) -> bool {
    exists|i: int| 0 <= i < models.len() && (#[trigger] models[i]).id@ == id
}

/// The upstream ids of the stored models that are not advertised, in their
/// order.
pub open spec fn gone(existing: Seq<ModelRow>, models: Seq<DiscoveredModel>) -> Seq<Seq<char>>
    decreases existing.len(),
{
    if existing.len() == 0 {
        Seq::empty()
    } else {
        let rest = gone(existing.drop_last(), models);
        if is_advertised(models, existing.last().upstream_id@) {
            rest
        } else {
            rest.push(existing.last().upstream_id@)
        }
    }
}

fn imported(existing: &Vec<ModelRow>, id: &str) -> (r: bool)
    ensures
        r == is_imported(existing@, id@),
{
    let mut i: usize = 0;
    while i < existing.len()
        invariant
            i <= existing@.len(),
            forall|k: int| 0 <= k < i ==> (#[trigger] existing@[k]).upstream_id@ != id@,
        decreases existing@.len() - i,
    {
        if same(existing[i].upstream_id.as_str(), id) {
            assert(existing@[i as int].upstream_id@ == id@);
            return true;
        }
        i = i + 1;
    }
    false
}

/// The first model of a name in a list, from `i` on.
pub open spec fn listed_from(models: Seq<DiscoveredModel>, id: Seq<char>, i: int) -> Option<
    ModelEntry,
>
    decreases models.len() - i,
{
    if i < 0 || i >= models.len() {
        None
    } else if models[i].id@ == id {
        Some(models[i]@)
    } else {
        listed_from(models, id, i + 1)
    }
}

/// Whether an observation says what a list shows of a stored model.
pub open spec fn is_observation(
    o: Observation,
    row: ModelRow,
    models: Seq<DiscoveredModel>,
    observed_at: Seq<char>,
) -> bool {
    &&& o.model_id@ == row.id@
    &&& o.observed_at@ == observed_at
    &&& match listed_from(models, row.upstream_id@, 0) {
        Some(e) => o.advertised && o.context_window == e.context_window && o.max_output_tokens
            == e.max_output_tokens,
        None => !o.advertised && o.context_window is None && o.max_output_tokens is None,
    }
}

fn find_listed(models: &Vec<DiscoveredModel>, id: &str) -> (r: Option<usize>)
    ensures
        r is Some == is_advertised(models@, id@),
        match r {
            Some(k) => k < models@.len() && listed_from(models@, id@, 0) == Some(
                models@[k as int]@,
            ),
            None => listed_from(models@, id@, 0) is None,
        },
{
    let mut i: usize = 0;
    while i < models.len()
        invariant
            i <= models@.len(),
            forall|k: int| 0 <= k < i ==> (#[trigger] models@[k]).id@ != id@,
            listed_from(models@, id@, 0) == listed_from(models@, id@, i as int),
        decreases models@.len() - i,
    {
        if same(models[i].id.as_str(), id) {
            assert(models@[i as int].id@ == id@);
            return Some(i);
        }
        i = i + 1;
    }
    None
}

fn observe(row: &ModelRow, models: &Vec<DiscoveredModel>, observed_at: &str) -> (r: Observation)
    ensures
        is_observation(r, *row, models@, observed_at@),
        r.advertised == is_advertised(models@, row.upstream_id@),
{
    let model_id = row.id.clone();
    let observed_at = observed_at.to_owned();
    match find_listed(models, row.upstream_id.as_str()) {
        Some(k) => Observation {
            model_id,
            advertised: true,
            context_window: models[k].context_window,
            max_output_tokens: models[k].max_output_tokens,
            observed_at,
        },
        None => Observation {
            model_id,
            advertised: false,
            context_window: None,
            max_output_tokens: None,
            observed_at,
        },
    }
}

/// Whether a discovery is a list of models held against the stored ones.
pub open spec fn is_discovery(
    d: Discovery,
    models: Seq<ModelEntry>,
    existing: Seq<ModelRow>,
    observed_at: Seq<char>,
) -> bool {
    &&& entry_views(d.models@) == models
    &&& d.already_imported@.len() == models.len()
    &&& forall|i: int|
        0 <= i < models.len() ==> #[trigger] d.already_imported@[i] == is_imported(
            existing,
            models[i].id,
        )
    &&& views(d.disappeared@) == gone(existing, d.models@)
    &&& d.observations@.len() == existing.len()
    &&& forall|i: int|
        0 <= i < existing.len() ==> is_observation(
            #[trigger] d.observations@[i],
            existing[i],
            d.models@,
            observed_at,
        )
}

/// Holds what an upstream advertises against the stored models. The stored
/// models are not changed: those that are gone are only named, and of each is
/// said what the list shows of it.
pub fn discover_models(
    models: Vec<DiscoveredModel>,
    existing: &Vec<ModelRow>,
    observed_at: &str,
) -> (r: Discovery)
    ensures
        r.models@ == models@,
        is_discovery(r, entry_views(models@), existing@, observed_at@),
{
    let mut already_imported: Vec<bool> = Vec::new();
    let mut i: usize = 0;
    while i < models.len()
        invariant
            i <= models@.len(),
            already_imported@.len() == i,
            forall|k: int|
                0 <= k < i ==> #[trigger] already_imported@[k] == is_imported(
                    existing@,
                    models@[k].id@,
                ),
        decreases models@.len() - i,
    {
        let known = imported(existing, models[i].id.as_str());
        already_imported.push(known);
        i = i + 1;
    }
    let mut disappeared: Vec<String> = Vec::new();
    let mut observations: Vec<Observation> = Vec::new();
    let mut j: usize = 0;
    while j < existing.len()
        invariant
            j <= existing@.len(),
            views(disappeared@) == gone(existing@.take(j as int), models@),
            observations@.len() == j,
            forall|k: int|
                0 <= k < j ==> is_observation(
                    #[trigger] observations@[k],
                    existing@[k],
                    models@,
                    observed_at@,
                ),
        decreases existing@.len() - j,
    {
        let ghost before = disappeared@;
        assert(existing@.take(j + 1).drop_last() =~= existing@.take(j as int));
        let seen = observe(&existing[j], &models, observed_at);
        if !seen.advertised {
            disappeared.push(existing[j].upstream_id.clone());
            assert(views(disappeared@) =~= views(before).push(existing@[j as int].upstream_id@));
        }
        observations.push(seen);
        j = j + 1;
    }
    assert(existing@.take(j as int) =~= existing@);
    Discovery { models, already_imported, disappeared, observations }
}

/// Judges what came back on a request for a list of models: the list, held
/// against the stored models, or what is wrong with the reply.
pub fn answer_discovery(reply: Reply, existing: &Vec<ModelRow>, observed_at: &str) -> (r: Result<
    Discovery,
    ApiError,
>)
    requires
        can_show(reply, false),
    ensures
        match reply {
            Reply::Failed(e) => r matches Err(got) && got@ == api_fault(
                400,
                "discovery request failed: "@ + redacted(e@),
            ),
            Reply::Answer { status, body } => if !is_success(status) {
                r matches Err(got) && got@ == api_fault(
                    400,
                    "upstream returned HTTP "@ + decimal(status as nat) + ": "@ + redacted(
                        truncated(body@, 400),
                    ),
                )
            } else {
                match json_read(encode_utf8(body@)) {
                    Err(e) => r matches Err(got) && got@ == api_fault(
                        400,
                        "invalid discovery response: "@ + e,
                    ),
                    Ok(m) => r matches Ok(d) && is_discovery(
                        d,
                        entries_in(items_in(m)),
                        existing@,
                        observed_at@,
                    ),
                }
            },
        },
{
    let text = match judge_discovery(reply) {
        Ok(t) => t,
        Err(e) => {
            return Err(e);
        },
    };
    let list = match read_model_list(text.as_str()) {
        Ok(v) => v,
        Err(e) => {
            return Err(e);
        },
    };
    Ok(discover_models(parse_model_list(&list), existing, observed_at))
}

/// Stores the text of an observation with a model. Nothing else of the model
/// changes.
pub fn record_observation(row: ModelRow, observation: String) -> (r: ModelRow)
    ensures
        r == (ModelRow { discovery: observation, ..row }),
{
    ModelRow { discovery: observation, ..row }
}

proof fn lemma_gone(existing: Seq<ModelRow>, models: Seq<DiscoveredModel>, id: Seq<char>)
    ensures
        gone(existing, models).contains(id) == (is_imported(existing, id) && !is_advertised(
            models,
            id,
        )),
    decreases existing.len(),
{
    if existing.len() > 0 {
        let front = existing.drop_last();
        lemma_gone(front, models, id);
        let rest = gone(front, models);
        let last = existing.last().upstream_id@;
        assert(is_imported(existing, id) == (is_imported(front, id) || last == id)) by {
            if is_imported(front, id) {
                let k = choose|k: int| 0 <= k < front.len() && (#[trigger] front[k]).upstream_id@ == id;
                assert(existing[k].upstream_id@ == id);
            }
            if last == id {
                assert(existing[existing.len() - 1].upstream_id@ == id);
            }
            if is_imported(existing, id) {
                let k = choose|k: int|
                    0 <= k < existing.len() && (#[trigger] existing[k]).upstream_id@ == id;
                if k < front.len() {
                    assert(front[k].upstream_id@ == id);
                }
            }
        }
        assert(rest.push(last).contains(id) == (rest.contains(id) || last == id)) by {
            if rest.contains(id) {
                let k = choose|k: int| 0 <= k < rest.len() && rest[k] == id;
                assert(rest.push(last)[k] == id);
            }
            if last == id {
                assert(rest.push(last)[rest.len() as int] == id);
            }
        }
    }
}

/// A stored model is named as gone exactly where the upstream does not advertise
/// it, and nothing else is named.
pub proof fn law_only_what_is_gone_is_named(
    existing: Seq<ModelRow>,
    models: Seq<DiscoveredModel>,
    id: Seq<char>,
)
    ensures
        gone(existing, models).contains(id) <==> is_imported(existing, id) && !is_advertised(
            models,
            id,
        ),
{
    lemma_gone(existing, models, id);
}

/// An observation says of a stored model that it is advertised exactly where the
/// model is not named as gone.
pub proof fn law_observations_name_what_is_gone(
    o: Observation,
    row: ModelRow,
    existing: Seq<ModelRow>,
    models: Seq<DiscoveredModel>,
    observed_at: Seq<char>,
)
    requires
        existing.contains(row),
        is_observation(o, row, models, observed_at),
    ensures
        o.advertised <==> !gone(existing, models).contains(row.upstream_id@),
{
    lemma_gone(existing, models, row.upstream_id@);
    let k = choose|k: int| 0 <= k < existing.len() && existing[k] == row;
    assert(existing[k].upstream_id@ == row.upstream_id@);
    lemma_listed(models, row.upstream_id@, 0);
    if is_advertised(models, row.upstream_id@) {
        let j = choose|j: int|
            0 <= j < models.len() && (#[trigger] models[j]).id@ == row.upstream_id@;
        assert(models[j].id@ == row.upstream_id@);
    }
}

proof fn lemma_listed(models: Seq<DiscoveredModel>, id: Seq<char>, i: int)
    requires
        0 <= i <= models.len(),
    ensures
        listed_from(models, id, i) is Some <==> exists|k: int|
            i <= k < models.len() && (#[trigger] models[k]).id@ == id,
    decreases models.len() - i,
{
    if i < models.len() {
        lemma_listed(models, id, i + 1);
        if models[i].id@ != id && listed_from(models, id, i) is None {
            assert forall|k: int| i <= k < models.len() implies (#[trigger] models[k]).id@ != id by {
                if k > i {
                    assert(i + 1 <= k < models.len());
                }
            }
        }
    }
}

/// A test of a provider.
#[derive(Debug)]
pub struct TestBody {
    pub model: Option<String>,
}

/// The request that tests a provider.
#[derive(Debug)]
pub struct ProbeRequest {
    pub model: ModelRow,
    pub messages: Vec<Message>,
    pub max_tokens: u32,
    pub stream: bool,
}

/// Whether a row describes a model that is not stored, for a probe.
pub open spec fn is_probe_model(m: ModelRow, provider_id: Seq<char>, upstream_id: Seq<char>, now: Seq<
    char,
>) -> bool {
    &&& m.id@ == "probe"@
    &&& m.provider_id@ == provider_id
    &&& m.upstream_id@ == upstream_id
    &&& m.display_name@ == upstream_id
    &&& m.enabled == 1
    &&& m.context_window is None
    &&& m.max_output_tokens == Some(64i64)
    &&& m.capabilities@ == "{}"@
    &&& m.prices@ == "{}"@
    &&& m.parameters@ == "{}"@
    &&& m.thinking_map@ == "{}"@
    &&& m.extra_request@ == "{}"@
    &&& m.discovery@ == "{}"@
    &&& m.created_at@ == now
}

/// The request that tests a provider: a model must be named, and one that is not
/// stored is taken as it is. `stored` is the stored model of that name.
pub fn test_request(provider_id: &str, body: &TestBody, stored: Option<ModelRow>, now: &str) -> (r:
    Result<ProbeRequest, ApiError>)
    ensures
        match body.model {
            None => r matches Err(e) && e@ == api_fault(400, "provide a model to test"@),
            Some(name) => r matches Ok(p) && (match stored {
                Some(m) => p.model == m,
                None => is_probe_model(p.model, provider_id@, name@, now@),
            }) && p.messages@.len() == 1 && says(
                p.messages@[0],
                Role::User,
                "Reply with the single word: ok"@,
            ) && p.max_tokens == 16 && !p.stream,
        },
{
    let name = match &body.model {
        Some(n) => n,
        None => {
            return Err(ApiError::bad("provide a model to test".to_owned()));
        },
    };
    let model = match stored {
        Some(m) => m,
        None => ModelRow {
            id: "probe".to_owned(),
            provider_id: provider_id.to_owned(),
            upstream_id: name.clone(),
            display_name: name.clone(),
            enabled: 1,
            context_window: None,
            max_output_tokens: Some(64),
            capabilities: "{}".to_owned(),
            prices: "{}".to_owned(),
            parameters: "{}".to_owned(),
            thinking_map: "{}".to_owned(),
            extra_request: "{}".to_owned(),
            discovery: "{}".to_owned(),
            created_at: now.to_owned(),
        },
    };
    let mut parts: Vec<Part> = Vec::new();
    parts.push(Part::Text("Reply with the single word: ok".to_owned()));
    let mut messages: Vec<Message> = Vec::new();
    messages.push(Message { role: Role::User, parts });
    Ok(ProbeRequest { model, messages, max_tokens: 16, stream: false })
}

/// How a test of a provider went.
#[derive(Debug)]
pub struct TestReport {
    pub ok: bool,
    /// Zero where no reply came.
    pub status: u16,
    pub latency_ms: Option<i64>,
    pub response_preview: Option<String>,
    pub error: Option<String>,
}

/// The report on a test: a preview of a success, the message of an upstream
/// error, or, redacted, why no reply came. `failure` is the message that the
/// wire format reads from an error.
pub fn judge_test(reply: Reply, latency_ms: i64, failure: &str) -> (r: TestReport)
    requires
        can_show(reply, true),
    ensures
        match reply {
            Reply::Failed(e) => {
                &&& !r.ok
                &&& r.status == 0
                &&& r.latency_ms is None
                &&& r.response_preview is None
                &&& text_in(r.error) == Some(redacted(e@))
            },
            Reply::Answer { status, body } => {
                &&& r.ok == is_success(status)
                &&& r.status == status
                &&& r.latency_ms == Some(latency_ms)
                &&& text_in(r.response_preview) == (if is_success(status) {
                    Some(truncated(body@, 400))
                } else {
                    None
                })
                &&& text_in(r.error) == (if is_success(status) {
                    None
                } else {
                    Some(failure@)
                })
            },
        },
{
    match reply {
        Reply::Failed(e) => TestReport {
            ok: false,
            status: 0,
            latency_ms: None,
            response_preview: None,
            error: Some(redact(e.as_str())),
        },
        Reply::Answer { status, body } => if 200 <= status && status < 300 {
            TestReport {
                ok: true,
                status,
                latency_ms: Some(latency_ms),
                response_preview: Some(truncate(body.as_str(), 400)),
                error: None,
            }
        } else {
            TestReport {
                ok: false,
                status,
                latency_ms: Some(latency_ms),
                response_preview: None,
                error: Some(failure.to_owned()),
            }
        },
    }
}

/// Between the base and the path stands one slash: however many the base ends
/// with, and whether or not the path begins with one.
pub proof fn law_one_slash_joins(base: Seq<char>, path: Seq<char>)
    requires
        base.len() > 0 ==> base.last() != '/',
        path.len() == 0 || path[0] != '/',
    ensures
        models_url(base, path) == base + seq!['/'] + path,
        models_url(base, seq!['/'] + path) == base + seq!['/'] + path,
        models_url(base.push('/'), path) == models_url(base, path),
        without_slashes(base) == base,
        without_slashes(base.push('/')) == base,
        without_slashes(base.push('/').push('/')) == base,
{
    reveal_strlit("/");
    assert("/"@ =~= seq!['/']);
    assert(base.push('/').drop_last() =~= base);
    assert(base.push('/').push('/').drop_last() =~= base.push('/'));
    assert(without_slashes(base.push('/')) == without_slashes(base));
    assert(base + (seq!['/'] + path) =~= base + seq!['/'] + path);
}

/// A text that is short enough is shown whole; a longer one is cut, and the cut is
/// marked.
pub proof fn law_long_answers_are_cut(s: Seq<char>, max: int)
    requires
        0 <= max,
    ensures
        byte_len(s) <= max ==> truncated(s, max) == s,
        byte_len(s) > max ==> truncated(s, max) == head_of(s, max) + "\u{2026}"@,
{
}

/// A success is a status from 200 to 299.
pub proof fn law_successes(status: u16)
    ensures
        is_success(status) <==> status / 100 == 2,
{
}

/// A model is known by its id before its name, without the folder that some
/// providers put before it, and shown under the name that is for showing.
pub proof fn law_entries_are_read(m: JsonModel, name: Seq<char>, bare: Seq<char>)
    ensures
        bare_name("models/"@ + bare) == bare,
        !begins_with(name, "models/"@) ==> bare_name(name) == name,
        text_field(m, "id"@) is None && text_field(m, "name"@) is None ==> entry_in(m) is None,
        text_field(m, "id"@) == Some(name) ==> entry_in(m) is Some && entry_in(m)->0.id == bare_name(
            name,
        ),
        text_field(m, "id"@) is None && text_field(m, "name"@) == Some(name) ==> entry_in(m) is Some
            && entry_in(m)->0.id == bare_name(name),
        entry_in(m) matches Some(e) ==> {
            &&& text_field(m, "display_name"@) matches Some(shown) ==> e.display_name == shown
            &&& text_field(m, "display_name"@) is None ==> (text_field(m, "displayName"@)
                matches Some(shown) ==> e.display_name == shown)
            &&& text_field(m, "display_name"@) is None && text_field(m, "displayName"@) is None
                ==> e.display_name == e.id
            &&& whole_field(m, "context_window"@) is Some ==> e.context_window == whole_field(
                m,
                "context_window"@,
            )
            &&& whole_field(m, "context_window"@) is None ==> e.context_window == whole_field(
                m,
                "inputTokenLimit"@,
            )
            &&& whole_field(m, "max_output_tokens"@) is Some ==> e.max_output_tokens
                == whole_field(m, "max_output_tokens"@)
            &&& whole_field(m, "max_output_tokens"@) is None ==> e.max_output_tokens
                == whole_field(m, "outputTokenLimit"@)
        },
{
    let s = "models/"@ + bare;
    assert(s.take("models/"@.len() as int) =~= "models/"@);
    assert(s.skip("models/"@.len() as int) =~= bare);
}

/// The models are those listed, under either name of the list, in order; what has
/// no name is left out and nothing else is.
pub proof fn law_lists_are_read_item_by_item(
    m: JsonModel,
    a: Seq<JsonModel>,
    x: JsonModel,
    b: Seq<JsonModel>,
)
    ensures
        entries_in(a + b) == entries_in(a) + entries_in(b),
        entry_in(x) matches Some(e) ==> entries_in(seq![x]) == seq![e],
        entry_in(x) is None ==> entries_in(seq![x]).len() == 0,
        field_of(m, "data"@) == Some(JsonModel::Array(a)) ==> items_in(m) == a,
        field_of(m, "data"@) is None && field_of(m, "models"@) == Some(JsonModel::Array(a))
            ==> items_in(m) == a,
    decreases b.len(),
{
    assert(seq![x].drop_last() =~= Seq::<JsonModel>::empty());
    assert(entries_in(seq![x].drop_last()) =~= Seq::<ModelEntry>::empty());
    if let Some(e) = entry_in(x) {
        assert(Seq::<ModelEntry>::empty().push(e) =~= seq![e]);
    }
    if b.len() == 0 {
        assert(a + b =~= a);
        assert(entries_in(a) + entries_in(b) =~= entries_in(a));
    } else {
        law_lists_are_read_item_by_item(m, a, x, b.drop_last());
        assert((a + b).drop_last() =~= a + b.drop_last());
        assert((a + b).last() == b.last());
        assert(entries_in(a + b) =~= entries_in(a) + entries_in(b));
    }
}

/// A discovered model counts as imported where a stored model bears its name, and
/// an observation tells what the provider lists of it, of several the first.
pub proof fn law_discoveries_match_by_name(
    existing: Seq<ModelRow>,
    models: Seq<DiscoveredModel>,
    i: int,
    id: Seq<char>,
)
    ensures
        0 <= i < existing.len() && existing[i].upstream_id@ == id ==> is_imported(existing, id),
        (forall|k: int| 0 <= k < existing.len() ==> (#[trigger] existing[k]).upstream_id@ != id)
            ==> !is_imported(existing, id),
        0 <= i < models.len() && models[i].id@ == id && (forall|k: int|
            0 <= k < i ==> (#[trigger] models[k]).id@ != id) ==> listed_from(models, id, 0) == Some(
            models[i]@,
        ),
        (forall|k: int| 0 <= k < models.len() ==> (#[trigger] models[k]).id@ != id) ==> listed_from(
            models,
            id,
            0,
        ) is None,
{
    if 0 <= i < models.len() && models[i].id@ == id && (forall|k: int|
        0 <= k < i ==> (#[trigger] models[k]).id@ != id) {
        lemma_listed_at(models, id, 0, i);
    }
    if forall|k: int| 0 <= k < models.len() ==> (#[trigger] models[k]).id@ != id {
        lemma_listed_at(models, id, 0, models.len() as int);
    }
}

proof fn lemma_listed_at(models: Seq<DiscoveredModel>, id: Seq<char>, i: int, at: int)
    requires
        0 <= i <= at <= models.len(),
        at < models.len() ==> models[at].id@ == id,
        forall|k: int| i <= k < at ==> (#[trigger] models[k]).id@ != id,
    ensures
        listed_from(models, id, i) == (if at < models.len() {
            Some(models[at]@)
        } else {
            None
        }),
    decreases at - i,
{
    if i < at {
        lemma_listed_at(models, id, i + 1, at);
    }
}

/// An observation is of the stored model, tells when it was made, and tells the
/// limits that the provider lists, or none where it lists no such model.
pub proof fn law_observations_tell_what_is_listed(
    o: Observation,
    row: ModelRow,
    models: Seq<DiscoveredModel>,
    observed_at: Seq<char>,
    at: int,
)
    requires
        is_observation(o, row, models, observed_at),
    ensures
        o.model_id@ == row.id@,
        o.observed_at@ == observed_at,
        0 <= at < models.len() && models[at].id@ == row.upstream_id@ && (forall|k: int|
            0 <= k < at ==> (#[trigger] models[k]).id@ != row.upstream_id@) ==> o.advertised
            && o.context_window == models[at].context_window && o.max_output_tokens
            == models[at].max_output_tokens,
        (forall|k: int| 0 <= k < models.len() ==> (#[trigger] models[k]).id@ != row.upstream_id@)
            ==> !o.advertised && o.context_window is None && o.max_output_tokens is None,
{
    law_discoveries_match_by_name(Seq::empty(), models, at, row.upstream_id@);
}

} // verus!
