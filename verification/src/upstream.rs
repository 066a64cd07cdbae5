//! How an upstream is spoken to: where a request goes, how it is authenticated,
//! and what an error status means.

use crate::crypto::{redact, redacted};
use crate::json::{
    field_of, get_field, get_text, json_parsed, parse_json, read_json, text_field, JsonModel,
};
use crate::probe::{strip_slashes, without_slashes};
use crate::text::{
    contains, contains_part, decimal, decimal_text, law_parts_occur, lower_of, same, stands_at, text2,
    text4,
    to_ascii_lowercase,
};
use crate::types::{text_in, FailureKind, ProviderRow};
use vstd::prelude::*;
use vstd::utf8::encode_utf8;

verus! {

/// The URL of a request, by the wire format of the provider.
pub open spec fn request_url_of(wire: Seq<char>, base: Seq<char>, model: Seq<char>) -> Option<
    Seq<char>,
> {
    if wire == "openai"@ {
        Some(without_slashes(base) + "/chat/completions"@)
    } else if wire == "anthropic"@ {
        Some(without_slashes(base) + "/messages"@)
    } else if wire == "gemini"@ {
        Some(without_slashes(base) + "/models/"@ + model + ":streamGenerateContent?alt=sse"@)
    } else {
        None
    }
}

/// The URL of a request for a model; `None` for a wire format that is not known.
pub fn request_url(wire: &str, base: &str, model: &str) -> (r: Option<String>)
    ensures
        text_in(r) == request_url_of(wire@, base@, model@),
{
    let root = strip_slashes(base);
    if same(wire, "openai") {
        Some(text2(root.as_str(), "/chat/completions"))
    } else if same(wire, "anthropic") {
        Some(text2(root.as_str(), "/messages"))
    } else if same(wire, "gemini") {
        Some(text4(root.as_str(), "/models/", model, ":streamGenerateContent?alt=sse"))
    } else {
        None
    }
}

/// The path of the list of models of a wire format.
pub fn default_models_path() -> (r: &'static str)
    ensures
        r@ == "/models"@,
{
    "/models"
}

/// Where a credential is put.
#[derive(Debug)]
pub enum Placement {
    Header { name: String, value: String },
    Query { name: String, value: String },
}

/// What a `Placement` says.
pub enum PlacementModel {
    Header { name: Seq<char>, value: Seq<char> },
    Query { name: Seq<char>, value: Seq<char> },
}

impl View for Placement {
    type V = PlacementModel;

    open spec fn view(&self) -> PlacementModel {
        match *self {
            Placement::Header { name, value } => PlacementModel::Header {
                name: name@,
                value: value@,
            },
            Placement::Query { name, value } => PlacementModel::Query {
                name: name@,
                value: value@,
            },
        }
    }
}

/// Where the credential of a provider is put. A scheme that needs a name puts it
/// nowhere without one.
pub open spec fn placement_of(p: ProviderRow, credential: Seq<char>) -> Option<PlacementModel> {
    if p.auth_scheme@ == "bearer"@ {
        Some(
            PlacementModel::Header { name: "authorization"@, value: "Bearer "@ + credential },
        )
    } else if p.auth_scheme@ == "custom_header"@ {
        match p.custom_header_name {
            Some(n) => Some(PlacementModel::Header { name: n@, value: credential }),
            None => None,
        }
    } else if p.auth_scheme@ == "query_param"@ {
        match p.custom_param_name {
            Some(n) => Some(PlacementModel::Query { name: n@, value: credential }),
            None => None,
        }
    } else {
        None
    }
}

/// Where the credential of a provider is put.
pub fn place_credential(p: &ProviderRow, credential: &str) -> (r: Option<Placement>)
    ensures
        match r {
            Some(x) => placement_of(*p, credential@) == Some(x@),
            None => placement_of(*p, credential@) is None,
        },
{
    let scheme = p.auth_scheme.as_str();
    if same(scheme, "bearer") {
        Some(
            Placement::Header {
                name: "authorization".to_owned(),
                value: text2("Bearer ", credential),
            },
        )
    } else if same(scheme, "custom_header") {
        match &p.custom_header_name {
            Some(n) => Some(Placement::Header { name: n.clone(), value: credential.to_owned() }),
            None => None,
        }
    } else if same(scheme, "query_param") {
        match &p.custom_param_name {
            Some(n) => Some(Placement::Query { name: n.clone(), value: credential.to_owned() }),
            None => None,
        }
    } else {
        None
    }
}

/// What an error status of an upstream means. A refusal for want of quota is
/// told from a short rate limit by its text.
pub open spec fn failure_of(status: u16, body: Seq<char>) -> FailureKind {
    if status == 429 {
        if contains_part(lower_of(body), "quota"@) {
            FailureKind::QuotaExhausted
        } else {
            FailureKind::RateLimit
        }
    } else if status == 401 || status == 403 {
        FailureKind::AuthError
    } else if status == 408 || status == 504 {
        FailureKind::Timeout
    } else if status >= 500 {
        FailureKind::ServerError
    } else {
        FailureKind::BadRequest
    }
}

/// What an error status of an upstream means.
pub fn classify_status(status: u16, body: &str) -> (r: FailureKind)
    ensures
        r == failure_of(status, body@),
{
    if status == 429 {
        let lower = to_ascii_lowercase(body);
        if contains(lower.as_str(), "quota") {
            FailureKind::QuotaExhausted
        } else {
            FailureKind::RateLimit
        }
    } else if status == 401 || status == 403 {
        FailureKind::AuthError
    } else if status == 408 || status == 504 {
        FailureKind::Timeout
    } else if status >= 500 {
        FailureKind::ServerError
    } else {
        FailureKind::BadRequest
    }
}

/// The error of a client is never blamed on a credential, and the other way
/// round: only refusals of the credential, its rate or its quota are.
pub proof fn law_blame(status: u16, body: Seq<char>)
    ensures
        (failure_of(status, body) == FailureKind::AuthError) == (status == 401 || status == 403),
        (failure_of(status, body) == FailureKind::RateLimit || failure_of(status, body)
            == FailureKind::QuotaExhausted) == (status == 429),
        400 <= status < 500 && status != 401 && status != 403 && status != 408 && status != 429
            ==> failure_of(status, body) == FailureKind::BadRequest,
{
}

/// The message of an upstream error: what the upstream said, or its status.
pub open spec fn failure_text(status: u16, said: Option<Seq<char>>) -> Seq<char> {
    match said {
        Some(t) => if t.len() > 0 {
            t
        } else {
            "upstream returned HTTP "@ + decimal(status as nat)
        },
        None => "upstream returned HTTP "@ + decimal(status as nat),
    }
}

/// The message that the body of an upstream error says: under `error`, or beside
/// it.
pub open spec fn said_in(m: JsonModel) -> Option<Seq<char>> {
    let inner = match field_of(m, "error"@) {
        Some(e) => text_field(e, "message"@),
        None => None,
    };
    if inner is Some {
        inner
    } else {
        text_field(m, "message"@)
    }
}

/// The message that the body of an upstream error says, redacted.
pub fn said(body: &str) -> (r: Option<String>)
    ensures
        text_in(r) == match json_parsed(encode_utf8(body@)) {
            Some(m) => match said_in(m) {
                Some(t) => Some(redacted(t)),
                None => None,
            },
            None => None,
        },
{
    let v = match parse_json(body.as_bytes()) {
        Some(v) => v,
        None => {
            return None;
        },
    };
    let n = read_json(&v);
    let inner = match get_field(&n, "error") {
        Some(e) => get_text(e, "message"),
        None => None,
    };
    let found = match inner {
        Some(t) => Some(t),
        None => get_text(&v, "message"),
    };
    match found {
        Some(t) => Some(redact(t.as_str())),
        None => None,
    }
}

/// The message of an upstream error.
pub fn failure_message(status: u16, said: Option<String>) -> (r: String)
    ensures
        r@ == failure_text(status, text_in(said)),
{
    if let Some(t) = said {
        if !t.as_str().is_empty() {
            return t;
        }
    }
    let code = decimal_text(status as u64);
    text2("upstream returned HTTP ", code.as_str())
}

/// Each wire format has its own path below the base: a base with slashes at its
/// end gives the same address, the model stands in the path of one format only,
/// and no other format has an address.
pub proof fn law_addresses_lie_below_the_base(wire: Seq<char>, base: Seq<char>, model: Seq<char>)
    requires
        base.len() > 0 ==> base.last() != '/',
    ensures
        request_url_of("openai"@, base, model) == Some(base + "/chat/completions"@),
        request_url_of("anthropic"@, base, model) == Some(base + "/messages"@),
        request_url_of("gemini"@, base, model) == Some(
            base + "/models/"@ + model + ":streamGenerateContent?alt=sse"@,
        ),
        request_url_of(wire, base.push('/'), model) == request_url_of(wire, base, model),
        request_url_of(wire, base, model) is Some <==> wire == "openai"@ || wire == "anthropic"@
            || wire == "gemini"@,
{
    reveal_strlit("openai");
    reveal_strlit("anthropic");
    reveal_strlit("gemini");
    assert("openai"@[0] == 'o' && "anthropic"@[0] == 'a' && "gemini"@[0] == 'g');
    assert(base.push('/').drop_last() =~= base);
}

/// The credential goes whole where the provider's scheme says, and nowhere where
/// the scheme is unknown or lacks its name.
pub proof fn law_credentials_go_where_the_scheme_says(p: ProviderRow, credential: Seq<char>)
    ensures
        p.auth_scheme@ == "bearer"@ ==> placement_of(p, credential) == Some(
            PlacementModel::Header { name: "authorization"@, value: "Bearer "@ + credential },
        ),
        p.auth_scheme@ == "custom_header"@ ==> (p.custom_header_name is None ==> placement_of(
            p,
            credential,
        ) is None) && (p.custom_header_name matches Some(n) ==> placement_of(p, credential) == Some(
            PlacementModel::Header { name: n@, value: credential },
        )),
        p.auth_scheme@ == "query_param"@ ==> (p.custom_param_name is None ==> placement_of(
            p,
            credential,
        ) is None) && (p.custom_param_name matches Some(n) ==> placement_of(p, credential) == Some(
            PlacementModel::Query { name: n@, value: credential },
        )),
        p.auth_scheme@ != "bearer"@ && p.auth_scheme@ != "custom_header"@ && p.auth_scheme@
            != "query_param"@ ==> placement_of(p, credential) is None,
{
    reveal_strlit("bearer");
    reveal_strlit("custom_header");
    reveal_strlit("query_param");
    assert("bearer"@[0] == 'b' && "custom_header"@[0] == 'c' && "query_param"@[0] == 'q');
}

/// A failure of the provider's machines is told from one of the request: a
/// timeout by its two codes, any other code of 500 or more as the server's, and
/// whatever is below as the request's; a word of the quota, in any case, tells a
/// used-up quota from a rate limit.
pub proof fn law_failures_are_told_apart(
    status: u16,
    before: Seq<char>,
    word: Seq<char>,
    behind: Seq<char>,
)
    ensures
        status == 408 || status == 504 ==> failure_of(status, word) == FailureKind::Timeout,
        status >= 500 && status != 504 ==> failure_of(status, word) == FailureKind::ServerError,
        status < 500 && status != 401 && status != 403 && status != 408 && status != 429
            ==> failure_of(status, word) == FailureKind::BadRequest,
        lower_of(word) == "quota"@ ==> failure_of(429, before + word + behind)
            == FailureKind::QuotaExhausted,
        failure_of(429, word) == FailureKind::QuotaExhausted || failure_of(429, word)
            == FailureKind::RateLimit,
        (forall|k: int| 0 <= k < word.len() ==> #[trigger] lower_of(word)[k] != 'q')
            ==> failure_of(429, word) == FailureKind::RateLimit,
{
    reveal_strlit("quota");
    assert("quota"@.len() == 5 && "quota"@[0] == 'q');
    let s = before + word + behind;
    if lower_of(word) == "quota"@ {
        assert(lower_of(s) =~= lower_of(before) + lower_of(word) + lower_of(behind));
        law_parts_occur(lower_of(before), lower_of(word), lower_of(behind));
    }
    if contains_part(lower_of(word), "quota"@) {
        let at = choose|at: int| stands_at(lower_of(word), "quota"@, at);
        assert(lower_of(word).subrange(at, at + 5)[0] == lower_of(word)[at]);
    }
}

/// What the provider says of an error is its error's message before its own, and
/// an answer that says nothing is told by its code; nothing else is ever told.
pub proof fn law_what_the_provider_said(m: JsonModel, e: JsonModel, s: Seq<char>, status: u16)
    ensures
        field_of(m, "error"@) == Some(e) && text_field(e, "message"@) == Some(s) ==> said_in(m)
            == Some(s),
        field_of(m, "error"@) is None ==> said_in(m) == text_field(m, "message"@),
        field_of(m, "error"@) == Some(e) && text_field(e, "message"@) is None ==> said_in(m)
            == text_field(m, "message"@),
        s.len() > 0 ==> failure_text(status, Some(s)) == s,
        s.len() == 0 ==> failure_text(status, Some(s)) == failure_text(status, None),
        failure_text(status, None) == "upstream returned HTTP "@ + decimal(status as nat),
{
}

} // verus!
