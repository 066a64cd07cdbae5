//! The public interface: which format a client is answered in, what it is told
//! when something is wrong, and the health of the proxy.

use crate::auth::{extract_virtual_key, presented_key, slice_in};
use crate::json::{json_model, json_read, try_parse_json};
use crate::pipeline::{header_views, push_header};
use crate::text::{decimal, decimal_text, text2};
use crate::types::{fault, ErrorKind, FrontendFormat, ProxyError};
use vstd::prelude::*;

verus! {

/// The format that a list of models is given in: clients that authenticate in
/// the Anthropic way, or that name an Anthropic version, get that format.
pub fn models_format(has_x_api_key: bool, anthropic_version: Option<&str>) -> (r: FrontendFormat)
    ensures
        r == (if has_x_api_key || (anthropic_version is Some && anthropic_version->0@.len() > 0) {
            FrontendFormat::Anthropic
        } else {
            FrontendFormat::OpenAi
        }),
{
    let versioned = match anthropic_version {
        Some(v) => !v.is_empty(),
        None => false,
    };
    if has_x_api_key || versioned {
        FrontendFormat::Anthropic
    } else {
        FrontendFormat::OpenAi
    }
}

/// What a client without a key is told.
pub open spec fn missing_key() -> Seq<char> {
    "missing API key. Provide it via 'Authorization: Bearer sk-kinetix-...' or 'x-api-key'."@
}

/// The virtual key that a request presents, or the error for a request without
/// one.
pub fn require_key(authorization: Option<&str>, x_api_key: Option<&str>) -> (r: Result<
    String,
    ProxyError,
>)
    ensures
        match presented_key(slice_in(authorization), slice_in(x_api_key)) {
            Some(k) => r matches Ok(got) && got@ == k,
            None => r matches Err(e) && e@ == fault(ErrorKind::Unauthorized, missing_key(), None),
        },
{
    match extract_virtual_key(authorization, x_api_key) {
        Some(k) => Ok(k),
        None => Err(
            ProxyError::new(
                ErrorKind::Unauthorized,
                "missing API key. Provide it via 'Authorization: Bearer sk-kinetix-...' or 'x-api-key'.".to_owned(),
            ),
        ),
    }
}

/// The virtual key that a request for the list of models presents, which the
/// list is scoped to, or the error for a request without one.
pub fn require_list_key(authorization: Option<&str>, x_api_key: Option<&str>) -> (r: Result<
    String,
    ProxyError,
>)
    ensures
        match presented_key(slice_in(authorization), slice_in(x_api_key)) {
            Some(k) => r matches Ok(got) && got@ == k,
            None => r matches Err(e) && e@ == fault(
                ErrorKind::Unauthorized,
                "missing API key"@,
                None,
            ),
        },
{
    match extract_virtual_key(authorization, x_api_key) {
        Some(k) => Ok(k),
        None => Err(ProxyError::new(ErrorKind::Unauthorized, "missing API key".to_owned())),
    }
}

/// The error for a body that is no JSON document.
pub fn invalid_body(e: &str) -> (r: ProxyError)
    ensures
        r@ == fault(ErrorKind::BadRequest, "invalid JSON body: "@ + e@, None),
{
    ProxyError::new(ErrorKind::BadRequest, text2("invalid JSON body: ", e))
}

/// Reads the body of a request, or says why it is no JSON document.
pub fn read_body(body: &[u8]) -> (r: Result<serde_json::Value, ProxyError>)
    ensures
        match json_read(body@) {
            Ok(m) => r matches Ok(v) && json_model(v) == m,
            Err(e) => r matches Err(x) && x@ == fault(
                ErrorKind::BadRequest,
                "invalid JSON body: "@ + e,
                None,
            ),
        },
{
    match try_parse_json(body) {
        Ok(v) => Ok(v),
        Err(e) => Err(invalid_body(e.as_str())),
    }
}

/// The HTTP status of an error.
pub open spec fn status_of(kind: ErrorKind) -> u16 {
    match kind {
        ErrorKind::BadRequest => 400,
        ErrorKind::Unauthorized => 401,
        ErrorKind::Forbidden => 403,
        ErrorKind::NotFound => 404,
        ErrorKind::Unsupported => 400,
        ErrorKind::RateLimited => 429,
        ErrorKind::BudgetExceeded => 429,
        ErrorKind::Upstream => 502,
        ErrorKind::AllUnavailable => 503,
        ErrorKind::Internal => 500,
    }
}

/// The HTTP status of an error.
pub fn http_status(kind: ErrorKind) -> (r: u16)
    ensures
        r == status_of(kind),
{
    match kind {
        ErrorKind::BadRequest => 400,
        ErrorKind::Unauthorized => 401,
        ErrorKind::Forbidden => 403,
        ErrorKind::NotFound => 404,
        ErrorKind::Unsupported => 400,
        ErrorKind::RateLimited => 429,
        ErrorKind::BudgetExceeded => 429,
        ErrorKind::Upstream => 502,
        ErrorKind::AllUnavailable => 503,
        ErrorKind::Internal => 500,
    }
}

/// The headers of an error response: the form of the body, the request id, the
/// waiting time where there is one, and those of the error itself.
pub open spec fn error_header_views(request_id: Seq<char>, retry: Option<u64>, own: Seq<
    (Seq<char>, Seq<char>),
>) -> Seq<(Seq<char>, Seq<char>)> {
    let basic = seq![("content-type"@, "application/json"@), ("x-request-id"@, request_id)];
    let wait = match retry {
        Some(n) => seq![("retry-after"@, decimal(n as nat))],
        None => Seq::empty(),
    };
    basic + wait + own
}

/// The headers of an error response.
pub fn error_headers(request_id: &str, err: &ProxyError) -> (r: Vec<(String, String)>)
    ensures
        header_views(r@) == error_header_views(
            request_id@,
            err.retry_after_secs,
            header_views(err.headers@),
        ),
{
    let mut h: Vec<(String, String)> = Vec::new();
    assert(header_views(h@) =~= Seq::<(Seq<char>, Seq<char>)>::empty());
    push_header(&mut h, "content-type", "application/json");
    push_header(&mut h, "x-request-id", request_id);
    if let Some(n) = err.retry_after_secs {
        push_header(&mut h, "retry-after", decimal_text(n).as_str());
    }
    let ghost own = header_views(err.headers@);
    let ghost before = header_views(h@);
    assert(before =~= error_header_views(request_id@, err.retry_after_secs, Seq::empty()));
    let mut i: usize = 0;
    assert(own.take(0) =~= Seq::<(Seq<char>, Seq<char>)>::empty());
    assert(before + own.take(0) =~= before);
    while i < err.headers.len()
        invariant
            i <= err.headers@.len(),
            own == header_views(err.headers@),
            header_views(h@) == before + own.take(i as int),
        decreases err.headers@.len() - i,
    {
        assert(own[i as int] == (err.headers@[i as int].0@, err.headers@[i as int].1@));
        push_header(&mut h, err.headers[i].0.as_str(), err.headers[i].1.as_str());
        i = i + 1;
        assert(header_views(h@) =~= before + own.take(i as int));
    }
    assert(own.take(i as int) =~= own);
    assert(header_views(h@) =~= error_header_views(request_id@, err.retry_after_secs, own));
    h
}

/// The health of the proxy.
#[derive(Debug)]
pub struct Health {
    pub http_status: u16,
    pub status: &'static str,
    pub data_plane: &'static str,
    pub control_plane: &'static str,
    pub database: &'static str,
}

/// The health of the proxy. While requests can be served it stays in rotation,
/// whatever the store does: a store that does not answer is reported in the body.
pub fn healthz(serviceable: bool, store_healthy: bool) -> (r: Health)
    ensures
        r.http_status == (if serviceable {
            200u16
        } else {
            503
        }),
        r.status@ == (if serviceable && store_healthy {
            "ok"@
        } else {
            "degraded"@
        }),
        r.data_plane@ == (if serviceable {
            "ok"@
        } else {
            "unavailable"@
        }),
        r.control_plane@ == (if store_healthy {
            "ok"@
        } else {
            "degraded"@
        }),
        r.database@ == (if store_healthy {
            "ok"@
        } else {
            "unavailable"@
        }),
{
    Health {
        http_status: if serviceable {
            200
        } else {
            503
        },
        status: if serviceable && store_healthy {
            "ok"
        } else {
            "degraded"
        },
        data_plane: if serviceable {
            "ok"
        } else {
            "unavailable"
        },
        control_plane: if store_healthy {
            "ok"
        } else {
            "degraded"
        },
        database: if store_healthy {
            "ok"
        } else {
            "unavailable"
        },
    }
}

/// Faults of the client are answered in the four hundreds and all others in the
/// five hundreds; each kind has the status that HTTP gives it.
pub proof fn law_statuses_tell_whose_fault(kind: ErrorKind)
    ensures
        kind == ErrorKind::Upstream || kind == ErrorKind::AllUnavailable || kind
            == ErrorKind::Internal <==> 500 <= status_of(kind) < 600,
        kind != ErrorKind::Upstream && kind != ErrorKind::AllUnavailable && kind
            != ErrorKind::Internal <==> 400 <= status_of(kind) < 500,
        status_of(kind) == 401 <==> kind == ErrorKind::Unauthorized,
        status_of(kind) == 403 <==> kind == ErrorKind::Forbidden,
        status_of(kind) == 404 <==> kind == ErrorKind::NotFound,
        status_of(kind) == 429 <==> kind == ErrorKind::RateLimited || kind
            == ErrorKind::BudgetExceeded,
        status_of(kind) == 400 <==> kind == ErrorKind::BadRequest || kind == ErrorKind::Unsupported,
        status_of(kind) == 500 <==> kind == ErrorKind::Internal,
        status_of(kind) == 502 <==> kind == ErrorKind::Upstream,
        status_of(kind) == 503 <==> kind == ErrorKind::AllUnavailable,
{
}

/// Every error answer is JSON and names its request; it says how long to wait
/// where that is known, and brings the error's own headers, all of them and in
/// order.
pub proof fn law_error_answers_have_their_headers(
    request_id: Seq<char>,
    retry: Option<u64>,
    own: Seq<(Seq<char>, Seq<char>)>,
)
    ensures
        ({
            let h = error_header_views(request_id, retry, own);
            &&& h.contains(("content-type"@, "application/json"@))
            &&& h.contains(("x-request-id"@, request_id))
            &&& retry matches Some(n) ==> h.contains(("retry-after"@, decimal(n as nat)))
            &&& h.len() == own.len() + (if retry is Some {
                3int
            } else {
                2
            })
            &&& h.skip(h.len() - own.len()) == own
        }),
{
    let h = error_header_views(request_id, retry, own);
    assert(h[0] == ("content-type"@, "application/json"@));
    assert(h[1] == ("x-request-id"@, request_id));
    if let Some(n) = retry {
        assert(h[2] == ("retry-after"@, decimal(n as nat)));
    }
    assert(h.skip(h.len() - own.len()) =~= own);
}

} // verus!
