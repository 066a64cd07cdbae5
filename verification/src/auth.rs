//! Authentication: virtual keys for the public API, the admin token and its
//! sessions for the admin API, and Cloudflare Access in front of the latter.

use crate::crypto::{
    constant_time_eq, hash_virtual_key, hex_encode, hex_of, key_hash_of,
};
use crate::json::{
    field_of, get_field, get_text, json_model, read_json, text_field, JsonModel, Node,
};
use crate::text::{begins_with, same, strip_prefix, text2, text3, trim, trim_of};
use crate::types::{fault, ErrorKind, ProxyError, VirtualKeyRow};
use hmac::Mac;
use vstd::prelude::*;
use vstd::utf8::encode_utf8;

verus! {

/// The cookie that carries an admin session.
pub const SESSION_COOKIE: &'static str = "kinetix_admin";

/// The key that a bearer header presents.
pub open spec fn bearer_key(value: Seq<char>) -> Option<Seq<char>> {
    if begins_with(value, "Bearer "@) {
        Some(trim_of(value.skip("Bearer "@.len() as int)))
    } else if begins_with(value, "bearer "@) {
        Some(trim_of(value.skip("bearer "@.len() as int)))
    } else {
        None
    }
}

/// The key that a request presents: as a bearer token, else in `x-api-key`.
pub open spec fn presented_key(
    authorization: Option<Seq<char>>,
    x_api_key: Option<Seq<char>>,
) -> Option<Seq<char>> {
    if authorization is Some && bearer_key(authorization->0) is Some {
        bearer_key(authorization->0)
    } else if x_api_key is Some && trim_of(x_api_key->0).len() > 0 {
        Some(trim_of(x_api_key->0))
    } else {
        None
    }
}

/// The characters of an optional string slice.
pub open spec fn slice_in(s: Option<&str>) -> Option<Seq<char>> {
    match s {
        Some(t) => Some(t@),
        None => None,
    }
}

/// The virtual key that a request presents in either style. A header that is no
/// text is passed as `None`.
pub fn extract_virtual_key(authorization: Option<&str>, x_api_key: Option<&str>) -> (r: Option<
    String,
>)
    ensures
        crate::types::text_in(r) == presented_key(slice_in(authorization), slice_in(x_api_key)),
{
    if let Some(v) = authorization {
        if let Some(rest) = strip_prefix(v, "Bearer ") {
            return Some(trim(rest.as_str()));
        }
        if let Some(rest) = strip_prefix(v, "bearer ") {
            return Some(trim(rest.as_str()));
        }
    }
    if let Some(v) = x_api_key {
        let key = trim(v);
        if !key.as_str().is_empty() {
            return Some(key);
        }
    }
    None
}

/// What a client with an unknown key is told.
pub open spec fn unknown_key() -> Seq<char> {
    "invalid or unknown API key. Provide a Kinetix virtual key (sk-kinetix-...)."@
}

/// Accepts the row that the store holds under the hash of a presented key,
/// where the hashes are the same.
pub fn authenticate_virtual_key(presented: &str, row: Option<VirtualKeyRow>) -> (r: Result<
    VirtualKeyRow,
    ProxyError,
>)
    ensures
        match row {
            Some(k) if k.key_hash@ == key_hash_of(presented@) => r == Ok::<
                VirtualKeyRow,
                ProxyError,
            >(k),
            _ => r matches Err(e) && e@ == fault(ErrorKind::Unauthorized, unknown_key(), None),
        },
{
    let hash = hash_virtual_key(presented);
    if let Some(k) = row {
        if constant_time_eq(k.key_hash.as_str(), hash.as_str()) {
            return Ok(k);
        }
    }
    Err(
        ProxyError::new(
            ErrorKind::Unauthorized,
            "invalid or unknown API key. Provide a Kinetix virtual key (sk-kinetix-...).".to_owned(),
        ),
    )
}

/// The virtual key of a request, where it presents one.
#[derive(Debug)]
pub struct AuthKey(pub Option<VirtualKeyRow>);

/// An authenticated admin.
#[derive(Debug)]
pub struct AdminAuth {
    pub actor: String,
}

/// The HMAC-SHA256 of a message under a key.
pub uninterp spec fn hmac_sha256_of(key: Seq<u8>, message: Seq<u8>) -> Seq<u8>;

/// `Hmac::<Sha256>` over one message, which takes a key of any length: 32 bytes
/// that depend on the key and the message alone.
#[verifier::external_body]
fn hmac_sha256(key: &[u8], message: &[u8]) -> (r: Vec<u8>)
    ensures
        r@ == hmac_sha256_of(key@, message@),
        r@.len() == 32,
{
    let mut mac = hmac::Hmac::<sha2::Sha256>::new_from_slice(key).unwrap();
    mac.update(message);
    mac.finalize().into_bytes().to_vec()
}

/// The session token of an admin token under a master key.
pub open spec fn session_of(master_key: Seq<u8>, admin_token: Seq<char>) -> Seq<char> {
    hex_of(
        hmac_sha256_of(
            master_key,
            encode_utf8("kinetix-admin-session:"@) + encode_utf8(admin_token),
        ),
    )
}

/// The session token of an admin token. It is derived from the admin token, so
/// that sessions of another admin token are compared with another text.
pub fn session_token(master_key: &[u8; 32], admin_token: &str) -> (r: String)
    ensures
        r@ == session_of(master_key@, admin_token@),
{
    let mut message: Vec<u8> = Vec::new();
    message.extend_from_slice("kinetix-admin-session:".as_bytes());
    message.extend_from_slice(admin_token.as_bytes());
    assert(message@ =~= encode_utf8("kinetix-admin-session:"@) + encode_utf8(admin_token@));
    hex_encode(hmac_sha256(master_key, message.as_slice()).as_slice())
}

/// Whether a token is the session token.
pub fn verify_session(master_key: &[u8; 32], admin_token: &str, token: &str) -> (r: bool)
    ensures
        r == (token@ == session_of(master_key@, admin_token@)),
{
    let expected = session_token(master_key, admin_token);
    constant_time_eq(token, expected.as_str())
}

/// Whether a password is the admin token, compared by hash.
pub fn verify_admin_password(admin_token: &str, password: &str) -> (r: bool)
    ensures
        r == (key_hash_of(password@) == key_hash_of(admin_token@)),
{
    let a = hash_virtual_key(password);
    let b = hash_virtual_key(admin_token);
    constant_time_eq(a.as_str(), b.as_str())
}

/// What Cloudflare Access says of an admin request.
#[derive(Debug)]
pub enum AccessCheck {
    /// It is not configured.
    NotRequired,
    /// The request carries no assertion.
    Missing,
    /// The assertion is not valid.
    Rejected(String),
    /// The assertion is valid.
    Accepted,
}

/// Whether the cookie or, without one, the header proves an admin. A cookie
/// must hold the session token; the header may also hold the admin token.
pub open spec fn proves_admin(
    master_key: Seq<u8>,
    admin_token: Seq<char>,
    cookie: Option<Seq<char>>,
    header: Option<Seq<char>>,
) -> bool {
    match cookie {
        Some(c) => c == session_of(master_key, admin_token),
        None => match header {
            Some(h) => h == session_of(master_key, admin_token) || key_hash_of(h) == key_hash_of(
                admin_token,
            ),
            None => false,
        },
    }
}

/// Admits an admin request: Cloudflare Access first, where it is configured,
/// and then the session cookie or the token header.
pub fn authorize_admin(
    access: AccessCheck,
    master_key: &[u8; 32],
    admin_token: &str,
    cookie: Option<&str>,
    header: Option<&str>,
) -> (r: Result<AdminAuth, ProxyError>)
    ensures
        match access {
            AccessCheck::Missing => r matches Err(e) && e@ == fault(
                ErrorKind::Forbidden,
                "missing Cloudflare Access assertion"@,
                None,
            ),
            AccessCheck::Rejected(why) => r matches Err(e) && e@ == fault(
                ErrorKind::Forbidden,
                why@,
                None,
            ),
            _ => if proves_admin(
                master_key@,
                admin_token@,
                slice_in(cookie),
                slice_in(header),
            ) {
                r matches Ok(a) && a.actor@ == "admin"@
            } else {
                r matches Err(e) && e@ == fault(
                    ErrorKind::Unauthorized,
                    "admin authentication required"@,
                    None,
                )
            },
        },
{
    match access {
        AccessCheck::Missing => {
            return Err(
                ProxyError::new(
                    ErrorKind::Forbidden,
                    "missing Cloudflare Access assertion".to_owned(),
                ),
            );
        },
        AccessCheck::Rejected(why) => {
            return Err(ProxyError::new(ErrorKind::Forbidden, why));
        },
        _ => {},
    }
    let proved = match cookie {
        Some(c) => verify_session(master_key, admin_token, c),
        None => match header {
            Some(h) => verify_session(master_key, admin_token, h) || verify_admin_password(
                admin_token,
                h,
            ),
            None => false,
        },
    };
    if proved {
        Ok(AdminAuth { actor: "admin".to_owned() })
    } else {
        Err(
            ProxyError::new(
                ErrorKind::Unauthorized,
                "admin authentication required".to_owned(),
            ),
        )
    }
}

/// The admin token itself is never accepted from a cookie, unless it is the
/// session token.
pub proof fn law_cookie_is_never_raw(
    master_key: Seq<u8>,
    admin_token: Seq<char>,
    header: Option<Seq<char>>,
)
    requires
        admin_token != session_of(master_key, admin_token),
    ensures
        !proves_admin(master_key, admin_token, Some(admin_token), header),
        proves_admin(master_key, admin_token, None, Some(admin_token)),
{
}

/// The key id in the header of a JSON Web Token, or what is wrong with the
/// token.
pub uninterp spec fn token_key_id(token: Seq<char>) -> Result<Option<Seq<char>>, Seq<char>>;

/// What is wrong with the components of an RSA key, if anything.
pub uninterp spec fn rsa_fault(n: Seq<char>, e: Seq<char>) -> Option<Seq<char>>;

/// Whether `jsonwebtoken::decode` can accept a token under RS256, for the RSA key
/// with these components and an audience: the key signed it, it states when it
/// expires, and where it names audiences this is one of them. A token that names
/// none passes. When it expires does not matter here.
pub uninterp spec fn token_verified(
    token: Seq<char>,
    n: Seq<char>,
    e: Seq<char>,
    aud: Seq<char>,
) -> bool;

/// `jsonwebtoken::decode_header`: the key id of the header, or the error's text.
#[verifier::external_body]
fn read_token_header(token: &str) -> (r: Result<Option<String>, String>)
    ensures
        match r {
            Ok(kid) => token_key_id(token@) is Ok && token_key_id(token@)->Ok_0
                == crate::types::text_in(kid),
            Err(e) => token_key_id(token@) is Err && token_key_id(token@)->Err_0 == e@,
        },
{
    jsonwebtoken::decode_header(token).map(|h| h.kid).map_err(|e| e.to_string())
}

/// `jsonwebtoken::decode` under RS256 for one audience, with the key that
/// `DecodingKey::from_rsa_components` makes. The outer error is the text of what
/// is wrong with the components, the inner one that of a refusal. Whether a
/// token is accepted depends on the time as well, so that nothing is promised of
/// one that is `token_verified`; no other token is accepted.
#[verifier::external_body]
fn check_token(token: &str, n: &str, e: &str, aud: &str) -> (r: Result<Result<(), String>, String>)
    ensures
        match r {
            Ok(verdict) => rsa_fault(n@, e@) is None && (verdict is Ok ==> token_verified(
                token@,
                n@,
                e@,
                aud@,
            )),
            Err(why) => rsa_fault(n@, e@) == Some(why@),
        },
{
    let key = jsonwebtoken::DecodingKey::from_rsa_components(n, e).map_err(|e| e.to_string())?;
    let mut validation = jsonwebtoken::Validation::new(jsonwebtoken::Algorithm::RS256);
    validation.set_audience(&[aud]);
    let verdict = jsonwebtoken::decode::<serde_json::Value>(token, &key, &validation);
    Ok(verdict.map(|_| ()).map_err(|e| e.to_string()))
}

/// What is needed to check an Access token: where the certificates are, and the
/// id of the key that signed it.
#[derive(Debug)]
pub struct AccessQuery {
    pub certs_url: String,
    pub kid: Option<String>,
}

/// Reads an Access token's header and says where the certificates are.
pub fn access_query(token: &str, team_domain: Option<&str>) -> (r: Result<AccessQuery, String>)
    ensures
        match token_key_id(token@) {
            Err(e) => r matches Err(why) && why@ == "invalid Access token: "@ + e,
            Ok(kid) => match team_domain {
                None => r matches Err(why) && why@
                    == "Cloudflare Access team domain not configured"@,
                Some(team) => r matches Ok(q) && q.certs_url@ == "https://"@ + team@
                    + "/cdn-cgi/access/certs"@ && crate::types::text_in(q.kid) == kid,
            },
        },
{
    let kid = match read_token_header(token) {
        Ok(k) => k,
        Err(e) => {
            return Err(text2("invalid Access token: ", e.as_str()));
        },
    };
    match team_domain {
        None => Err("Cloudflare Access team domain not configured".to_owned()),
        Some(team) => Ok(
            AccessQuery { certs_url: text3("https://", team, "/cdn-cgi/access/certs"), kid },
        ),
    }
}

/// The first key with an id, from `i` on.
pub open spec fn key_with_id(keys: Seq<JsonModel>, kid: Seq<char>, i: int) -> Option<JsonModel>
    decreases keys.len() - i,
{
    if i < 0 || i >= keys.len() {
        None
    } else if text_field(keys[i], "kid"@) == Some(kid) {
        Some(keys[i])
    } else {
        key_with_id(keys, kid, i + 1)
    }
}

/// The RSA components of the certificate with an id, or why there are none.
pub open spec fn signing_key(certs: JsonModel, kid: Option<Seq<char>>) -> Result<
    (Seq<char>, Seq<char>),
    Seq<char>,
> {
    match kid {
        None => Err("Access token missing kid"@),
        Some(id) => match field_of(certs, "keys"@) {
            Some(JsonModel::Array(keys)) => match key_with_id(keys, id, 0) {
                None => Err("no matching Access key"@),
                Some(k) => match (text_field(k, "n"@), text_field(k, "e"@)) {
                    (Some(n), Some(e)) => Ok((n, e)),
                    (None, _) => Err("missing n"@),
                    (_, None) => Err("missing e"@),
                },
            },
            _ => Err("Access certs missing keys"@),
        },
    }
}

fn pick_key(certs: &serde_json::Value, kid: &Option<String>) -> (r: Result<(String, String), String>)
    ensures
        match r {
            Ok((n, e)) => signing_key(json_model(*certs), crate::types::text_in(*kid)) == Ok::<
                (Seq<char>, Seq<char>),
                Seq<char>,
            >((n@, e@)),
            Err(why) => signing_key(json_model(*certs), crate::types::text_in(*kid)) == Err::<
                (Seq<char>, Seq<char>),
                Seq<char>,
            >(why@),
        },
{
    let id = match kid {
        Some(k) => k.as_str(),
        None => {
            return Err("Access token missing kid".to_owned());
        },
    };
    let top = read_json(certs);
    let keys = match get_field(&top, "keys") {
        Some(v) => match read_json(v) {
            Node::Array(keys) => keys,
            _ => {
                return Err("Access certs missing keys".to_owned());
            },
        },
        None => {
            return Err("Access certs missing keys".to_owned());
        },
    };
    let ghost shown = keys@.map_values(|v: serde_json::Value| json_model(v));
    assert(field_of(json_model(*certs), "keys"@) == Some(JsonModel::Array(shown)));
    let mut i: usize = 0;
    while i < keys.len()
        invariant
            i <= keys@.len(),
            crate::types::text_in(*kid) == Some(id@),
            shown == keys@.map_values(|v: serde_json::Value| json_model(v)),
            field_of(json_model(*certs), "keys"@) == Some(JsonModel::Array(shown)),
            key_with_id(shown, id@, 0) == key_with_id(shown, id@, i as int),
        decreases keys@.len() - i,
    {
        assert(shown[i as int] == json_model(keys@[i as int]));
        let matches_id = match get_text(&keys[i], "kid") {
            Some(k) => same(k.as_str(), id),
            None => false,
        };
        if matches_id {
            return match (get_text(&keys[i], "n"), get_text(&keys[i], "e")) {
                (Some(n), Some(e)) => Ok((n, e)),
                (None, _) => Err("missing n".to_owned()),
                (_, None) => Err("missing e".to_owned()),
            };
        }
        i = i + 1;
    }
    Err("no matching Access key".to_owned())
}

/// What a checked token means.
pub fn judge_access(verified: Result<(), String>) -> (r: Result<(), String>)
    ensures
        match verified {
            Ok(_) => r is Ok,
            Err(e) => r matches Err(why) && why@ == "Access token rejected: "@ + e@,
        },
{
    match verified {
        Ok(_) => Ok(()),
        Err(e) => Err(text2("Access token rejected: ", e.as_str())),
    }
}

/// Checks an Access token against the certificates and an audience. Where the
/// certificates hold no usable key the error says so. A token is accepted only
/// where it is `token_verified` with the key that it names; whether such a token
/// is accepted depends on the time.
pub fn validate_cf_access(certs: &serde_json::Value, kid: &Option<String>, token: &str, aud: &str) -> (r:
    Result<(), String>)
    ensures
        match signing_key(json_model(*certs), crate::types::text_in(*kid)) {
            Err(e) => r matches Err(why) && why@ == e,
            Ok((n, e)) => match rsa_fault(n, e) {
                Some(f) => r matches Err(why) && why@ == f,
                None => match r {
                    Ok(_) => token_verified(token@, n, e, aud@),
                    Err(why) => begins_with(why@, "Access token rejected: "@),
                },
            },
        },
{
    let (n, e) = match pick_key(certs, kid) {
        Ok(k) => k,
        Err(why) => {
            return Err(why);
        },
    };
    let verified = match check_token(token, n.as_str(), e.as_str(), aud) {
        Ok(v) => v,
        Err(why) => {
            return Err(why);
        },
    };
    let verdict = judge_access(verified);
    proof {
        let head = "Access token rejected: "@;
        assert(verdict matches Err(why) ==> why@.take(head.len() as int) =~= head);
    }
    verdict
}

/// A bearer token is what follows the word, without the space around it; the word
/// may be capitalised. Another scheme, or a key alone, is none.
pub proof fn law_bearer_tokens_follow_the_word(key: Seq<char>, value: Seq<char>)
    ensures
        bearer_key("Bearer "@ + key) == Some(trim_of(key)),
        bearer_key("bearer "@ + key) == Some(trim_of(key)),
        value.len() > 0 && value[0] != 'B' && value[0] != 'b' ==> bearer_key(value) is None,
        value.len() < 7 ==> bearer_key(value) is None,
{
    reveal_strlit("Bearer ");
    reveal_strlit("bearer ");
    assert("Bearer "@[0] == 'B' && "bearer "@[0] == 'b' && "Bearer "@.len() == 7
        && "bearer "@.len() == 7);
    let a = "Bearer "@ + key;
    let b = "bearer "@ + key;
    assert(a.take(7) =~= "Bearer "@);
    assert(b.take(7) =~= "bearer "@);
    assert(b[0] == 'b');
    assert(b.take(7)[0] == 'b');
    assert(a.skip(7) =~= key);
    assert(b.skip(7) =~= key);
    if value.len() >= 7 {
        assert(value.take(7)[0] == value[0]);
    }
}

/// The key a client presents is its bearer token before its own header; a blank
/// header presents none.
pub proof fn law_bearer_comes_first(
    authorization: Seq<char>,
    key: Seq<char>,
    header: Option<Seq<char>>,
    own: Seq<char>,
)
    ensures
        bearer_key(authorization) == Some(key) ==> presented_key(Some(authorization), header)
            == Some(key),
        bearer_key(authorization) is None ==> presented_key(Some(authorization), header)
            == presented_key(None, header),
        trim_of(own).len() > 0 ==> presented_key(None, Some(own)) == Some(trim_of(own)),
        trim_of(own).len() == 0 ==> presented_key(None, Some(own)) is None,
        presented_key(None, None) is None,
{
}

/// An admin is who brings the session or, without a cookie, the password; a
/// cookie that is there decides alone.
pub proof fn law_cookie_decides_alone(
    master_key: Seq<u8>,
    admin_token: Seq<char>,
    cookie: Seq<char>,
    header: Option<Seq<char>>,
    other: Option<Seq<char>>,
    given: Seq<char>,
)
    ensures
        proves_admin(master_key, admin_token, Some(cookie), header) <==> cookie == session_of(
            master_key,
            admin_token,
        ),
        proves_admin(master_key, admin_token, Some(cookie), header) == proves_admin(
            master_key,
            admin_token,
            Some(cookie),
            other,
        ),
        proves_admin(master_key, admin_token, None, Some(session_of(master_key, admin_token))),
        proves_admin(master_key, admin_token, None, Some(admin_token)),
        !proves_admin(master_key, admin_token, None, None),
        given != session_of(master_key, admin_token) && key_hash_of(given) != key_hash_of(
            admin_token,
        ) ==> !proves_admin(master_key, admin_token, None, Some(given)),
{
}

proof fn lemma_key_with_id(keys: Seq<JsonModel>, kid: Seq<char>, i: int, at: int)
    requires
        0 <= i <= at <= keys.len(),
        forall|k: int| i <= k < at ==> text_field(#[trigger] keys[k], "kid"@) != Some(kid),
        at < keys.len() ==> text_field(keys[at], "kid"@) == Some(kid),
    ensures
        key_with_id(keys, kid, i) == (if at < keys.len() {
            Some(keys[at])
        } else {
            None
        }),
    decreases at - i,
{
    if i < at {
        lemma_key_with_id(keys, kid, i + 1, at);
    }
}

/// A token is checked with the key that bears its id, the first of several, and
/// with none where no key does.
pub proof fn law_signing_key_bears_the_id(
    certs: JsonModel,
    keys: Seq<JsonModel>,
    kid: Seq<char>,
    at: int,
    n: Seq<char>,
    e: Seq<char>,
)
    requires
        field_of(certs, "keys"@) == Some(JsonModel::Array(keys)),
    ensures
        0 <= at < keys.len() && text_field(keys[at], "kid"@) == Some(kid) && (forall|k: int|
            0 <= k < at ==> text_field(#[trigger] keys[k], "kid"@) != Some(kid)) && text_field(
            keys[at],
            "n"@,
        ) == Some(n) && text_field(keys[at], "e"@) == Some(e) ==> signing_key(certs, Some(kid))
            == Ok::<(Seq<char>, Seq<char>), Seq<char>>((n, e)),
        (forall|k: int| 0 <= k < keys.len() ==> text_field(#[trigger] keys[k], "kid"@) != Some(kid))
            ==> signing_key(certs, Some(kid)) is Err,
        signing_key(certs, None) is Err,
{
    if 0 <= at < keys.len() && text_field(keys[at], "kid"@) == Some(kid) && (forall|k: int|
        0 <= k < at ==> text_field(#[trigger] keys[k], "kid"@) != Some(kid)) {
        lemma_key_with_id(keys, kid, 0, at);
    }
    if forall|k: int| 0 <= k < keys.len() ==> text_field(#[trigger] keys[k], "kid"@) != Some(kid) {
        lemma_key_with_id(keys, kid, 0, keys.len() as int);
    }
}

} // verus!
