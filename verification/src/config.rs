//! The configuration: what is read from the environment, and the schema of the
//! bootstrap file.

use crate::cost::Prices;
use crate::crypto::{base64_bytes, base64_decode, hex_of, law_hex_digits, sha256, sha256_of};
use crate::net::digit_of;
use crate::text::{byte_count, byte_len, chars_of, same, trim, trim_of};
use crate::types::{copy_text, text_in, Dollars};
use vstd::prelude::*;
use vstd::utf8::encode_utf8;

verus! {

/// The settings of a running proxy.
#[derive(Debug)]
pub struct Config {
    pub bind: String,
    pub public_base_url: String,
    pub database_url: String,
    /// The key that upstream credentials are encrypted under.
    pub master_key: [u8; 32],
    pub admin_token: String,
    /// With an audience, admin requests must carry a Cloudflare Access
    /// assertion.
    pub cf_access_aud: Option<String>,
    pub cf_access_team_domain: Option<String>,
    pub log_json: bool,
    pub bootstrap_file: Option<String>,
    /// Outbound requests to private addresses are allowed.
    pub allow_private_upstreams: bool,
    /// Outbound requests without TLS are allowed.
    pub allow_insecure_tls: bool,
    pub data_dir: String,
}

/// The values of the environment variables; `None` for one that is not set.
#[derive(Debug)]
pub struct Environment {
    pub bind: Option<String>,
    pub public_base_url: Option<String>,
    pub database_url: Option<String>,
    /// The key itself, or the contents of the file that holds it.
    pub master_key: Option<String>,
    pub admin_token: Option<String>,
    pub cf_access_aud: Option<String>,
    pub cf_access_team_domain: Option<String>,
    pub log_json: Option<String>,
    pub bootstrap_file: Option<String>,
    pub allow_private_upstreams: Option<String>,
    pub allow_insecure_tls: Option<String>,
    pub data_dir: Option<String>,
}

/// Why a configuration is refused.
#[derive(Debug, Clone, Copy, PartialEq, Eq, Structural)]
pub enum ConfigError {
    MissingMasterKey,
    InvalidMasterKey,
    WeakAdminToken,
}

impl ConfigError {
    /// The error in words.
    pub fn message(self) -> (r: &'static str)
        ensures
            r@ == (match self {
                ConfigError::MissingMasterKey =>
                "KINETIX_MASTER_KEY (or KINETIX_MASTER_KEY_FILE) must be set. Generate with `openssl rand -hex 32`."@,
                ConfigError::InvalidMasterKey =>
                "KINETIX_MASTER_KEY must be 64 hex chars, base64 of 32 bytes, or >=16 chars"@,
                ConfigError::WeakAdminToken =>
                "KINETIX_ADMIN_TOKEN must be set to at least 8 characters. Generate one with `openssl rand -hex 24`."@,
            }),
    {
        match self {
            ConfigError::MissingMasterKey =>
            "KINETIX_MASTER_KEY (or KINETIX_MASTER_KEY_FILE) must be set. Generate with `openssl rand -hex 32`.",
            ConfigError::InvalidMasterKey =>
            "KINETIX_MASTER_KEY must be 64 hex chars, base64 of 32 bytes, or >=16 chars",
            ConfigError::WeakAdminToken =>
            "KINETIX_ADMIN_TOKEN must be set to at least 8 characters. Generate one with `openssl rand -hex 24`.",
        }
    }
}

/// Whether a text is 64 hexadecimal digits.
pub open spec fn is_hex_key(s: Seq<char>) -> bool {
    s.len() == 64 && forall|i: int| 0 <= i < s.len() ==> digit_of(#[trigger] s[i]) is Some
}

/// The bytes that pairs of hexadecimal digits stand for.
pub open spec fn unhexed(s: Seq<char>) -> Seq<u8> {
    Seq::new(
        s.len() / 2,
        |i: int| (digit_of(s[2 * i])->0 * 16 + digit_of(s[2 * i + 1])->0) as u8,
    )
}

/// `hex::decode` of 64 hexadecimal digits of either case: the byte of each
/// pair, the high digit first.
#[verifier::external_body]
fn hex_decode(text: &str) -> (r: Vec<u8>)
    requires
        is_hex_key(text@),
    ensures
        r@ == unhexed(text@),
{
    hex::decode(text).unwrap_or_default()
}

/// The master key that a text stands for: 64 hexadecimal digits, else base64 of
/// 32 bytes, else the SHA-256 of a passphrase of at least 16 bytes. White space
/// around it does not count.
pub open spec fn master_key_of(raw: Seq<char>) -> Option<Seq<u8>> {
    key_from(trim_of(raw), base64_bytes(trim_of(raw)), sha256_of(encode_utf8(trim_of(raw))))
}

/// The master key of a trimmed text, from its base64 reading and its digest.
pub open spec fn key_from(
    text: Seq<char>,
    decoded: Result<Seq<u8>, Seq<char>>,
    digest: Seq<u8>,
) -> Option<Seq<u8>> {
    if is_hex_key(text) {
        Some(unhexed(text))
    } else if decoded is Ok && decoded->Ok_0.len() == 32 {
        Some(decoded->Ok_0)
    } else if byte_len(text) >= 16 {
        Some(digest)
    } else {
        None
    }
}

fn hex_key(text: &str) -> (r: bool)
    ensures
        r == is_hex_key(text@),
{
    let chars = chars_of(text);
    if chars.len() != 64 {
        return false;
    }
    let mut i: usize = 0;
    while i < chars.len()
        invariant
            i <= chars@.len(),
            chars@ == text@,
            forall|k: int| 0 <= k < i ==> digit_of(#[trigger] chars@[k]) is Some,
        decreases chars@.len() - i,
    {
        let c = chars[i];
        if !(('0' <= c && c <= '9') || ('a' <= c && c <= 'f') || ('A' <= c && c <= 'F')) {
            assert(digit_of(chars@[i as int]) is None);
            return false;
        }
        i = i + 1;
    }
    true
}

fn array_32(v: &Vec<u8>) -> (r: [u8; 32])
    requires
        v@.len() == 32,
    ensures
        r@ == v@,
{
    let mut out: [u8; 32] = [0u8; 32];
    let mut i: usize = 0;
    while i < 32
        invariant
            i <= 32,
            v@.len() == 32,
            forall|k: int| 0 <= k < i ==> out@[k] == v@[k],
        decreases 32 - i,
    {
        out[i] = v[i];
        i = i + 1;
    }
    assert(out@ =~= v@);
    out
}

/// The master key of a trimmed text, from its base64 reading and its digest.
pub fn choose_key(text: &str, decoded: Option<Vec<u8>>, digest: &Vec<u8>) -> (r: Option<[u8; 32]>)
    requires
        digest@.len() == 32,
    ensures
        ({
            let reading = match decoded {
                Some(b) => Ok::<Seq<u8>, Seq<char>>(b@),
                None => Err::<Seq<u8>, Seq<char>>(Seq::empty()),
            };
            match r {
                Some(k) => key_from(text@, reading, digest@) == Some(k@),
                None => key_from(text@, reading, digest@) is None,
            }
        }),
{
    if hex_key(text) {
        let bytes = hex_decode(text);
        return Some(array_32(&bytes));
    }
    if let Some(b) = decoded {
        if b.len() == 32 {
            return Some(array_32(&b));
        }
    }
    if byte_count(text) >= 16 {
        return Some(array_32(digest));
    }
    None
}

/// The 32-byte master key that a text stands for.
pub fn decode_master_key(raw: &str) -> (r: Option<[u8; 32]>)
    ensures
        match r {
            Some(k) => master_key_of(raw@) == Some(k@),
            None => master_key_of(raw@) is None,
        },
{
    let text = trim(raw);
    let decoded = match base64_decode(text.as_str()) {
        Ok(b) => Some(b),
        Err(_) => None,
    };
    let digest = sha256(text.as_str().as_bytes());
    choose_key(text.as_str(), decoded, &digest)
}

/// A value, or its default.
pub open spec fn value_or(v: Option<String>, default: Seq<char>) -> Seq<char> {
    match v {
        Some(s) => s@,
        None => default,
    }
}

fn env_or(v: Option<String>, default: &str) -> (r: String)
    ensures
        r@ == value_or(v, default@),
{
    match v {
        Some(s) => s,
        None => default.to_owned(),
    }
}

/// A value that is not empty.
pub open spec fn filled(v: Option<String>) -> Option<Seq<char>> {
    match v {
        Some(s) => if s@.len() > 0 {
            Some(s@)
        } else {
            None
        },
        None => None,
    }
}

fn not_empty(v: Option<String>) -> (r: Option<String>)
    ensures
        text_in(r) == filled(v),
{
    match v {
        Some(s) => if s.as_str().is_empty() {
            None
        } else {
            Some(s)
        },
        None => None,
    }
}

/// Whether a configuration is that of an environment.
pub open spec fn configures(e: Environment, c: Config) -> bool {
    &&& c.bind@ == value_or(e.bind, "127.0.0.1:8080"@)
    &&& c.public_base_url@ == value_or(e.public_base_url, "http://127.0.0.1:8080"@)
    &&& c.database_url@ == value_or(e.database_url, "sqlite://kinetix.db?mode=rwc"@)
    &&& e.master_key matches Some(raw) && master_key_of(raw@) == Some(c.master_key@)
    &&& text_in(e.admin_token) == Some(c.admin_token@)
    &&& text_in(c.cf_access_aud) == filled(e.cf_access_aud)
    &&& text_in(c.cf_access_team_domain) == filled(e.cf_access_team_domain)
    &&& c.log_json == (value_or(e.log_json, "false"@) == "true"@)
    &&& text_in(c.bootstrap_file) == (match e.bootstrap_file {
        Some(s) => if trim_of(s@).len() > 0 {
            Some(s@)
        } else {
            None
        },
        None => None,
    })
    &&& c.allow_private_upstreams == (value_or(e.allow_private_upstreams, "false"@) == "true"@)
    &&& c.allow_insecure_tls == (value_or(e.allow_insecure_tls, "false"@) == "true"@)
    &&& c.data_dir@ == value_or(e.data_dir, "."@)
}

/// What is wrong with an environment: first the master key, then the admin
/// token, which must have at least eight bytes.
pub open spec fn config_fault(e: Environment) -> Option<ConfigError> {
    match e.master_key {
        None => Some(ConfigError::MissingMasterKey),
        Some(raw) => if master_key_of(raw@) is None {
            Some(ConfigError::InvalidMasterKey)
        } else if byte_len(trim_of(value_or(e.admin_token, ""@))) < 8 {
            Some(ConfigError::WeakAdminToken)
        } else {
            None
        },
    }
}

impl Config {
    /// The configuration of an environment.
    pub fn from_env(e: Environment) -> (r: Result<Config, ConfigError>)
        ensures
            match config_fault(e) {
                Some(f) => r == Err::<Config, ConfigError>(f),
                None => r matches Ok(c) && configures(e, c),
            },
    {
        let raw = match &e.master_key {
            Some(k) => k,
            None => {
                return Err(ConfigError::MissingMasterKey);
            },
        };
        let master_key = match decode_master_key(raw.as_str()) {
            Some(k) => k,
            None => {
                return Err(ConfigError::InvalidMasterKey);
            },
        };
        let ghost given = e.admin_token;
        let admin_token = env_or(copy_text(&e.admin_token), "");
        if byte_count(trim(admin_token.as_str()).as_str()) < 8 {
            return Err(ConfigError::WeakAdminToken);
        }
        proof {
            if given is None {
                reveal_strlit("");
                assert(trim_of(""@) =~= ""@);
                vstd::utf8::is_ascii_chars_encode_utf8(""@);
            }
        }
        let bootstrap_file = match e.bootstrap_file {
            Some(s) => if trim(s.as_str()).as_str().is_empty() {
                None
            } else {
                Some(s)
            },
            None => None,
        };
        Ok(
            Config {
                bind: env_or(e.bind, "127.0.0.1:8080"),
                public_base_url: env_or(e.public_base_url, "http://127.0.0.1:8080"),
                database_url: env_or(e.database_url, "sqlite://kinetix.db?mode=rwc"),
                master_key,
                admin_token,
                cf_access_aud: not_empty(e.cf_access_aud),
                cf_access_team_domain: not_empty(e.cf_access_team_domain),
                log_json: same(env_or(e.log_json, "false").as_str(), "true"),
                bootstrap_file,
                allow_private_upstreams: same(
                    env_or(e.allow_private_upstreams, "false").as_str(),
                    "true",
                ),
                allow_insecure_tls: same(
                    env_or(e.allow_insecure_tls, "false").as_str(),
                    "true",
                ),
                data_dir: env_or(e.data_dir, "."),
            },
        )
    }
}

/// Private upstreams are reached, and TLS is left out, only where that was asked
/// for.
pub proof fn law_unsafe_upstreams_are_opt_in(e: Environment, c: Config)
    requires
        configures(e, c),
    ensures
        e.allow_private_upstreams is None ==> !c.allow_private_upstreams,
        e.allow_insecure_tls is None ==> !c.allow_insecure_tls,
{
    reveal_strlit("false");
    reveal_strlit("true");
    assert("false"@.len() != "true"@.len());
}

/// A virtual key of the bootstrap file.
#[derive(Debug)]
pub struct BootstrapKey {
    pub name: String,
    /// The key itself; without one it is generated.
    pub key: Option<String>,
    pub owner: String,
    pub tag: String,
    pub allowed_models: Vec<String>,
    pub rpm_limit: Option<u32>,
    pub tpm_limit: Option<u32>,
    pub daily_budget: Option<Dollars>,
    pub monthly_budget: Option<Dollars>,
}

/// An account of a provider of the bootstrap file.
#[derive(Debug)]
pub struct BootstrapAccount {
    pub label: String,
    pub api_key: String,
    pub priority: i64,
    pub soft_quota_usd: Option<Dollars>,
    pub quota_type: String,
}

/// A model of a provider of the bootstrap file.
#[derive(Debug)]
pub struct BootstrapModel {
    pub upstream_id: String,
    pub display_name: Option<String>,
    pub enabled: bool,
    pub context_window: Option<i64>,
    pub max_output_tokens: Option<i64>,
    pub capabilities: Option<Vec<String>>,
    pub prices: Option<Prices>,
}

/// A provider of the bootstrap file.
#[derive(Debug)]
pub struct BootstrapProvider {
    pub name: String,
    pub base_url: String,
    pub wire_format: String,
    pub auth_scheme: String,
    pub custom_header_name: Option<String>,
    pub custom_param_name: Option<String>,
    pub extra_headers: Vec<(String, String)>,
    pub timeout_ms: u64,
    pub capability_mode: String,
    pub accounts: Vec<BootstrapAccount>,
    pub models: Vec<BootstrapModel>,
    pub models_path: Option<String>,
}

/// An alias of the bootstrap file: `target` is `provider/model-id`, or the name
/// of a Route.
#[derive(Debug)]
pub struct BootstrapAlias {
    pub alias: String,
    pub target_type: String,
    pub target: String,
}

/// A target of a Route of the bootstrap file.
#[derive(Debug)]
pub struct BootstrapRouteTarget {
    /// The label of an account.
    pub account: String,
    /// `provider/model-id`.
    pub model: String,
    pub priority: i64,
    pub weight: Option<i64>,
}

/// A Route of the bootstrap file.
#[derive(Debug)]
pub struct BootstrapRoute {
    pub name: String,
    pub description: String,
    pub strategy: String,
    pub continuity_policy: String,
    pub targets: Vec<BootstrapRouteTarget>,
}

/// The bootstrap file.
#[derive(Debug)]
pub struct BootstrapConfig {
    pub virtual_keys: Vec<BootstrapKey>,
    pub providers: Vec<BootstrapProvider>,
    pub aliases: Vec<BootstrapAlias>,
    pub routes: Vec<BootstrapRoute>,
}

/// A key may use every model by default.
pub fn default_wildcard() -> (r: Vec<String>)
    ensures
        r@.len() == 1 && r@[0]@ == "*"@,
{
    let mut v: Vec<String> = Vec::new();
    v.push("*".to_owned());
    v
}

/// A provider takes a bearer token by default.
pub fn default_bearer() -> (r: String)
    ensures
        r@ == "bearer"@,
{
    "bearer".to_owned()
}

/// A provider has two minutes by default.
pub fn default_timeout() -> (r: u64)
    ensures
        r == 120_000,
{
    120_000
}

/// A provider's models are tried whatever is known of them by default.
pub fn default_permissive() -> (r: String)
    ensures
        r@ == "permissive"@,
{
    "permissive".to_owned()
}

/// The default priority.
pub fn default_priority() -> (r: i64)
    ensures
        r == 1,
{
    1
}

/// An account has no quota by default.
pub fn default_quota_type() -> (r: String)
    ensures
        r@ == "none"@,
{
    "none".to_owned()
}

/// A Route goes by priority by default.
pub fn default_priority_strategy() -> (r: String)
    ensures
        r@ == "priority"@,
{
    "priority".to_owned()
}

/// A key written as 64 hexadecimal digits is the 32 bytes they stand for, so that
/// a key comes back as it was written.
pub proof fn law_hex_keys_come_back(bytes: Seq<u8>)
    requires
        bytes.len() == 32,
    ensures
        is_hex_key(hex_of(bytes)),
        unhexed(hex_of(bytes)) == bytes,
{
    let s = hex_of(bytes);
    assert forall|i: int| 0 <= i < s.len() implies digit_of(#[trigger] s[i]) == Some(
        if i % 2 == 0 {
            bytes[i / 2] as int / 16
        } else {
            bytes[i / 2] as int % 16
        },
    ) by {
        law_hex_digits(bytes[i / 2] as int / 16);
        law_hex_digits(bytes[i / 2] as int % 16);
    }
    assert forall|i: int| 0 <= i < 32 implies unhexed(s)[i] == bytes[i] by {
        assert(digit_of(s[2 * i]) == Some(bytes[i] as int / 16));
        assert(digit_of(s[2 * i + 1]) == Some(bytes[i] as int % 16));
    }
    assert(unhexed(s) =~= bytes);
}

/// A master key is read as hexadecimal before base64, as base64 only where that
/// makes 32 bytes, and any other text of sixteen bytes or more by its digest; a
/// shorter one is refused.
pub proof fn law_master_keys_are_read_in_turn(
    text: Seq<char>,
    decoded: Result<Seq<u8>, Seq<char>>,
    digest: Seq<u8>,
)
    ensures
        is_hex_key(text) ==> key_from(text, decoded, digest) == Some(unhexed(text)),
        !is_hex_key(text) && decoded is Ok && decoded->Ok_0.len() == 32 ==> key_from(
            text,
            decoded,
            digest,
        ) == Some(decoded->Ok_0),
        !is_hex_key(text) && !(decoded is Ok && decoded->Ok_0.len() == 32) && byte_len(text) >= 16
            ==> key_from(text, decoded, digest) == Some(digest),
        !is_hex_key(text) && !(decoded is Ok && decoded->Ok_0.len() == 32) && byte_len(text) < 16
            ==> key_from(text, decoded, digest) is None,
        text.len() != 64 ==> !is_hex_key(text),
{
}

/// A start without a master key, with one that cannot be read, or with an admin
/// token under eight bytes is refused, and no other is.
pub proof fn law_weak_secrets_are_refused(e: Environment)
    ensures
        e.master_key is None ==> config_fault(e) == Some(ConfigError::MissingMasterKey),
        e.master_key matches Some(raw) ==> {
            &&& master_key_of(raw@) is None ==> config_fault(e) == Some(
                ConfigError::InvalidMasterKey,
            )
            &&& master_key_of(raw@) is Some && e.admin_token is None ==> config_fault(e) == Some(
                ConfigError::WeakAdminToken,
            )
            &&& master_key_of(raw@) is Some && e.admin_token is Some ==> (config_fault(e) is None
                <==> byte_len(trim_of(e.admin_token->0@)) >= 8)
        },
{
    reveal_strlit("");
    assert(""@ =~= Seq::<char>::empty());
    assert(trim_of(""@) =~= Seq::<char>::empty());
    assert(encode_utf8(Seq::<char>::empty()).len() == 0);
}

/// A switch is on where it is set to `true` and off otherwise; what is set is
/// taken as it is, and what is not has its default.
pub proof fn law_settings_are_taken_as_they_are(e: Environment, c: Config)
    requires
        configures(e, c),
    ensures
        e.log_json matches Some(v) ==> (c.log_json <==> v@ == "true"@),
        e.log_json is None ==> !c.log_json,
        e.allow_private_upstreams matches Some(v) ==> (c.allow_private_upstreams <==> v@
            == "true"@),
        e.allow_insecure_tls matches Some(v) ==> (c.allow_insecure_tls <==> v@ == "true"@),
        e.bind matches Some(v) ==> c.bind@ == v@,
        e.bind is None ==> c.bind@ == "127.0.0.1:8080"@,
        e.public_base_url matches Some(v) ==> c.public_base_url@ == v@,
        e.database_url matches Some(v) ==> c.database_url@ == v@,
        e.data_dir matches Some(v) ==> c.data_dir@ == v@,
        e.data_dir is None ==> c.data_dir@ == "."@,
        e.admin_token matches Some(v) ==> c.admin_token@ == v@,
        e.cf_access_aud is None ==> c.cf_access_aud is None,
        e.cf_access_aud matches Some(v) ==> (v@.len() > 0 ==> text_in(c.cf_access_aud) == Some(v@))
            && (v@.len() == 0 ==> c.cf_access_aud is None),
        e.cf_access_team_domain matches Some(v) ==> (v@.len() > 0 ==> text_in(
            c.cf_access_team_domain,
        ) == Some(v@)) && (v@.len() == 0 ==> c.cf_access_team_domain is None),
        e.bootstrap_file matches Some(v) ==> (trim_of(v@).len() > 0 ==> text_in(c.bootstrap_file)
            == Some(v@)) && (trim_of(v@).len() == 0 ==> c.bootstrap_file is None),
        e.bootstrap_file is None ==> c.bootstrap_file is None,
{
    reveal_strlit("false");
    reveal_strlit("true");
    assert("false"@.len() != "true"@.len());
}

} // verus!
