//! Plugins: what an installation checks, which plugins may be called, what a
//! call is settled as, and the circuit breaker of each plugin.

use crate::crypto::{hex_of, sha256_of};
use crate::json::{
    count_field, field_of, get_count, get_field, get_text, json_list_text, json_model, json_parsed,
    node_model, parse_json, read_json, text_field, write_list, JsonModel, Node,
};
use crate::package::{
    read_package, verify_signature, Package, PackageError, PackageFault, SignatureStatus,
};
use crate::text::{
    begins_with, chars_of, contains, contains_part, find_char, law_parts_occur, lemma_next_char_is,
    lower_of, next_char, same, strip_prefix, text3, text4, text_range, to_ascii_lowercase, views,
};
use crate::types::text_in;
use vstd::prelude::*;

verus! {

/// How many guest calls may run at a time.
pub const MAX_CONCURRENT_INVOCATIONS: usize = 16;

/// How many faults in a row open the circuit of a plugin.
pub const CIRCUIT_FAULT_THRESHOLD: u32 = 5;

/// How long an open circuit stays open, in seconds.
pub const CIRCUIT_OPEN_SECS: i64 = 60;

/// What a plugin can do for the proxy.
#[derive(Debug, Clone, Copy, PartialEq, Eq, Structural)]
pub enum Capability {
    CredentialStrategy,
    ModelSource,
    ProviderAdapter,
    RoutingFacts,
    HealthProbe,
    Hook,
}

/// One capability of a plugin, under its name.
#[derive(Debug)]
pub struct Provided {
    pub capability: Capability,
    pub name: String,
}

impl Clone for Provided {
    fn clone(&self) -> (r: Self)
        ensures
            r == *self,
    {
        Provided { capability: self.capability, name: self.name.clone() }
    }
}

/// What a plugin asks to be allowed.
#[derive(Debug)]
pub struct Permissions {
    pub network_hosts: Vec<String>,
    pub credential_scopes: Vec<String>,
    pub credential_read: bool,
}

/// The limits that a plugin asks for; `None` where it leaves one to the host.
#[derive(Debug, Clone, Copy, PartialEq, Eq, Structural)]
pub struct Limits {
    pub memory: Option<u64>,
    pub wall_time_ms: Option<u64>,
    pub storage: Option<u64>,
    pub max_outbound_requests: Option<u32>,
    pub max_http_body: Option<u64>,
}

/// No limit asked for.
pub open spec fn no_limits() -> Limits {
    Limits {
        memory: None,
        wall_time_ms: None,
        storage: None,
        max_outbound_requests: None,
        max_http_body: None,
    }
}

impl Default for Limits {
    fn default() -> (r: Self)
        ensures
            r == no_limits(),
    {
        Limits {
            memory: None,
            wall_time_ms: None,
            storage: None,
            max_outbound_requests: None,
            max_http_body: None,
        }
    }
}

/// The manifest of a plugin.
#[derive(Debug)]
pub struct Manifest {
    pub id: String,
    pub name: String,
    pub version: String,
    pub plugin_api: String,
    pub provides: Vec<Provided>,
    pub permissions: Permissions,
    pub limits: Limits,
    pub routing_facts_mode: String,
}

/// One permission that is granted to a plugin, its value in JSON.
#[derive(Debug)]
pub struct PermissionGrant {
    pub permission: String,
    pub value_json: String,
}

/// The grants as pairs of a permission and its value.
pub open spec fn grant_views(v: Seq<PermissionGrant>) -> Seq<(Seq<char>, Seq<char>)> {
    v.map_values(|g: PermissionGrant| (g.permission@, g.value_json@))
}

/// A grant where it is asked for.
pub open spec fn grant_if(asked: bool, permission: Seq<char>, value: Seq<char>) -> Seq<
    (Seq<char>, Seq<char>),
> {
    if asked {
        seq![(permission, value)]
    } else {
        Seq::empty()
    }
}

/// All that a manifest asks for.
pub open spec fn grants_of(p: Permissions) -> Seq<(Seq<char>, Seq<char>)> {
    grant_if(
        p.network_hosts@.len() > 0,
        "network_hosts"@,
        json_list_text(views(p.network_hosts@)),
    ) + grant_if(
        p.credential_scopes@.len() > 0,
        "credential_scopes"@,
        json_list_text(views(p.credential_scopes@)),
    ) + grant_if(p.credential_read, "credential_read"@, "true"@)
}

/// The grants of a plugin: all that its manifest asks for.
pub fn permission_grants(manifest: &Manifest) -> (r: Vec<PermissionGrant>)
    ensures
        grant_views(r@) == grants_of(manifest.permissions),
{
    let p = &manifest.permissions;
    let mut grants: Vec<PermissionGrant> = Vec::new();
    if p.network_hosts.len() > 0 {
        grants.push(
            PermissionGrant {
                permission: "network_hosts".to_owned(),
                value_json: write_list(&p.network_hosts),
            },
        );
    }
    if p.credential_scopes.len() > 0 {
        grants.push(
            PermissionGrant {
                permission: "credential_scopes".to_owned(),
                value_json: write_list(&p.credential_scopes),
            },
        );
    }
    if p.credential_read {
        grants.push(
            PermissionGrant {
                permission: "credential_read".to_owned(),
                value_json: "true".to_owned(),
            },
        );
    }
    assert(grant_views(grants@) =~= grants_of(manifest.permissions));
    grants
}

/// Why an installation is refused.
#[derive(Debug)]
pub enum InstallError {
    Package(PackageError),
    HashMismatch { expected: String, computed: String },
    UntrustedSignature,
}

/// What an `InstallError` says.
pub enum InstallFault {
    Package(PackageFault),
    HashMismatch { expected: Seq<char>, computed: Seq<char> },
    UntrustedSignature,
}

impl View for InstallError {
    type V = InstallFault;

    open spec fn view(&self) -> InstallFault {
        match *self {
            InstallError::Package(e) => InstallFault::Package(e@),
            InstallError::HashMismatch { expected, computed } => InstallFault::HashMismatch {
                expected: expected@,
                computed: computed@,
            },
            InstallError::UntrustedSignature => InstallFault::UntrustedSignature,
        }
    }
}

impl InstallError {
    /// The error in words.
    pub fn message(&self) -> (r: String)
        ensures
            r@ == (match self@ {
                InstallFault::Package(e) => crate::package::fault_text(e),
                InstallFault::HashMismatch { expected, computed } =>
                "package hash mismatch: expected "@ + expected + ", computed "@ + computed,
                InstallFault::UntrustedSignature =>
                "package signature is present but not from a trusted publisher key"@,
            }),
    {
        match self {
            InstallError::Package(e) => e.message(),
            InstallError::HashMismatch { expected, computed } => text4(
                "package hash mismatch: expected ",
                expected.as_str(),
                ", computed ",
                computed.as_str(),
            ),
            InstallError::UntrustedSignature =>
            "package signature is present but not from a trusted publisher key".to_owned(),
        }
    }
}

/// Whether a package is the one that was announced: the hash, the case of
/// letters aside.
pub open spec fn is_expected(expected: Option<&str>, computed: Seq<char>) -> bool {
    match expected {
        Some(e) => lower_of(e@) == lower_of(computed),
        None => true,
    }
}

/// Accepts a package that was read, where it is the announced one.
pub fn accept_package(read: Result<Package, PackageError>, expected_sha256: Option<&str>) -> (r:
    Result<Package, InstallError>)
    ensures
        match read {
            Err(e) => r matches Err(f) && f@ == InstallFault::Package(e@),
            Ok(p) => if is_expected(expected_sha256, p.package_sha256@) {
                r == Ok::<Package, InstallError>(p)
            } else {
                r matches Err(f) && f@ == (InstallFault::HashMismatch {
                    expected: expected_sha256->0@,
                    computed: p.package_sha256@,
                })
            },
        },
{
    let p = match read {
        Ok(p) => p,
        Err(e) => {
            return Err(InstallError::Package(e));
        },
    };
    if let Some(expected) = expected_sha256 {
        let want = to_ascii_lowercase(expected);
        let have = to_ascii_lowercase(p.package_sha256.as_str());
        if !same(want.as_str(), have.as_str()) {
            return Err(
                InstallError::HashMismatch {
                    expected: expected.to_owned(),
                    computed: p.package_sha256.clone(),
                },
            );
        }
    }
    Ok(p)
}

/// The first step of an installation: the package is read and held against the
/// announced hash.
pub fn begin_install(bytes: &[u8], expected_sha256: Option<&str>) -> (r: Result<
    Package,
    InstallError,
>)
    ensures
        r matches Ok(p) ==> is_expected(expected_sha256, p.package_sha256@) && p.package_sha256@
            == hex_of(sha256_of(bytes@)),
        bytes@.len() > crate::package::MAX_PACKAGE_BYTES ==> (r matches Err(f) && f@
            == InstallFault::Package(PackageFault::TooLarge(bytes@.len() as u64))),
        bytes@.len() <= crate::package::MAX_PACKAGE_BYTES && !crate::package::can_walk(bytes@)
            ==> (r matches Err(f) && f@ == InstallFault::Package(
            PackageFault::Broken("size overflow"@),
        )),
        crate::package::can_walk(bytes@) ==> exists|read: Result<Package, PackageError>|
            #[trigger] crate::package::is_package_of(
                crate::package::tar_items(bytes@),
                crate::package::tar_contents(bytes@, crate::package::tar_items(bytes@)),
                read,
            ) && (match read {
                Err(e) => r matches Err(f) && f@ == InstallFault::Package(e@),
                Ok(p) => p.package_sha256@ == hex_of(sha256_of(bytes@)) && if is_expected(
                    expected_sha256,
                    hex_of(sha256_of(bytes@)),
                ) {
                    r == Ok::<Package, InstallError>(p)
                } else {
                    r matches Err(f) && f@ == (InstallFault::HashMismatch {
                        expected: expected_sha256->0@,
                        computed: hex_of(sha256_of(bytes@)),
                    })
                },
            }),
{
    accept_package(read_package(bytes), expected_sha256)
}

/// Whether a signature is good enough.
pub open spec fn signature_suffices(sig: SignatureStatus, allow_untrusted: bool) -> bool {
    sig != SignatureStatus::Untrusted || allow_untrusted
}

/// The second step of an installation: a signature that no trusted key made is
/// refused, unless that is allowed. A package without a signature passes.
pub fn check_signature(
    pkg: &Package,
    trusted_keys: &Vec<[u8; 32]>,
    allow_untrusted_signature: bool,
) -> (r: Result<SignatureStatus, InstallError>)
    ensures
        match pkg.signature {
            None => r == Ok::<SignatureStatus, InstallError>(SignatureStatus::Unsigned),
            Some(entry) => match crate::package::signature_bytes(entry@) {
                Err(e) => r matches Err(f) && f@ == InstallFault::Package(e),
                Ok(sig) => if crate::package::some_key_accepts(
                    trusted_keys@,
                    crate::package::signed_digest(pkg.component@, pkg.manifest_toml@),
                    sig,
                ) {
                    r == Ok::<SignatureStatus, InstallError>(SignatureStatus::Verified)
                } else if allow_untrusted_signature {
                    r == Ok::<SignatureStatus, InstallError>(SignatureStatus::Untrusted)
                } else {
                    r matches Err(f) && f@ is UntrustedSignature
                },
            },
        },
        r matches Ok(s) ==> signature_suffices(s, allow_untrusted_signature),
{
    match verify_signature(pkg, trusted_keys) {
        Err(e) => Err(InstallError::Package(e)),
        Ok(sig) => if sig == SignatureStatus::Untrusted && !allow_untrusted_signature {
            Err(InstallError::UntrustedSignature)
        } else {
            Ok(sig)
        },
    }
}

/// What an installation is reported as. The plugin is installed but disabled.
#[derive(Debug)]
pub struct InstallOutcome {
    pub id: String,
    pub version: String,
    pub signature: SignatureStatus,
    pub provides: Vec<Provided>,
}

fn copy_provided(v: &Vec<Provided>) -> (r: Vec<Provided>)
    ensures
        r@ == v@,
{
    let mut out: Vec<Provided> = Vec::new();
    let mut i: usize = 0;
    while i < v.len()
        invariant
            i <= v@.len(),
            out@ == v@.take(i as int),
        decreases v@.len() - i,
    {
        out.push(v[i].clone());
        i = i + 1;
        assert(out@ =~= v@.take(i as int));
    }
    assert(out@ =~= v@);
    out
}

/// The last step of an installation.
pub fn finish_install(manifest: &Manifest, signature: SignatureStatus) -> (r: InstallOutcome)
    ensures
        r.id@ == manifest.id@,
        r.version@ == manifest.version@,
        r.signature == signature,
        r.provides@ == manifest.provides@,
{
    InstallOutcome {
        id: manifest.id.clone(),
        version: manifest.version.clone(),
        signature,
        provides: copy_provided(&manifest.provides),
    }
}

/// An installed plugin as it is stored.
#[derive(Debug)]
pub struct PluginRow {
    pub id: String,
    pub version: String,
    pub plugin_api_major: i64,
    pub package_sha256: String,
    pub signature: String,
    pub status: String,
    /// `None` where it cannot be read.
    pub manifest: Option<Manifest>,
}

/// What an operator is shown of an installed plugin.
#[derive(Debug)]
pub struct PluginSummary {
    pub id: String,
    pub version: String,
    pub plugin_api_major: i64,
    pub sha256: String,
    pub signature: String,
    pub status: String,
    pub provides: Vec<Provided>,
    pub permissions: Permissions,
    pub limits: Limits,
}

/// What an operator is shown of an installed plugin. One whose manifest cannot
/// be read shows no capabilities, no permissions and no limits.
pub fn manifest_summary(row: &PluginRow) -> (r: PluginSummary)
    ensures
        r.id@ == row.id@,
        r.version@ == row.version@,
        r.plugin_api_major == row.plugin_api_major,
        r.sha256@ == row.package_sha256@,
        r.signature@ == row.signature@,
        r.status@ == row.status@,
        match row.manifest {
            Some(m) => {
                &&& r.provides@ == m.provides@
                &&& views(r.permissions.network_hosts@) == views(m.permissions.network_hosts@)
                &&& views(r.permissions.credential_scopes@) == views(
                    m.permissions.credential_scopes@,
                )
                &&& r.permissions.credential_read == m.permissions.credential_read
                &&& r.limits == m.limits
            },
            None => {
                &&& r.provides@.len() == 0
                &&& r.permissions.network_hosts@.len() == 0
                &&& r.permissions.credential_scopes@.len() == 0
                &&& !r.permissions.credential_read
                &&& r.limits == no_limits()
            },
        },
{
    let (provides, permissions, limits) = match &row.manifest {
        Some(m) => (
            copy_provided(&m.provides),
            Permissions {
                network_hosts: copy_texts(&m.permissions.network_hosts),
                credential_scopes: copy_texts(&m.permissions.credential_scopes),
                credential_read: m.permissions.credential_read,
            },
            m.limits,
        ),
        None => (
            Vec::new(),
            Permissions {
                network_hosts: Vec::new(),
                credential_scopes: Vec::new(),
                credential_read: false,
            },
            Limits::default(),
        ),
    };
    PluginSummary {
        id: row.id.clone(),
        version: row.version.clone(),
        plugin_api_major: row.plugin_api_major,
        sha256: row.package_sha256.clone(),
        signature: row.signature.clone(),
        status: row.status.clone(),
        provides,
        permissions,
        limits,
    }
}

/// The state of a circuit breaker.
#[derive(Debug, Clone, Copy, PartialEq, Eq, Structural)]
pub enum CircuitState {
    Closed,
    Open,
    HalfOpen,
}

/// The circuit breaker of a plugin: the faults since the last success, and when
/// an open circuit may be probed, in seconds.
#[derive(Debug, Clone, Copy, PartialEq, Eq, Structural)]
pub struct Breaker {
    pub faults: u32,
    pub open_until: Option<i64>,
}

/// A breaker after one more fault at a time.
pub open spec fn after_fault(b: Breaker, now: i64) -> Breaker {
    let faults: u32 = if b.faults == u32::MAX {
        u32::MAX
    } else {
        (b.faults + 1) as u32
    };
    Breaker {
        faults,
        open_until: if faults >= CIRCUIT_FAULT_THRESHOLD {
            Some((now + CIRCUIT_OPEN_SECS) as i64)
        } else {
            b.open_until
        },
    }
}

/// A breaker after that many faults in a row at a time.
pub open spec fn after_faults(b: Breaker, n: nat, now: i64) -> Breaker
    decreases n,
{
    if n == 0 {
        b
    } else {
        after_fault(after_faults(b, (n - 1) as nat, now), now)
    }
}

/// The state of a breaker at a time.
pub open spec fn circuit_at(b: Breaker, now: i64) -> CircuitState {
    match b.open_until {
        None => CircuitState::Closed,
        Some(t) => if now < t {
            CircuitState::Open
        } else {
            CircuitState::HalfOpen
        },
    }
}

impl Breaker {
    /// A breaker without faults.
    pub fn new() -> (r: Self)
        ensures
            r == (Breaker { faults: 0, open_until: None }),
    {
        Breaker { faults: 0, open_until: None }
    }

    /// One more fault: the fifth in a row opens the circuit for a minute.
    pub fn record_fault(&mut self, now: i64)
        requires
            now + CIRCUIT_OPEN_SECS <= i64::MAX,
        ensures
            *final(self) == after_fault(*old(self), now),
    {
        if self.faults < u32::MAX {
            self.faults = self.faults + 1;
        }
        if self.faults >= CIRCUIT_FAULT_THRESHOLD {
            self.open_until = Some(now + CIRCUIT_OPEN_SECS);
        }
    }

    /// A success closes the circuit.
    pub fn clear(&mut self)
        ensures
            *final(self) == (Breaker { faults: 0, open_until: None }),
    {
        self.faults = 0;
        self.open_until = None;
    }

    pub fn circuit(&self, now: i64) -> (r: CircuitState)
        ensures
            r == circuit_at(*self, now),
    {
        match self.open_until {
            None => CircuitState::Closed,
            Some(t) => if now < t {
                CircuitState::Open
            } else {
                CircuitState::HalfOpen
            },
        }
    }
}

proof fn lemma_faults_count(n: nat, now: i64)
    requires
        n <= u32::MAX,
    ensures
        after_faults(Breaker { faults: 0, open_until: None }, n, now).faults == n,
        n < CIRCUIT_FAULT_THRESHOLD ==> after_faults(
            Breaker { faults: 0, open_until: None },
            n,
            now,
        ).open_until is None,
    decreases n,
{
    if n > 0 {
        lemma_faults_count((n - 1) as nat, now);
    }
}

/// Faults in a row open the circuit exactly from the fifth on, for a minute:
/// before that it is closed, and after the minute it may be probed.
pub proof fn law_circuit_opens_at_the_threshold(n: nat, now: i64, later: i64)
    requires
        n <= u32::MAX,
        now + CIRCUIT_OPEN_SECS <= i64::MAX,
    ensures
        circuit_at(
            after_faults(Breaker { faults: 0, open_until: None }, n, now),
            later,
        ) == (if n < CIRCUIT_FAULT_THRESHOLD {
            CircuitState::Closed
        } else if later < now + CIRCUIT_OPEN_SECS {
            CircuitState::Open
        } else {
            CircuitState::HalfOpen
        }),
{
    lemma_faults_count(n, now);
    if n > 0 {
        lemma_faults_count((n - 1) as nat, now);
    }
}

/// What can go wrong in a guest call.
#[derive(Debug)]
pub enum PluginFault {
    /// The guest did not return in time.
    Timeout,
    /// The guest trapped.
    Trap(String),
    /// The guest returned an error.
    PluginError { code: String, message: String, retryable: bool },
    /// The call could not be made.
    Internal(String),
    /// The client went away during the call.
    Cancelled,
}

/// Whether the text of a runtime error says that time ran out.
pub open spec fn is_timeout_text(msg: Seq<char>) -> bool {
    contains_part(msg, "epoch"@) || contains_part(msg, "interrupt"@) || contains_part(
        msg,
        "deadline"@,
    )
}

/// The fault of a runtime error, by its text.
pub fn map_call_error(msg: &str) -> (r: PluginFault)
    ensures
        if is_timeout_text(msg@) {
            r is Timeout
        } else {
            r matches PluginFault::Trap(t) && t@ == msg@
        },
{
    if contains(msg, "epoch") || contains(msg, "interrupt") || contains(msg, "deadline") {
        PluginFault::Timeout
    } else {
        PluginFault::Trap(msg.to_owned())
    }
}

/// Counters of guest calls. They wrap at 64 bits.
#[derive(Debug, Clone, Copy, PartialEq, Eq, Structural)]
pub struct PluginCounters {
    pub invocations: u64,
    pub faults: u64,
    pub timeouts: u64,
    pub cancellations: u64,
    pub http_requests: u64,
}

/// One more.
pub open spec fn one_more(n: u64) -> u64 {
    if n == u64::MAX {
        0
    } else {
        (n + 1) as u64
    }
}

fn count_up(n: u64) -> (r: u64)
    ensures
        r == one_more(n),
{
    if n == u64::MAX {
        0
    } else {
        n + 1
    }
}

/// What a finished call means for the circuit of the plugin.
#[derive(Debug, Clone, Copy, PartialEq, Eq, Structural)]
pub enum BreakerStep {
    /// A success: the circuit is closed.
    Clear,
    /// A fault that counts against the circuit.
    Count,
    /// Neither.
    Keep,
}

/// The counters after a fault.
pub open spec fn counted_fault(c: PluginCounters, timeout: bool) -> PluginCounters {
    PluginCounters {
        faults: one_more(c.faults),
        timeouts: if timeout {
            one_more(c.timeouts)
        } else {
            c.timeouts
        },
        ..c
    }
}

impl PluginCounters {
    /// Counters at zero.
    pub fn new() -> (r: Self)
        ensures
            r == (PluginCounters {
                invocations: 0,
                faults: 0,
                timeouts: 0,
                cancellations: 0,
                http_requests: 0,
            }),
    {
        PluginCounters {
            invocations: 0,
            faults: 0,
            timeouts: 0,
            cancellations: 0,
            http_requests: 0,
        }
    }

    /// Counts a call that begins.
    pub fn bump_invocation(&mut self)
        ensures
            *final(self) == (PluginCounters {
                invocations: one_more(old(self).invocations),
                ..*old(self)
            }),
    {
        self.invocations = count_up(self.invocations);
    }

    /// Counts a fault; `counts` says whether it counts against the circuit.
    pub fn record_fault(&mut self, fault: &PluginFault, counts: bool) -> (r: BreakerStep)
        ensures
            *final(self) == counted_fault(*old(self), fault is Timeout),
            r == (if counts {
                BreakerStep::Count
            } else {
                BreakerStep::Keep
            }),
    {
        self.faults = count_up(self.faults);
        if let PluginFault::Timeout = fault {
            self.timeouts = count_up(self.timeouts);
        }
        if counts {
            BreakerStep::Count
        } else {
            BreakerStep::Keep
        }
    }

    /// Settles a call that cannot be cancelled: the result is handed on, a
    /// success closes the circuit, a fault is counted.
    pub fn settle<T>(&mut self, res: Result<T, PluginFault>, counts: bool) -> (r: (
        Result<T, PluginFault>,
        BreakerStep,
    ))
        ensures
            r.0 == res,
            match res {
                Ok(_) => r.1 == BreakerStep::Clear && *final(self) == *old(self),
                Err(f) => *final(self) == counted_fault(*old(self), f is Timeout) && r.1 == (
                if counts {
                    BreakerStep::Count
                } else {
                    BreakerStep::Keep
                }),
            },
    {
        match res {
            Ok(v) => (Ok(v), BreakerStep::Clear),
            Err(fault) => {
                let step = self.record_fault(&fault, counts);
                (Err(fault), step)
            },
        }
    }

    /// Settles a call that the client may have cancelled. The end of a cancelled
    /// call is a cancellation, whatever the fault: it is no fault and does not
    /// count against the circuit.
    pub fn settle_cancellable<T>(
        &mut self,
        cancelled: bool,
        res: Result<T, PluginFault>,
        counts: bool,
    ) -> (r: (Result<T, PluginFault>, BreakerStep))
        ensures
            match res {
                Ok(_) => r.0 == res && r.1 == BreakerStep::Clear && *final(self) == *old(self),
                Err(f) => if cancelled {
                    &&& r.0 == Err::<T, PluginFault>(PluginFault::Cancelled)
                    &&& r.1 == BreakerStep::Keep
                    &&& *final(self) == (PluginCounters {
                        cancellations: one_more(old(self).cancellations),
                        ..*old(self)
                    })
                } else {
                    &&& r.0 == res
                    &&& *final(self) == counted_fault(*old(self), f is Timeout)
                    &&& r.1 == (if counts {
                        BreakerStep::Count
                    } else {
                        BreakerStep::Keep
                    })
                },
            },
    {
        match res {
            Ok(v) => (Ok(v), BreakerStep::Clear),
            Err(fault) => if cancelled {
                self.cancellations = count_up(self.cancellations);
                (Err(PluginFault::Cancelled), BreakerStep::Keep)
            } else {
                let step = self.record_fault(&fault, counts);
                (Err(fault), step)
            },
        }
    }
}

/// Whether a plugin may be called: it is installed and enabled, and its circuit
/// is not known to be open.
pub fn is_usable(enabled: Option<bool>, circuit: Option<CircuitState>) -> (r: bool)
    ensures
        r == (enabled == Some(true) && circuit != Some(CircuitState::Open)),
{
    match enabled {
        Some(true) => match circuit {
            Some(CircuitState::Open) => false,
            _ => true,
        },
        _ => false,
    }
}

/// Whether a list holds a capability under a name.
pub open spec fn lists(provides: Seq<Provided>, capability: Capability, name: Seq<char>) -> bool {
    exists|i: int|
        0 <= i < provides.len() && (#[trigger] provides[i]).capability == capability
            && provides[i].name@ == name
}

/// Whether a plugin provides a capability; one that is not installed, or whose
/// manifest cannot be read, provides none.
pub fn provides(manifest: Option<&Manifest>, capability: Capability, name: &str) -> (r: bool)
    ensures
        r == (match manifest {
            Some(m) => lists(m.provides@, capability, name@),
            None => false,
        }),
{
    let m = match manifest {
        Some(m) => m,
        None => {
            return false;
        },
    };
    let mut i: usize = 0;
    while i < m.provides.len()
        invariant
            i <= m.provides@.len(),
            manifest == Some(m),
            forall|k: int|
                0 <= k < i ==> !((#[trigger] m.provides@[k]).capability == capability
                    && m.provides@[k].name@ == name@),
        decreases m.provides@.len() - i,
    {
        if m.provides[i].capability == capability && same(m.provides[i].name.as_str(), name) {
            assert(m.provides@[i as int].name@ == name@);
            return true;
        }
        i = i + 1;
    }
    false
}

/// A plugin as the hooks see it.
#[derive(Debug)]
pub struct PluginEntry {
    pub id: String,
    /// `None` where it cannot be read.
    pub manifest: Option<Manifest>,
    pub usable: bool,
}

/// Whether a plugin runs for a hook.
pub open spec fn runs_for(e: PluginEntry, hook: Seq<char>) -> bool {
    e.usable && (e.manifest matches Some(m) && lists(m.provides@, Capability::Hook, hook))
}

/// The ids of the plugins that run for a hook, in their order.
pub open spec fn hook_ids(rows: Seq<PluginEntry>, hook: Seq<char>) -> Seq<Seq<char>>
    decreases rows.len(),
{
    if rows.len() == 0 {
        Seq::empty()
    } else {
        let rest = hook_ids(rows.drop_last(), hook);
        if runs_for(rows.last(), hook) {
            rest.push(rows.last().id@)
        } else {
            rest
        }
    }
}

/// The usable plugins that declare a hook, in the order of the list.
pub fn plugins_with_hook(rows: &Vec<PluginEntry>, hook: &str) -> (r: Vec<String>)
    ensures
        views(r@) == hook_ids(rows@, hook@),
{
    let mut ids: Vec<String> = Vec::new();
    let mut i: usize = 0;
    while i < rows.len()
        invariant
            i <= rows@.len(),
            views(ids@) == hook_ids(rows@.take(i as int), hook@),
        decreases rows@.len() - i,
    {
        let ghost before = ids@;
        let e = &rows[i];
        let manifest = match &e.manifest {
            Some(m) => Some(m),
            None => None,
        };
        if e.usable && provides(manifest, Capability::Hook, hook) {
            ids.push(e.id.clone());
            assert(views(ids@) =~= views(before).push(e.id@));
        }
        i = i + 1;
        assert(rows@.take(i as int).drop_last() =~= rows@.take(i - 1));
    }
    assert(rows@.take(i as int) =~= rows@);
    ids
}

/// A reference to a capability of a plugin.
#[derive(Debug)]
pub struct PluginRef {
    pub plugin_id: String,
    pub capability: String,
}

/// The plugin and the capability of a reference `plugin:<id>/<capability>`.
pub open spec fn ref_parts(s: Seq<char>) -> Option<(Seq<char>, Seq<char>)> {
    if !begins_with(s, "plugin:"@) {
        None
    } else {
        let rest = s.skip("plugin:"@.len() as int);
        let at = next_char(rest, '/', 0);
        if 0 < at && at + 1 < rest.len() {
            Some((rest.take(at), rest.skip(at + 1)))
        } else {
            None
        }
    }
}

impl PluginRef {
    /// Reads a reference; neither part may be empty.
    pub fn parse(reference: &str) -> (r: Option<PluginRef>)
        ensures
            match r {
                Some(p) => ref_parts(reference@) == Some((p.plugin_id@, p.capability@)),
                None => ref_parts(reference@) is None,
            },
    {
        let rest = match strip_prefix(reference, "plugin:") {
            Some(rest) => rest,
            None => {
                return None;
            },
        };
        let chars = chars_of(rest.as_str());
        let at = find_char(&chars, '/', 0);
        let total: usize = chars.len();
        if at == 0 || at >= total || at == total - 1 {
            return None;
        }
        assert(chars@.subrange(0, at as int) =~= rest@.take(at as int));
        assert(chars@.subrange(at + 1, total as int) =~= rest@.skip(at + 1));
        Some(
            PluginRef {
                plugin_id: text_range(&chars, 0, at),
                capability: text_range(&chars, at + 1, total),
            },
        )
    }
}

/// The plugin that a reference is bound to: one that provides the capability
/// and is usable. Everything else leaves the reference unbound. `known` are the
/// plugins.
pub fn resolve_binding(reference: &str, capability: Capability, known: &Vec<PluginEntry>) -> (r:
    Option<String>)
    ensures
        match r {
            Some(id) => ref_parts(reference@) matches Some((plugin, name)) && plugin == id@
                && satisfied(known@, (plugin, name), capability),
            None => ref_parts(reference@) matches Some(parts) ==> !satisfied(
                known@,
                parts,
                capability,
            ),
        },
{
    let p = match PluginRef::parse(reference) {
        Some(p) => p,
        None => {
            return None;
        },
    };
    let ghost parts = (p.plugin_id@, p.capability@);
    let mut i: usize = 0;
    while i < known.len()
        invariant
            i <= known@.len(),
            parts == (p.plugin_id@, p.capability@),
            ref_parts(reference@) == Some(parts),
            forall|k: int| 0 <= k < i ==> !satisfies(#[trigger] known@[k], parts, capability),
        decreases known@.len() - i,
    {
        let e = &known[i];
        let manifest = match &e.manifest {
            Some(m) => Some(m),
            None => None,
        };
        if same(e.id.as_str(), p.plugin_id.as_str()) && e.usable && provides(
            manifest,
            capability,
            p.capability.as_str(),
        ) {
            assert(satisfies(known@[i as int], parts, capability));
            return Some(p.plugin_id);
        }
        i = i + 1;
    }
    None
}

/// Whether a plugin satisfies a reference.
pub open spec fn satisfies(
    e: PluginEntry,
    parts: (Seq<char>, Seq<char>),
    capability: Capability,
) -> bool {
    &&& e.id@ == parts.0
    &&& e.usable
    &&& e.manifest matches Some(m) && lists(m.provides@, capability, parts.1)
}

/// Whether some plugin satisfies a reference.
pub open spec fn satisfied(
    known: Seq<PluginEntry>,
    parts: (Seq<char>, Seq<char>),
    capability: Capability,
) -> bool {
    exists|i: int| 0 <= i < known.len() && satisfies(#[trigger] known[i], parts, capability)
}

/// A plugin is never bound while it is not usable.
pub proof fn law_binding_fails_closed(
    known: Seq<PluginEntry>,
    parts: (Seq<char>, Seq<char>),
    capability: Capability,
)
    requires
        forall|i: int|
            0 <= i < known.len() && (#[trigger] known[i]).id@ == parts.0 ==> !known[i].usable,
    ensures
        !satisfied(known, parts, capability),
{
}

/// What the store knows of a plugin that is about to be called.
#[derive(Debug)]
pub struct PluginStanding {
    pub enabled: bool,
    pub manifest_readable: bool,
    pub api_compatible: bool,
}

/// Why a plugin cannot be called.
pub open spec fn not_ready(id: Seq<char>, standing: Option<PluginStanding>) -> Option<Seq<char>> {
    match standing {
        None => Some("plugin '"@ + id + "' is not installed"@),
        Some(s) => if !s.enabled {
            Some("plugin '"@ + id + "' is not enabled"@)
        } else if !s.manifest_readable {
            Some("plugin '"@ + id + "' has an unreadable manifest"@)
        } else {
            None
        },
    }
}

/// Whether a plugin can be called: it is installed and enabled, and its manifest
/// can be read.
pub fn check_ready(id: &str, standing: &Option<PluginStanding>) -> (r: Result<(), String>)
    ensures
        match not_ready(id@, *standing) {
            Some(e) => r matches Err(got) && got@ == e,
            None => r is Ok,
        },
{
    match standing {
        None => Err(text3("plugin '", id, "' is not installed")),
        Some(s) => if !s.enabled {
            Err(text3("plugin '", id, "' is not enabled"))
        } else if !s.manifest_readable {
            Err(text3("plugin '", id, "' has an unreadable manifest"))
        } else {
            Ok(())
        },
    }
}

/// Whether a plugin can be enabled: it is installed, its manifest can be read,
/// and it is made for this host's interface.
pub fn check_enable(id: &str, standing: &Option<PluginStanding>) -> (r: Result<(), String>)
    ensures
        match *standing {
            None => r matches Err(e) && e@ == "plugin '"@ + id@ + "' is not installed"@,
            Some(s) => if !s.manifest_readable {
                r matches Err(e) && e@ == "plugin '"@ + id@ + "' has an unreadable manifest"@
            } else if !s.api_compatible {
                r matches Err(e) && e@ == "plugin '"@ + id@
                    + "' is not API-compatible with this host"@
            } else {
                r is Ok
            },
        },
{
    match standing {
        None => Err(text3("plugin '", id, "' is not installed")),
        Some(s) => if !s.manifest_readable {
            Err(text3("plugin '", id, "' has an unreadable manifest"))
        } else if !s.api_compatible {
            Err(text3("plugin '", id, "' is not API-compatible with this host"))
        } else {
            Ok(())
        },
    }
}

/// The limits of one guest call.
#[derive(Debug, Clone, Copy, PartialEq, Eq, Structural)]
pub struct CallLimits {
    pub storage: u64,
    pub max_outbound_requests: u32,
    pub max_http_body: u64,
}

/// What the host lets a guest do during a call.
#[derive(Debug)]
pub struct HostContext {
    pub plugin_id: String,
    pub network_hosts: Vec<String>,
    pub credential_read: bool,
    pub credential_sign: bool,
    pub credential_scopes: Vec<String>,
    pub storage_quota: u64,
    pub max_outbound_requests: u32,
    pub max_http_body: u64,
    pub adapter_stream: bool,
    pub routing_facts_pure: bool,
    pub outbound_count: u32,
}

/// Whether a context grants what a manifest asks for, and no more.
pub open spec fn grants_exactly(c: HostContext, m: Manifest) -> bool {
    &&& views(c.network_hosts@) == views(m.permissions.network_hosts@)
    &&& views(c.credential_scopes@) == views(m.permissions.credential_scopes@)
    &&& c.credential_read == m.permissions.credential_read
    &&& c.credential_sign == (m.permissions.credential_scopes@.len() > 0)
    &&& c.routing_facts_pure == (m.routing_facts_mode@ != "cached"@)
}

/// Whether a context grants nothing.
pub open spec fn grants_nothing(c: HostContext) -> bool {
    &&& c.network_hosts@.len() == 0
    &&& c.credential_scopes@.len() == 0
    &&& !c.credential_read
    &&& !c.credential_sign
    &&& c.routing_facts_pure
}

fn copy_texts(v: &Vec<String>) -> (r: Vec<String>)
    ensures
        views(r@) == views(v@),
        r@.len() == v@.len(),
{
    let mut out: Vec<String> = Vec::new();
    let mut i: usize = 0;
    while i < v.len()
        invariant
            i <= v@.len(),
            views(out@) == views(v@).take(i as int),
            out@.len() == i,
        decreases v@.len() - i,
    {
        let ghost before = out@;
        out.push(v[i].clone());
        assert(views(out@) =~= views(before).push(v@[i as int]@));
        i = i + 1;
        assert(views(out@) =~= views(v@).take(i as int));
    }
    assert(views(v@).take(i as int) =~= views(v@));
    out
}

/// The context of a guest call. A plugin whose manifest cannot be read gets a
/// context without any permission.
pub fn host_context(
    id: &str,
    manifest: Option<&Manifest>,
    limits: CallLimits,
    adapter: bool,
) -> (r: HostContext)
    ensures
        r.plugin_id@ == id@,
        match manifest {
            Some(m) => grants_exactly(r, *m),
            None => grants_nothing(r),
        },
        r.storage_quota == limits.storage,
        r.max_outbound_requests == limits.max_outbound_requests,
        r.max_http_body == limits.max_http_body,
        r.adapter_stream == adapter,
        r.outbound_count == 0,
{
    match manifest {
        Some(m) => HostContext {
            plugin_id: id.to_owned(),
            network_hosts: copy_texts(&m.permissions.network_hosts),
            credential_read: m.permissions.credential_read,
            credential_sign: m.permissions.credential_scopes.len() > 0,
            credential_scopes: copy_texts(&m.permissions.credential_scopes),
            storage_quota: limits.storage,
            max_outbound_requests: limits.max_outbound_requests,
            max_http_body: limits.max_http_body,
            adapter_stream: adapter,
            routing_facts_pure: !same(m.routing_facts_mode.as_str(), "cached"),
            outbound_count: 0,
        },
        None => HostContext {
            plugin_id: id.to_owned(),
            network_hosts: Vec::new(),
            credential_read: false,
            credential_sign: false,
            credential_scopes: Vec::new(),
            storage_quota: limits.storage,
            max_outbound_requests: limits.max_outbound_requests,
            max_http_body: limits.max_http_body,
            adapter_stream: adapter,
            routing_facts_pure: true,
            outbound_count: 0,
        },
    }
}

/// A routing fact that the host has cached for a plugin.
pub struct CachedFact {
    pub name: String,
    pub value: Node,
    pub observed_at: Option<String>,
    pub max_age_ms: Option<u64>,
}

/// What a `CachedFact` says.
pub struct FactModel {
    pub name: Seq<char>,
    pub value: JsonModel,
    pub observed_at: Option<Seq<char>>,
    pub max_age_ms: Option<u64>,
}

impl View for CachedFact {
    type V = FactModel;

    open spec fn view(&self) -> FactModel {
        FactModel {
            name: self.name@,
            value: node_model(self.value),
            observed_at: text_in(self.observed_at),
            max_age_ms: self.max_age_ms,
        }
    }
}

/// The facts as models.
pub open spec fn fact_views(v: Seq<CachedFact>) -> Seq<FactModel> {
    v.map_values(|f: CachedFact| f@)
}

/// The fact that a stored envelope holds, under a key.
pub open spec fn fact_of(key: Seq<char>, envelope: JsonModel, prefix: Seq<char>) -> FactModel {
    FactModel {
        name: if begins_with(key, prefix) {
            key.skip(prefix.len() as int)
        } else {
            key
        },
        value: match field_of(envelope, "value"@) {
            Some(v) => v,
            None => JsonModel::Null,
        },
        observed_at: text_field(envelope, "observed_at"@),
        max_age_ms: count_field(envelope, "max_age_ms"@),
    }
}

/// The facts of stored entries, given what each entry holds.
pub open spec fn facts_of(
    keys: Seq<Seq<char>>,
    envelopes: Seq<Option<JsonModel>>,
    prefix: Seq<char>,
    n: int,
) -> Seq<FactModel>
    decreases n,
{
    if n <= 0 {
        Seq::empty()
    } else {
        let rest = facts_of(keys, envelopes, prefix, n - 1);
        match envelopes[n - 1] {
            Some(e) => rest.push(fact_of(keys[n - 1], e, prefix)),
            None => rest,
        }
    }
}

/// An entry of a plugin's store.
pub struct StoreEntry {
    pub key: String,
    pub value: Vec<u8>,
}

/// The keys of entries.
pub open spec fn entry_keys(v: Seq<StoreEntry>) -> Seq<Seq<char>> {
    v.map_values(|e: StoreEntry| e.key@)
}

/// What entries hold, read as JSON.
pub open spec fn entry_values(v: Seq<StoreEntry>) -> Seq<Option<JsonModel>> {
    v.map_values(|e: StoreEntry| json_parsed(e.value@))
}

/// The fact that an envelope holds, under a key.
pub fn read_fact(key: &str, envelope: &serde_json::Value, prefix: &str) -> (r: CachedFact)
    ensures
        r@ == fact_of(key@, json_model(*envelope), prefix@),
{
    let node = read_json(envelope);
    let name = match strip_prefix(key, prefix) {
        Some(rest) => rest,
        None => key.to_owned(),
    };
    let value = match get_field(&node, "value") {
        Some(v) => read_json(v),
        None => Node::Null,
    };
    CachedFact {
        name,
        value,
        observed_at: get_text(envelope, "observed_at"),
        max_age_ms: get_count(&node, "max_age_ms"),
    }
}

/// The cached facts of a plugin. An entry that is no JSON document is passed
/// over. No guest is called.
pub fn cached_facts(entries: &Vec<StoreEntry>, prefix: &str) -> (r: Vec<CachedFact>)
    ensures
        fact_views(r@) == facts_of(
            entry_keys(entries@),
            entry_values(entries@),
            prefix@,
            entries@.len() as int,
        ),
{
    let mut out: Vec<CachedFact> = Vec::new();
    let mut i: usize = 0;
    let ghost keys = entry_keys(entries@);
    let ghost values = entry_values(entries@);
    while i < entries.len()
        invariant
            i <= entries@.len(),
            keys == entry_keys(entries@),
            values == entry_values(entries@),
            fact_views(out@) == facts_of(keys, values, prefix@, i as int),
        decreases entries@.len() - i,
    {
        let ghost before = out@;
        let e = &entries[i];
        assert(keys[i as int] == e.key@);
        assert(values[i as int] == json_parsed(e.value@));
        if let Some(v) = parse_json(e.value.as_slice()) {
            let f = read_fact(e.key.as_str(), &v, prefix);
            assert(values[i as int] == Some(json_model(v)));
            out.push(f);
            assert(fact_views(out@) =~= fact_views(before).push(f@));
        }
        i = i + 1;
    }
    out
}

/// A plugin is granted what its manifest asks for and nothing else: each kind of
/// permission once, where it asks for it.
pub proof fn law_grants_are_what_was_asked(p: Permissions, name: Seq<char>, value: Seq<char>)
    ensures
        grants_of(p).contains((name, value)) <==> {
            ||| p.network_hosts@.len() > 0 && name == "network_hosts"@ && value == json_list_text(
                views(p.network_hosts@),
            )
            ||| p.credential_scopes@.len() > 0 && name == "credential_scopes"@ && value
                == json_list_text(views(p.credential_scopes@))
            ||| p.credential_read && name == "credential_read"@ && value == "true"@
        },
{
    let a = grant_if(
        p.network_hosts@.len() > 0,
        "network_hosts"@,
        json_list_text(views(p.network_hosts@)),
    );
    let b = grant_if(
        p.credential_scopes@.len() > 0,
        "credential_scopes"@,
        json_list_text(views(p.credential_scopes@)),
    );
    let c = grant_if(p.credential_read, "credential_read"@, "true"@);
    let all = grants_of(p);
    assert(all =~= a + b + c);
    if a.len() > 0 {
        assert(all[0] == a[0]);
    }
    if b.len() > 0 {
        assert(all[a.len() as int] == b[0]);
    }
    if c.len() > 0 {
        assert(all[(a.len() + b.len()) as int] == c[0]);
    }
    if all.contains((name, value)) {
        let k = choose|k: int| 0 <= k < all.len() && all[k] == (name, value);
        if k < a.len() {
            assert(all[k] == a[k]);
        } else if k < a.len() + b.len() {
            assert(all[k] == b[k - a.len()]);
        } else {
            assert(all[k] == c[k - a.len() - b.len()]);
        }
    }
}

/// A package is the expected one by its hash, written in any case; without an
/// expectation any package is.
pub proof fn law_hashes_are_compared_in_any_case(e: &str, computed: Seq<char>)
    ensures
        is_expected(None, computed),
        is_expected(Some(e), computed) <==> lower_of(e@) == lower_of(computed),
        e@ == computed ==> is_expected(Some(e), computed),
        e@.len() != computed.len() ==> !is_expected(Some(e), computed),
{
    if lower_of(e@) == lower_of(computed) {
        assert(lower_of(e@).len() == e@.len());
        assert(lower_of(computed).len() == computed.len());
    }
}

/// Only a signature by an unknown key needs leave.
pub proof fn law_untrusted_signatures_need_leave(sig: SignatureStatus, allow: bool)
    ensures
        signature_suffices(sig, true),
        signature_suffices(SignatureStatus::Verified, allow),
        signature_suffices(SignatureStatus::Unsigned, allow),
        !signature_suffices(SignatureStatus::Untrusted, false),
{
}

/// Faults add up one by one; the fifth in a row and every further one open the
/// circuit for a minute, in which nothing passes, and then one call may try.
pub proof fn law_faults_open_the_circuit_for_a_minute(b: Breaker, now: i64, later: i64)
    requires
        b.faults < u32::MAX,
        now + 60 <= i64::MAX,
    ensures
        after_fault(b, now).faults == b.faults + 1,
        b.faults < 4 ==> after_fault(b, now).open_until == b.open_until,
        b.faults >= 4 ==> (circuit_at(after_fault(b, now), later) == CircuitState::Open <==> later
            < now + 60),
        b.faults >= 4 ==> (circuit_at(after_fault(b, now), later) == CircuitState::HalfOpen
            <==> later >= now + 60),
        b.open_until is None ==> circuit_at(b, now) == CircuitState::Closed,
{
}

/// A call that ran out of time is told by the words of the error, and any other
/// error is a fault of the plugin.
pub proof fn law_timeouts_are_told_by_their_words(before: Seq<char>, behind: Seq<char>, msg: Seq<char>)
    ensures
        is_timeout_text(before + "epoch"@ + behind),
        is_timeout_text(before + "interrupt"@ + behind),
        is_timeout_text(before + "deadline"@ + behind),
        !contains_part(msg, "epoch"@) && !contains_part(msg, "interrupt"@) && !contains_part(
            msg,
            "deadline"@,
        ) ==> !is_timeout_text(msg),
{
    law_parts_occur(before, "epoch"@, behind);
    law_parts_occur(before, "interrupt"@, behind);
    law_parts_occur(before, "deadline"@, behind);
}

/// Every fault is counted, a timeout as both, and nothing else changes.
pub proof fn law_faults_are_counted(c: PluginCounters, timeout: bool)
    requires
        c.faults < u64::MAX,
        c.timeouts < u64::MAX,
    ensures
        counted_fault(c, timeout).faults == c.faults + 1,
        counted_fault(c, true).timeouts == c.timeouts + 1,
        counted_fault(c, false).timeouts == c.timeouts,
        counted_fault(c, timeout).invocations == c.invocations,
        counted_fault(c, timeout).cancellations == c.cancellations,
        counted_fault(c, timeout).http_requests == c.http_requests,
{
}

/// A plugin provides what its manifest lists, by kind and name together.
pub proof fn law_provided_is_what_is_listed(
    provides: Seq<Provided>,
    i: int,
    capability: Capability,
    name: Seq<char>,
)
    ensures
        0 <= i < provides.len() && provides[i].capability == capability && provides[i].name@ == name
            ==> lists(provides, capability, name),
        (forall|k: int|
            0 <= k < provides.len() ==> (#[trigger] provides[k]).capability != capability
                || provides[k].name@ != name) ==> !lists(provides, capability, name),
{
}

/// A hook is run by every usable plugin that provides it, in order, and by no
/// other.
pub proof fn law_hooks_are_run_in_order(
    a: Seq<PluginEntry>,
    e: PluginEntry,
    b: Seq<PluginEntry>,
    hook: Seq<char>,
)
    ensures
        hook_ids(a + b, hook) == hook_ids(a, hook) + hook_ids(b, hook),
        e.usable && (e.manifest matches Some(m) && lists(m.provides@, Capability::Hook, hook))
            ==> hook_ids(seq![e], hook) == seq![e.id@],
        !e.usable ==> hook_ids(seq![e], hook).len() == 0,
        e.manifest is None ==> hook_ids(seq![e], hook).len() == 0,
        e.manifest matches Some(m) ==> (!lists(m.provides@, Capability::Hook, hook) ==> hook_ids(
            seq![e],
            hook,
        ).len() == 0),
    decreases b.len(),
{
    assert(seq![e].drop_last() =~= Seq::<PluginEntry>::empty());
    assert(hook_ids(seq![e].drop_last(), hook) =~= Seq::<Seq<char>>::empty());
    assert(Seq::<Seq<char>>::empty().push(e.id@) =~= seq![e.id@]);
    if b.len() == 0 {
        assert(a + b =~= a);
        assert(hook_ids(a, hook) + hook_ids(b, hook) =~= hook_ids(a, hook));
    } else {
        law_hooks_are_run_in_order(a, e, b.drop_last(), hook);
        assert((a + b).drop_last() =~= a + b.drop_last());
        assert((a + b).last() == b.last());
        assert(hook_ids(a + b, hook) =~= hook_ids(a, hook) + hook_ids(b, hook));
    }
}

/// A reference names a plugin and a capability of it, with a slash between them;
/// both must be there, and anything without the mark is no reference.
pub proof fn law_references_name_plugin_and_capability(
    id: Seq<char>,
    capability: Seq<char>,
    s: Seq<char>,
)
    requires
        !id.contains('/'),
    ensures
        id.len() > 0 && capability.len() > 0 ==> ref_parts(
            "plugin:"@ + id + seq!['/'] + capability,
        ) == Some((id, capability)),
        ref_parts("plugin:"@ + id) is None,
        ref_parts("plugin:"@ + id + seq!['/']) is None,
        id.len() == 0 ==> ref_parts("plugin:"@ + id + seq!['/'] + capability) is None,
        !begins_with(s, "plugin:"@) ==> ref_parts(s) is None,
{
    let p = "plugin:"@;
    let n = id.len() as int;
    assert forall|k: int| 0 <= k < n implies id[k] != '/' by {
        assert(id.contains(id[k]));
    }
    let a = p + id;
    assert(a.skip(p.len() as int) =~= id);
    lemma_next_char_is(id, '/', 0, n);
    let rest = id + seq!['/'] + capability;
    let b = p + id + seq!['/'] + capability;
    assert(b.take(p.len() as int) =~= p);
    assert(b.skip(p.len() as int) =~= rest);
    assert forall|k: int| 0 <= k < n implies rest[k] != '/' by {
        assert(rest[k] == id[k]);
    }
    assert(rest[n] == '/');
    lemma_next_char_is(rest, '/', 0, n);
    assert(rest.take(n) =~= id);
    assert(rest.skip(n + 1) =~= capability);
    let c = p + id + seq!['/'];
    let tail = id + seq!['/'];
    assert(c.skip(p.len() as int) =~= tail);
    assert forall|k: int| 0 <= k < n implies tail[k] != '/' by {
        assert(tail[k] == id[k]);
    }
    assert(tail[n] == '/');
    lemma_next_char_is(tail, '/', 0, n);
}

/// A binding holds where the plugin it names is usable and provides what it names.
pub proof fn law_bindings_need_a_usable_plugin(
    known: Seq<PluginEntry>,
    i: int,
    m: Manifest,
    id: Seq<char>,
    name: Seq<char>,
    capability: Capability,
)
    ensures
        0 <= i < known.len() && known[i].id@ == id && known[i].usable && known[i].manifest == Some(m)
            && lists(m.provides@, capability, name) ==> satisfied(known, (id, name), capability),
        (forall|k: int|
            0 <= k < known.len() ==> (#[trigger] known[k]).id@ != id || !known[k].usable)
            ==> !satisfied(known, (id, name), capability),
{
    if 0 <= i < known.len() && known[i].id@ == id && known[i].usable && known[i].manifest == Some(m)
        && lists(m.provides@, capability, name) {
        assert(satisfies(known[i], (id, name), capability));
    }
}

/// A plugin is ready where it is installed, enabled and readable.
pub proof fn law_ready_plugins(id: Seq<char>, s: PluginStanding)
    ensures
        not_ready(id, None) is Some,
        not_ready(id, Some(s)) is None <==> s.enabled && s.manifest_readable,
{
}

/// What a plugin may do is what its manifest asks for: it reaches no host and no
/// scope besides, signs only with scopes, and without a manifest may do nothing.
pub proof fn law_contexts_grant_no_more(c: HostContext, m: Manifest, i: int)
    ensures
        grants_exactly(c, m) ==> {
            &&& c.network_hosts@.len() == m.permissions.network_hosts@.len()
            &&& 0 <= i < c.network_hosts@.len() ==> c.network_hosts@[i]@
                == m.permissions.network_hosts@[i]@
            &&& c.credential_scopes@.len() == m.permissions.credential_scopes@.len()
            &&& 0 <= i < c.credential_scopes@.len() ==> c.credential_scopes@[i]@
                == m.permissions.credential_scopes@[i]@
            &&& c.credential_read <==> m.permissions.credential_read
            &&& c.credential_sign <==> m.permissions.credential_scopes@.len() > 0
            &&& m.routing_facts_mode@ == "cached"@ ==> !c.routing_facts_pure
            &&& m.routing_facts_mode@ != "cached"@ ==> c.routing_facts_pure
        },
        grants_nothing(c) ==> c.network_hosts@.len() == 0 && c.credential_scopes@.len() == 0
            && !c.credential_read && !c.credential_sign && c.routing_facts_pure,
{
    if grants_exactly(c, m) {
        assert(views(c.network_hosts@).len() == views(m.permissions.network_hosts@).len());
        assert(views(c.credential_scopes@).len() == views(m.permissions.credential_scopes@).len());
        if 0 <= i < c.network_hosts@.len() {
            assert(views(c.network_hosts@)[i] == views(m.permissions.network_hosts@)[i]);
        }
        if 0 <= i < c.credential_scopes@.len() {
            assert(views(c.credential_scopes@)[i] == views(m.permissions.credential_scopes@)[i]);
        }
    }
}

/// A stored fact is told under its key without the prefix, with its value, the
/// time it was observed and how long it lasts; an envelope without a value tells
/// of nothing.
pub proof fn law_facts_are_told_without_their_prefix(
    prefix: Seq<char>,
    name: Seq<char>,
    envelope: JsonModel,
)
    ensures
        ({
            let f = fact_of(prefix + name, envelope, prefix);
            &&& f.name == name
            &&& field_of(envelope, "value"@) matches Some(v) ==> f.value == v
            &&& field_of(envelope, "value"@) is None ==> f.value == JsonModel::Null
            &&& f.observed_at == text_field(envelope, "observed_at"@)
            &&& f.max_age_ms == count_field(envelope, "max_age_ms"@)
        }),
{
    assert((prefix + name).take(prefix.len() as int) =~= prefix);
    assert((prefix + name).skip(prefix.len() as int) =~= name);
}

/// Every entry that can be read is told, and an entry that cannot be is left out.
pub proof fn law_readable_facts_are_told(
    keys: Seq<Seq<char>>,
    envelopes: Seq<Option<JsonModel>>,
    prefix: Seq<char>,
    n: int,
    i: int,
    e: JsonModel,
)
    requires
        0 <= i < n <= envelopes.len(),
        keys.len() == envelopes.len(),
    ensures
        envelopes[i] == Some(e) ==> facts_of(keys, envelopes, prefix, n).contains(
            fact_of(keys[i], e, prefix),
        ),
        envelopes[n - 1] is None ==> facts_of(keys, envelopes, prefix, n) == facts_of(
            keys,
            envelopes,
            prefix,
            n - 1,
        ),
    decreases n,
{
    if envelopes[i] == Some(e) {
        let all = facts_of(keys, envelopes, prefix, n);
        let rest = facts_of(keys, envelopes, prefix, n - 1);
        let f = fact_of(keys[i], e, prefix);
        if i == n - 1 {
            assert(all.last() == f);
            assert(all[all.len() - 1] == f);
        } else {
            law_readable_facts_are_told(keys, envelopes, prefix, n - 1, i, e);
            let k = choose|k: int| 0 <= k < rest.len() && rest[k] == f;
            assert(all[k] == f);
        }
    }
}

} // verus!
