//! Plugin packages, grants, the circuit breaker and bindings.

use ed25519_dalek::{Signer, SigningKey};
use kinetix::json::Node;
use kinetix::package::{
    may_walk, read_package, sha256_hex, validate_entry_path, verify_signature, SignatureStatus,
};
use kinetix::plugins::{
    begin_install, cached_facts, check_enable, check_ready, check_signature, finish_install,
    host_context, is_usable, manifest_summary, map_call_error, permission_grants,
    plugins_with_hook, resolve_binding, Breaker, BreakerStep, CallLimits, Capability,
    CircuitState, InstallError, Limits, Manifest, Permissions, PluginCounters, PluginEntry,
    PluginFault, PluginRef, PluginRow, PluginStanding, Provided, StoreEntry,
};
use sha2::{Digest, Sha256};

fn build_kxp(manifest: &str, wasm: &[u8]) -> Vec<u8> {
    let mut builder = tar::Builder::new(Vec::new());
    append(&mut builder, "plugin.toml", manifest.as_bytes());
    append(&mut builder, "plugin.wasm", wasm);
    append(&mut builder, "README.md", b"# Foo");
    builder.into_inner().unwrap()
}

fn build_signed(manifest: &str, wasm: &[u8], signature: &[u8]) -> Vec<u8> {
    let mut builder = tar::Builder::new(Vec::new());
    append(&mut builder, "plugin.toml", manifest.as_bytes());
    append(&mut builder, "plugin.wasm", wasm);
    append(&mut builder, "signature.ed25519", signature);
    builder.into_inner().unwrap()
}

fn append(builder: &mut tar::Builder<Vec<u8>>, name: &str, data: &[u8]) {
    let mut header = tar::Header::new_gnu();
    header.set_size(data.len() as u64);
    header.set_mode(0o644);
    header.set_cksum();
    builder.append_data(&mut header, name, data).unwrap();
}

fn manifest() -> Manifest {
    Manifest {
        id: "x".to_string(),
        name: "X".to_string(),
        version: "1".to_string(),
        plugin_api: "1".to_string(),
        provides: vec![
            Provided { capability: Capability::ModelSource, name: "m".to_string() },
            Provided { capability: Capability::Hook, name: "on_usage_finalized".to_string() },
        ],
        permissions: Permissions {
            network_hosts: vec!["a.example".to_string()],
            credential_scopes: vec!["provider:p".to_string()],
            credential_read: true,
        },
        limits: Limits { memory: Some(1 << 20), ..Limits::default() },
        routing_facts_mode: "pure".to_string(),
    }
}

#[test]
fn permission_grants_are_all_or_nothing() {
    let grants = permission_grants(&manifest());
    assert_eq!(grants.len(), 3);
    assert!(grants.iter().any(|g| g.permission == "credential_read"));
    assert_eq!(grants[0].value_json, "[\"a.example\"]");
    assert_eq!(grants[1].value_json, "[\"provider:p\"]");
    assert_eq!(grants[2].value_json, "true");
}

#[test]
fn reads_a_valid_package() {
    let kxp = build_kxp("id = \"x\"", b"\0asm\x01\0\0\0");
    let pkg = read_package(&kxp).unwrap();
    assert_eq!(pkg.component, b"\0asm\x01\0\0\0");
    assert_eq!(pkg.readme.as_deref(), Some("# Foo"));
    assert_eq!(pkg.package_sha256.len(), 64);
}

#[test]
fn rejects_non_wasm_component() {
    let kxp = build_kxp("id = \"x\"", b"not wasm");
    assert!(read_package(&kxp).is_err());
}

#[test]
fn rejects_path_traversal() {
    assert!(validate_entry_path("../evil").is_err());
    assert!(validate_entry_path("/etc/passwd").is_err());
    assert!(validate_entry_path("sub/../../evil").is_err());
    assert!(validate_entry_path("plugin.wasm").is_ok());
}

#[test]
fn unsigned_package_reports_unsigned() {
    let kxp = build_kxp("id = \"x\"", b"\0asm\x01\0\0\0");
    let pkg = read_package(&kxp).unwrap();
    assert_eq!(
        verify_signature(&pkg, &vec![]).unwrap(),
        SignatureStatus::Unsigned
    );
}

#[test]
fn refused_packages_say_why() {
    let mut builder = tar::Builder::new(Vec::new());
    append(&mut builder, "plugin.toml", b"id = \"x\"");
    let e = read_package(&builder.into_inner().unwrap()).unwrap_err();
    assert_eq!(e.message(), "package is missing plugin.wasm");
    let mut builder = tar::Builder::new(Vec::new());
    append(&mut builder, "plugin.wasm", b"\0asm\x01\0\0\0");
    let e = read_package(&builder.into_inner().unwrap()).unwrap_err();
    assert_eq!(e.message(), "package is missing plugin.toml");
    let e = read_package(&build_kxp("id", b"not wasm")).unwrap_err();
    assert_eq!(e.message(), "plugin.wasm is not a WebAssembly module (bad magic)");
    assert_eq!(
        validate_entry_path("a/../b").unwrap_err().message(),
        "archive entry 'a/../b' contains a '..' traversal"
    );
    assert_eq!(validate_entry_path("").unwrap_err().message(), "empty archive entry path");
}

/// The header of a GNU sparse file.
fn sparse(name: &str, size: u64, real_size: u64, extended: bool) -> tar::Header {
    let mut header = tar::Header::new_gnu();
    header.set_path(name).unwrap();
    header.set_mode(0o644);
    header.set_entry_type(tar::EntryType::GNUSparse);
    header.set_size(size);
    let gnu = header.as_gnu_mut().unwrap();
    gnu.set_is_extended(extended);
    gnu.set_real_size(real_size);
    if real_size > 0 {
        gnu.sparse[0].set_offset(real_size);
        gnu.sparse[0].set_length(0);
    }
    header.set_cksum();
    header
}

fn with_entry(header: &tar::Header, data: &[u8]) -> Vec<u8> {
    let mut builder = tar::Builder::new(Vec::new());
    append(&mut builder, "plugin.toml", b"id = \"x\"");
    append(&mut builder, "plugin.wasm", b"\0asm\x01\0\0\0");
    builder.append(header, data).unwrap();
    builder.into_inner().unwrap()
}

#[test]
fn sizes_that_cannot_be_counted_from_are_refused() {
    for size in [u64::MAX - 1023, u64::MAX - 511, 1 << 34] {
        let kxp = with_entry(&sparse("notes", size, 0, true), &[0u8; 512]);
        assert!(!may_walk(&kxp));
        let e = read_package(&kxp).unwrap_err();
        assert_eq!(e.message(), "reading .kxp entry: size overflow");
        assert_eq!(begin_install(&kxp, None).unwrap_err().message(), e.message());
    }
    let kxp = with_entry(&sparse("notes", 0, 0, true), &[0u8; 512]);
    assert!(may_walk(&kxp));
    assert!(read_package(&kxp).is_ok());
}

#[test]
fn sizes_in_extended_headers_count_too() {
    for record in ["29 size=18446744073709550592\n", "30 size=+18446744073709550592\n"] {
        let mut builder = tar::Builder::new(Vec::new());
        let mut header = tar::Header::new_gnu();
        header.set_entry_type(tar::EntryType::XHeader);
        header.set_size(record.len() as u64);
        header.set_cksum();
        builder.append(&header, record.as_bytes()).unwrap();
        append(&mut builder, "plugin.toml", b"id");
        assert!(may_walk(builder.get_ref()));
        builder.append(&sparse("notes", 0, 0, true), &[0u8; 512][..]).unwrap();
        let kxp = builder.into_inner().unwrap();
        assert!(!may_walk(&kxp));
        assert!(read_package(&kxp).is_err());
    }
}

#[test]
fn texts_are_read_up_to_their_limit() {
    let kxp = with_entry(&sparse("README.md", 0, 2_097_152, false), b"");
    assert_eq!(read_package(&kxp).unwrap().readme.unwrap().len(), 2_097_152);
    for size in [2_097_153, 1 << 40] {
        let kxp = with_entry(&sparse("LICENSE", 0, size, false), b"");
        let e = read_package(&kxp).unwrap_err();
        assert_eq!(e.message(), "archive entry exceeds 2097152 bytes");
    }
}

#[test]
fn a_plugin_is_summed_up() {
    let row = |manifest| PluginRow {
        id: "x".to_string(),
        version: "1".to_string(),
        plugin_api_major: 1,
        package_sha256: "ab".to_string(),
        signature: "unsigned".to_string(),
        status: "enabled".to_string(),
        manifest,
    };
    let s = manifest_summary(&row(Some(manifest())));
    assert_eq!((s.id.as_str(), s.version.as_str(), s.plugin_api_major), ("x", "1", 1));
    assert_eq!((s.sha256.as_str(), s.signature.as_str()), ("ab", "unsigned"));
    assert_eq!(s.status, "enabled");
    assert_eq!(s.provides.len(), 2);
    assert_eq!(s.permissions.network_hosts, vec!["a.example"]);
    assert!(s.permissions.credential_read);
    assert_eq!(s.limits.memory, Some(1 << 20));
    let s = manifest_summary(&row(None));
    assert!(s.provides.is_empty() && s.permissions.credential_scopes.is_empty());
    assert!(!s.permissions.credential_read);
    assert_eq!(s.limits, Limits::default());
}

#[test]
fn signatures_of_unknown_keys_are_untrusted() {
    let kxp = build_signed("id = \"x\"", b"\0asm\x01\0\0\0", &[1u8; 64]);
    let pkg = read_package(&kxp).unwrap();
    assert_eq!(verify_signature(&pkg, &vec![[2u8; 32]]).unwrap(), SignatureStatus::Untrusted);
    assert!(matches!(
        check_signature(&pkg, &vec![], false),
        Err(InstallError::UntrustedSignature)
    ));
    assert_eq!(check_signature(&pkg, &vec![], true).unwrap(), SignatureStatus::Untrusted);
    let kxp = build_signed("id = \"x\"", b"\0asm\x01\0\0\0", b"short");
    let pkg = read_package(&kxp).unwrap();
    assert!(check_signature(&pkg, &vec![], true).is_err());
}

#[test]
fn a_trusted_key_verifies_its_signature() {
    let wasm = b"\0asm\x01\0\0\0";
    let toml = "id = \"x\"";
    let key = SigningKey::from_bytes(&[7u8; 32]);
    let mut hasher = Sha256::new();
    hasher.update(wasm);
    hasher.update(toml.as_bytes());
    let digest = hasher.finalize();
    let sig = key.sign(&digest);
    let pkg = read_package(&build_signed(toml, wasm, &sig.to_bytes())).unwrap();
    let trusted = vec![key.verifying_key().to_bytes()];
    assert_eq!(verify_signature(&pkg, &trusted).unwrap(), SignatureStatus::Verified);
    let pkg = read_package(&build_signed("id = \"y\"", wasm, &sig.to_bytes())).unwrap();
    assert_eq!(verify_signature(&pkg, &trusted).unwrap(), SignatureStatus::Untrusted);
}

#[test]
fn the_announced_hash_must_match() {
    let kxp = build_kxp("id = \"x\"", b"\0asm\x01\0\0\0");
    let hash = sha256_hex(&kxp);
    assert!(begin_install(&kxp, None).is_ok());
    assert!(begin_install(&kxp, Some(&hash.to_uppercase())).is_ok());
    let e = begin_install(&kxp, Some("00")).unwrap_err();
    assert_eq!(
        e.message(),
        format!("package hash mismatch: expected 00, computed {hash}")
    );
    assert_eq!(
        sha256_hex(b""),
        "e3b0c44298fc1c149afbf4c8996fb92427ae41e4649b934ca495991b7852b855"
    );
}

#[test]
fn an_installation_is_reported_with_what_it_provides() {
    let out = finish_install(&manifest(), SignatureStatus::Unsigned);
    assert_eq!(out.id, "x");
    assert_eq!(out.version, "1");
    assert_eq!(out.signature.as_str(), "unsigned");
    assert_eq!(out.provides.len(), 2);
    assert_eq!(out.provides[0].name, "m");
}

#[test]
fn the_circuit_opens_at_the_fifth_fault() {
    let mut b = Breaker::new();
    for _ in 0..4 {
        b.record_fault(1000);
        assert_eq!(b.circuit(1000), CircuitState::Closed);
    }
    b.record_fault(1000);
    assert_eq!(b.circuit(1059), CircuitState::Open);
    assert_eq!(b.circuit(1060), CircuitState::HalfOpen);
    b.clear();
    assert_eq!(b.circuit(1000), CircuitState::Closed);
}

#[test]
fn a_cancelled_call_is_no_fault() {
    let mut c = PluginCounters::new();
    c.bump_invocation();
    let (r, step) = c.settle_cancellable(true, Err::<(), _>(PluginFault::Timeout), true);
    assert!(matches!(r, Err(PluginFault::Cancelled)));
    assert_eq!(step, BreakerStep::Keep);
    assert_eq!((c.faults, c.timeouts, c.cancellations), (0, 0, 1));
    let (_, step) = c.settle_cancellable(false, Err::<(), _>(PluginFault::Timeout), true);
    assert_eq!(step, BreakerStep::Count);
    assert_eq!((c.faults, c.timeouts, c.cancellations), (1, 1, 1));
    let (r, step) = c.settle(Ok(5), true);
    assert!(matches!(r, Ok(5)));
    assert_eq!(step, BreakerStep::Clear);
    assert_eq!(c.invocations, 1);
}

#[test]
fn runtime_errors_are_told_apart_by_their_text() {
    assert!(matches!(map_call_error("wasm trap: interrupt"), PluginFault::Timeout));
    assert!(matches!(map_call_error("epoch deadline"), PluginFault::Timeout));
    assert!(matches!(map_call_error("unreachable"), PluginFault::Trap(m) if m == "unreachable"));
}

#[test]
fn only_enabled_plugins_with_a_closed_circuit_are_usable() {
    assert!(is_usable(Some(true), None));
    assert!(is_usable(Some(true), Some(CircuitState::HalfOpen)));
    assert!(!is_usable(Some(true), Some(CircuitState::Open)));
    assert!(!is_usable(Some(false), None));
    assert!(!is_usable(None, None));
}

fn entry(usable: bool) -> PluginEntry {
    PluginEntry { id: "x".to_string(), manifest: Some(manifest()), usable }
}

#[test]
fn bindings_fail_closed() {
    let r = PluginRef::parse("plugin:x/m").unwrap();
    assert_eq!((r.plugin_id.as_str(), r.capability.as_str()), ("x", "m"));
    assert!(PluginRef::parse("plugin:x/").is_none());
    assert!(PluginRef::parse("x/m").is_none());
    let known = vec![entry(true)];
    assert_eq!(
        resolve_binding("plugin:x/m", Capability::ModelSource, &known).as_deref(),
        Some("x")
    );
    assert!(resolve_binding("plugin:x/m", Capability::HealthProbe, &known).is_none());
    assert!(resolve_binding("plugin:x/m", Capability::ModelSource, &vec![entry(false)]).is_none());
}

#[test]
fn hooks_run_for_usable_plugins_only() {
    let rows = vec![entry(true), entry(false)];
    assert_eq!(plugins_with_hook(&rows, "on_usage_finalized"), vec!["x"]);
    assert!(plugins_with_hook(&rows, "on_request_normalized").is_empty());
}

#[test]
fn standing_decides_calls_and_enabling() {
    let s = |enabled, readable, compatible| {
        Some(PluginStanding {
            enabled,
            manifest_readable: readable,
            api_compatible: compatible,
        })
    };
    assert_eq!(check_ready("x", &None).unwrap_err(), "plugin 'x' is not installed");
    assert_eq!(
        check_ready("x", &s(false, true, true)).unwrap_err(),
        "plugin 'x' is not enabled"
    );
    assert_eq!(
        check_ready("x", &s(true, false, true)).unwrap_err(),
        "plugin 'x' has an unreadable manifest"
    );
    assert!(check_ready("x", &s(true, true, false)).is_ok());
    assert!(check_enable("x", &s(false, true, true)).is_ok());
    assert_eq!(
        check_enable("x", &s(false, true, false)).unwrap_err(),
        "plugin 'x' is not API-compatible with this host"
    );
}

#[test]
fn a_call_gets_what_the_manifest_asks_for() {
    let limits = CallLimits { storage: 10, max_outbound_requests: 2, max_http_body: 30 };
    let m = manifest();
    let c = host_context("x", Some(&m), limits, false);
    assert_eq!(c.network_hosts, vec!["a.example"]);
    assert!(c.credential_read && c.credential_sign && c.routing_facts_pure);
    assert_eq!(c.outbound_count, 0);
    let c = host_context("x", None, limits, true);
    assert!(c.network_hosts.is_empty() && !c.credential_read && !c.credential_sign);
    assert!(c.adapter_stream);
}

#[test]
fn cached_facts_are_read_from_their_envelopes() {
    let e = |k: &str, v: &str| StoreEntry { key: k.to_string(), value: v.as_bytes().to_vec() };
    let facts = cached_facts(
        &vec![
            e("cache:load", "{\"value\":3,\"observed_at\":\"t\",\"max_age_ms\":500}"),
            e("cache:broken", "{"),
            e("other", "{}"),
        ],
        "cache:",
    );
    assert_eq!(facts.len(), 2);
    assert_eq!(facts[0].name, "load");
    assert!(matches!(facts[0].value, Node::PosInt(3)));
    assert_eq!(facts[0].observed_at.as_deref(), Some("t"));
    assert_eq!(facts[0].max_age_ms, Some(500));
    assert_eq!(facts[1].name, "other");
    assert!(matches!(facts[1].value, Node::Null));
}
