//! Encryption, keys, redaction, addresses and limits per address.

use base64::engine::general_purpose::URL_SAFE_NO_PAD;
use base64::Engine;
use kinetix::auth::{
    access_query, authenticate_virtual_key, authorize_admin, extract_virtual_key, judge_access,
    session_token, validate_cf_access, verify_admin_password, verify_session, AccessCheck,
    SESSION_COOKIE,
};
use kinetix::crypto::{
    constant_time_eq, generate_virtual_key, hash_virtual_key, mask_secret, read_opened, redact,
    Crypto, CryptoError,
};
use kinetix::ids::{new_id, new_request_id};
use kinetix::ingress::{check_client_ip, client_ip};
use kinetix::net::{is_blocked_host, is_blocked_ip, parse_ip, IpAddr};
use kinetix::outbound::{
    check_endpoint, check_resolved, credential_may_go_to, credential_may_go_with, destination,
    validate_outbound_url, OutboundPolicy, UrlParts,
};
use kinetix::ratelimit::IpLimiter;
use kinetix::types::{ErrorKind, VirtualKeyRow};

fn ip(s: &str) -> IpAddr {
    parse_ip(s).unwrap()
}

fn key_row(key: &str) -> VirtualKeyRow {
    VirtualKeyRow {
        id: "key_1".to_string(),
        key_hash: hash_virtual_key(key),
        name: "n".to_string(),
        owner: "o".to_string(),
        tag: "".to_string(),
        allowed_models: "[\"*\"]".to_string(),
        allowed_providers: "[]".to_string(),
        rpm_limit: None,
        tpm_limit: None,
        daily_budget: None,
        monthly_budget: None,
        expires_at: None,
        status: "active".to_string(),
        allowed_ips: "[]".to_string(),
        body_logging: 0,
        created_at: "2026-01-01T00:00:00Z".to_string(),
        revoked_at: None,
    }
}

#[test]
fn roundtrip_encryption() {
    let c = Crypto::new(&[7u8; 32]);
    let ct = c.encrypt("AIzaSy-super-secret").unwrap();
    assert_ne!(ct, "AIzaSy-super-secret");
    assert_eq!(c.decrypt(&ct).unwrap(), "AIzaSy-super-secret");
}

#[test]
fn redacts_prefixes() {
    let out = redact("key=AIzaSyABCDEFGHIJKLMNOP");
    assert!(out.contains("[REDACTED]"));
}

#[test]
fn two_encryptions_of_one_text_differ() {
    let c = Crypto::new(&[7u8; 32]);
    assert_ne!(c.encrypt("s").unwrap(), c.encrypt("s").unwrap());
}

#[test]
fn ciphertexts_that_are_refused() {
    let c = Crypto::new(&[7u8; 32]);
    assert!(matches!(c.decrypt("%%%"), Err(CryptoError::InvalidEncoding(_))));
    assert!(matches!(c.decrypt("AAAA"), Err(CryptoError::TooShort)));
    let ct = c.encrypt("secret").unwrap();
    let other = Crypto::new(&[8u8; 32]);
    let e = other.decrypt(&ct).unwrap_err();
    assert!(matches!(e, CryptoError::DecryptionFailed));
    assert_eq!(e.message(), "decryption failed (wrong master key?)");
    let e = read_opened(vec![0u8; 40], Some(vec![0xff])).unwrap_err();
    assert!(matches!(e, CryptoError::NotUtf8(_)));
}

#[test]
fn redaction_is_final_and_keeps_the_rest() {
    let once = redact("Bearer abc sk-1234567890abcdef end");
    assert_eq!(redact(&once), once);
    assert!(once.ends_with(" end"));
    assert_eq!(redact("nothing secret here"), "nothing secret here");
}

#[test]
fn virtual_keys_are_hashed() {
    let k = generate_virtual_key();
    assert!(k.starts_with("sk-kinetix-"));
    assert_eq!(k.len(), "sk-kinetix-".len() + 48);
    assert_ne!(k, generate_virtual_key());
    assert_eq!(
        hash_virtual_key("abc"),
        "ba7816bf8f01cfea414140de5dae2223b00361a396177a9cb410ff61f20015ad"
    );
    assert!(constant_time_eq("abc", "abc"));
    assert!(!constant_time_eq("abc", "abd"));
    assert!(!constant_time_eq("abc", "ab"));
}

#[test]
fn masks_show_little() {
    let m = mask_secret("AIzaSyABCDEFGHIJKLMNOP");
    assert!(!m.contains("ABCDEFGH"));
    assert_ne!(m, "AIzaSyABCDEFGHIJKLMNOP");
}

#[test]
fn ids_have_their_prefixes() {
    let a = new_id("acct_");
    assert!(a.starts_with("acct_") && a.len() == 37);
    assert_ne!(a, new_id("acct_"));
    assert!(new_request_id().starts_with("req_"));
}

#[test]
fn blocks_private_and_reserved_ranges() {
    for s in [
        "127.0.0.1",
        "10.0.0.1",
        "172.16.0.1",
        "192.168.1.1",
        "169.254.1.1",
        "0.0.0.0",
        "255.255.255.255",
        "224.0.0.1",
        "100.64.0.1",
        "198.18.0.1",
    ] {
        assert!(is_blocked_ip(ip(s)), "{s} should be blocked");
    }
    for s in [
        "::1",
        "::",
        "ff02::1",
        "fd00::1",
        "fe80::1",
        "::ffff:127.0.0.1",
        "::ffff:10.0.0.1",
    ] {
        assert!(is_blocked_ip(ip(s)), "{s} should be blocked");
    }
}

#[test]
fn allows_public_ranges() {
    for s in ["8.8.8.8", "1.1.1.1", "93.184.216.34"] {
        assert!(!is_blocked_ip(ip(s)), "{s} should be allowed");
    }
    for s in ["2606:4700:4700::1111", "::ffff:8.8.8.8"] {
        assert!(!is_blocked_ip(ip(s)), "{s} should be allowed");
    }
}

#[test]
fn blocks_local_names_and_literals() {
    assert!(is_blocked_host("localhost"));
    assert!(is_blocked_host("db.internal"));
    assert!(is_blocked_host("metadata.google.internal"));
    assert!(is_blocked_host("127.0.0.1"));
    assert!(!is_blocked_host("api.example.com"));
    assert!(!is_blocked_host("8.8.8.8"));
}

#[test]
fn addresses_and_what_is_none() {
    assert!(matches!(parse_ip("1.2.3.4"), Some(IpAddr::V4(1, 2, 3, 4))));
    for (s, segments) in [
        ("::", [0u16; 8]),
        ("::1", [0, 0, 0, 0, 0, 0, 0, 1]),
        ("1::", [1, 0, 0, 0, 0, 0, 0, 0]),
        ("1:2:3:4:5:6:7:8", [1, 2, 3, 4, 5, 6, 7, 8]),
        ("::1.2.3.4", [0, 0, 0, 0, 0, 0, 0x102, 0x304]),
        ("1:2:3:4:5:6:1.2.3.4", [1, 2, 3, 4, 5, 6, 0x102, 0x304]),
        ("ABCD::abcd", [0xabcd, 0, 0, 0, 0, 0, 0, 0xabcd]),
        ("1:2:3:4:5:6:7::", [1, 2, 3, 4, 5, 6, 7, 0]),
        ("::2:3:4:5:6:7:8", [0, 2, 3, 4, 5, 6, 7, 8]),
    ] {
        match parse_ip(s) {
            Some(IpAddr::V6(got)) => assert_eq!(got, segments, "{s}"),
            _ => panic!("{s}"),
        }
    }
    for s in [
        "01.2.3.4", "1.2.3", "1.2.3.4.5", "256.1.1.1", "1:2:3:4:5:6:7", "1::2::3", "12345::", "g::", "", ":",
        "fe80::1%eth0", " 1.2.3.4", "1.2.3.4 ",
    ] {
        assert!(parse_ip(s).is_none(), "{s}");
    }
}

#[test]
fn allows_up_to_the_limit_then_rejects() {
    let mut l = IpLimiter::new(3);
    for _ in 0..3 {
        assert!(l.check(Some(ip("1.2.3.4"))).is_ok());
    }
    let err = l.check(Some(ip("1.2.3.4"))).unwrap_err();
    assert!(err >= 1 && err <= 60);
    assert!(l.check(Some(ip("5.6.7.8"))).is_ok());
    assert_eq!(l.limited_total(), 1);
}

#[test]
fn disabled_when_limit_is_zero_and_fails_open_without_ip() {
    assert!(IpLimiter::new(0).check(Some(ip("1.2.3.4"))).is_ok());
    let mut l = IpLimiter::new(1);
    assert!(l.check(None).is_ok());
}

#[test]
fn a_window_starts_anew_after_a_minute() {
    let mut l = IpLimiter::new(1);
    let minute = 60_000_000_000u64;
    assert!(l.check_at(Some(ip("1.2.3.4")), 0).is_ok());
    assert!(l.check_at(Some(ip("1.2.3.4")), minute - 1).is_err());
    assert!(l.check_at(Some(ip("1.2.3.4")), minute).is_ok());
}

#[test]
fn endpoints_must_be_public_and_encrypted() {
    let strict = OutboundPolicy { allow_private: false, allow_insecure_tls: false };
    assert!(validate_outbound_url("https://api.example.com/v1", strict).is_ok());
    assert_eq!(
        validate_outbound_url("http://api.example.com/v1", strict).unwrap_err(),
        "endpoint must use https (set KINETIX_ALLOW_INSECURE_TLS=true to override for local development)"
    );
    for inside in ["https://localhost/", "https://10.0.0.1/", "https://[::1]/", "https://x.internal"] {
        assert!(validate_outbound_url(inside, strict).is_err(), "{inside}");
    }
    assert!(validate_outbound_url("nonsense", strict).unwrap_err().starts_with("invalid URL: "));
    assert_eq!(
        validate_outbound_url("mailto:a@b", strict).unwrap_err(),
        "URL must have a host"
    );
    let lax = OutboundPolicy { allow_private: true, allow_insecure_tls: true };
    assert!(validate_outbound_url("http://localhost:8080", lax).is_ok());
    let tls = OutboundPolicy { allow_private: true, allow_insecure_tls: false };
    assert!(validate_outbound_url("http://localhost:8080", tls).is_err());
    let parts = Ok(UrlParts {
        scheme: "https".to_string(),
        host: Some("db.internal".to_string()),
        port: None,
    });
    assert_eq!(
        check_endpoint(&parts, strict).unwrap_err(),
        "host 'db.internal' resolves to a blocked private/metadata range; set KINETIX_ALLOW_PRIVATE_UPSTREAMS=true to allow"
    );
}

#[test]
fn resolved_addresses_are_checked_again() {
    let strict = OutboundPolicy { allow_private: false, allow_insecure_tls: false };
    assert!(check_resolved(&vec![ip("8.8.8.8")], strict));
    assert!(!check_resolved(&vec![ip("8.8.8.8"), ip("127.0.0.1")], strict));
    let lax = OutboundPolicy { allow_private: true, allow_insecure_tls: false };
    assert!(check_resolved(&vec![ip("127.0.0.1")], lax));
}

#[test]
fn credentials_are_bound_to_their_hosts() {
    assert!(credential_may_go_to("API.example.com", "api.example.com", ""));
    assert!(credential_may_go_to("b.example", "a.example", "c.example, B.example"));
    assert!(!credential_may_go_to("evil.example", "a.example", "c.example"));
    assert!(credential_may_go_with("https://a.example/v1/x", "https://A.example/v1", ""));
    assert!(credential_may_go_with("https://b.example/", "no url", "b.example"));
    assert!(!credential_may_go_with("https://b.example/", "no url", ""));
    assert!(!credential_may_go_with("data:x", "data:y", ""));
    assert!(!credential_may_go_with("no url", "https://a.example", "no url"));
    assert_eq!(destination("https://a.example/x"), Some(("a.example".to_string(), 443)));
    assert_eq!(destination("http://a.example:81"), Some(("a.example".to_string(), 81)));
    assert_eq!(destination("x://a"), Some(("a".to_string(), 443)));
    assert_eq!(destination("data:x"), None);
    assert_eq!(destination("no url"), None);
}

#[test]
fn the_client_address_comes_from_the_trusted_headers() {
    assert_eq!(client_ip(Some("1.1.1.1"), Some("2.2.2.2"), None).as_deref(), Some("1.1.1.1"));
    assert_eq!(
        client_ip(None, Some(" 2.2.2.2 , 3.3.3.3"), Some("4.4.4.4")).as_deref(),
        Some("2.2.2.2")
    );
    assert_eq!(client_ip(Some(" "), None, Some("4.4.4.4")).as_deref(), Some("4.4.4.4"));
    assert_eq!(client_ip(None, None, None), None);
}

#[test]
fn allowlists_take_addresses_and_ranges() {
    let list = vec!["203.0.113.7".to_string(), " 10.0.0.0/8 ".to_string(), "2001:db8::/32".to_string()];
    assert!(check_client_ip(&list, Some("203.0.113.7")).is_ok());
    assert!(check_client_ip(&list, Some("10.200.1.1")).is_ok());
    assert!(check_client_ip(&list, Some("2001:db8:1::5")).is_ok());
    for outside in ["203.0.113.8", "11.0.0.1", "2001:db9::1", "nonsense"] {
        let e = check_client_ip(&list, Some(outside)).unwrap_err();
        assert_eq!(e.kind, ErrorKind::Forbidden);
    }
    assert!(check_client_ip(&list, None).is_err());
    assert!(check_client_ip(&vec![], None).is_ok());
    assert!(check_client_ip(&vec!["10.0.0.0/33".to_string()], Some("10.0.0.0")).is_err());
    assert!(check_client_ip(&vec!["10.0.0.0/".to_string()], Some("10.0.0.0")).is_err());
    assert!(check_client_ip(&vec!["0.0.0.0/0".to_string()], Some("9.9.9.9")).is_ok());
}

#[test]
fn keys_are_presented_in_two_ways() {
    assert_eq!(
        extract_virtual_key(Some("Bearer sk-kinetix-1"), None).as_deref(),
        Some("sk-kinetix-1")
    );
    assert_eq!(extract_virtual_key(None, Some("sk-kinetix-2")).as_deref(), Some("sk-kinetix-2"));
    assert_eq!(extract_virtual_key(None, None), None);
}

#[test]
fn only_the_key_with_the_hash_is_accepted() {
    assert_eq!(authenticate_virtual_key("k", Some(key_row("k"))).unwrap().id, "key_1");
    assert_eq!(
        authenticate_virtual_key("other", Some(key_row("k"))).unwrap_err().kind,
        ErrorKind::Unauthorized
    );
    assert_eq!(authenticate_virtual_key("k", None).unwrap_err().kind, ErrorKind::Unauthorized);
}

#[test]
fn sessions_are_derived_from_the_admin_token() {
    let key = [3u8; 32];
    let t = session_token(&key, "admin-token");
    assert_eq!(t.len(), 64);
    assert_ne!(t, "admin-token");
    assert!(verify_session(&key, "admin-token", &t));
    assert!(!verify_session(&key, "new-token", &t));
    assert!(!verify_session(&[4u8; 32], "admin-token", &t));
    assert!(verify_admin_password("admin-token", "admin-token"));
    assert!(!verify_admin_password("admin-token", "wrong"));
    assert!(SESSION_COOKIE.len() > 0);
}

#[test]
fn session_tokens_are_hmacs() {
    assert_eq!(
        session_token(&[0u8; 32], "x"),
        "f7119ff060fff4d6438aabd69acb579138fc8928d44ef2e11253cd9a7fa667f9"
    );
}

#[test]
fn admin_requests_need_a_session_or_the_token() {
    let key = [3u8; 32];
    let t = session_token(&key, "admin-token");
    let ask = |cookie, header| authorize_admin(AccessCheck::NotRequired, &key, "admin-token", cookie, header);
    assert!(ask(Some(t.as_str()), None).is_ok());
    assert!(ask(None, Some("admin-token")).is_ok());
    assert!(ask(None, Some(t.as_str())).is_ok());
    assert!(ask(Some("admin-token"), None).is_err());
    assert!(ask(None, None).is_err());
    for access in [AccessCheck::Missing, AccessCheck::Rejected("bad".to_string())] {
        assert!(authorize_admin(access, &key, "admin-token", Some(&t), None).is_err());
    }
    assert!(authorize_admin(AccessCheck::Accepted, &key, "admin-token", Some(&t), None).is_ok());
}

#[test]
fn access_assertions_that_are_refused() {
    assert!(access_query("not a token", Some("team.example")).is_err());
    let certs: serde_json::Value = serde_json::from_str("{\"keys\":[]}").unwrap();
    assert!(validate_cf_access(&certs, &Some("k".to_string()), "a.b.c", "aud").is_err());
    assert!(judge_access(Ok(())).is_ok());
    assert!(judge_access(Err("expired".to_string())).is_err());
}

#[test]
fn access_queries_name_the_keys_of_the_team() {
    // Header {"alg":"RS256","kid":"abc"}, then an empty payload and signature.
    let token = "eyJhbGciOiJSUzI1NiIsImtpZCI6ImFiYyJ9.e30.AA";
    let q = access_query(token, Some("team.example")).unwrap();
    assert_eq!(q.kid.as_deref(), Some("abc"));
    assert!(q.certs_url.contains("team.example"));
    assert!(access_query(token, None).is_err());
}

fn concat(parts: &[&str]) -> Vec<u8> {
    hex::decode(parts.concat()).unwrap()
}

fn url_text(bytes: &[u8]) -> String {
    URL_SAFE_NO_PAD.encode(bytes)
}

fn assertion(claims: &str, signature: &[u8]) -> String {
    let head = url_text(b"{\"alg\":\"RS256\",\"kid\":\"k1\"}");
    format!("{head}.{}.{}", url_text(claims.as_bytes()), url_text(signature))
}

#[test]
fn access_assertions_are_checked_against_the_key_that_they_name() {
    let modulus = concat(&[
        "b39aebc7c17d3cd199fc302059fce08456d0525dfb60a4ffc1b3de9e1815d098",
        "d82814a72589768d665ad05dd40f9b8f672f9ea967b733dbb76a8c682c44e5b4",
        "aac0b198e5e1e2146ff67b7edd3e079d58f40bf94c56ae5978aec103484bdd86",
        "aa52dd7872c38ed2b15f4a8fd4252df942e78a14c8bacb9f18df4a7c7fc59a79",
        "8c801d741f03b9941a9b08edae2dc2fe9e6ed522d83c97641fba97e8a6fbd98b",
        "83f8de3f4081e0d6075a2c5fd34d8ce04093b883f8a5f41b28f4e83c9b843d83",
        "354d049f1fe4427c63e84727d43c665c969077a1b0d7d09ef26aee457d75c397",
        "8d21882ad7e83e51c7cadefaa320ed699c007ef00ec897562d1dabe9bcea1c51",
    ]);
    let certs = format!(
        "{{\"keys\":[{{\"kid\":\"k0\"}},{{\"kid\":\"k1\",\"n\":\"{}\",\"e\":\"AQAB\"}}]}}",
        url_text(&modulus)
    );
    let certs: serde_json::Value = serde_json::from_str(&certs).unwrap();
    let signature = concat(&[
        "9eb76b80d53eb8d63d60714a99c7254ffdf1913dd212ab904e6cf1ca035902c9",
        "474adb65ee56cb47743d6ff8ebe0032cac5afe7ec5dec7edfd54d62c86b78eda",
        "3b9fc9b6fd6b78e7282643e3631c262cff0b7f13f44e9429f7684887e2185ea2",
        "e260d9ea96d95ff34c6b01568b9bb24d34c9d89ada2b0d1a658cc6eff8d2d824",
        "7560e4c0843d0133e3f5d6e917f2c6f6a27855d1125ed3d8742e41e3600655f6",
        "b04ebedff6bd55661bf6f5b3e8af025a49cf95ef95f4057f3921a21e1ae94f8a",
        "99cd979339b4b7a6cc4603fcdf417d0336363b7991ee1c7e623b8bd0f39d622c",
        "3be646318d9c24497dc04d8af07a68e9adeb507a4efed2c36cb0306ac98f2e91",
    ]);
    let claims = "{\"aud\":[\"app-1\"],\"exp\":4102444800}";
    let good = assertion(claims, &signature);
    let query = access_query(&good, Some("team.example")).unwrap();
    assert_eq!(query.certs_url, "https://team.example/cdn-cgi/access/certs");
    assert_eq!(query.kid.as_deref(), Some("k1"));
    assert_eq!(
        access_query(&good, None).unwrap_err(),
        "Cloudflare Access team domain not configured"
    );
    assert!(validate_cf_access(&certs, &query.kid, &good, "app-1").is_ok());
    assert_eq!(
        validate_cf_access(&certs, &query.kid, &good, "app-2").unwrap_err(),
        "Access token rejected: InvalidAudience"
    );
    let forged = assertion("{\"aud\":[\"app-2\"],\"exp\":4102444800}", &signature);
    assert_eq!(
        validate_cf_access(&certs, &query.kid, &forged, "app-2").unwrap_err(),
        "Access token rejected: InvalidSignature"
    );
    let old_signature = concat(&[
        "b07520eaa88fe7b164eab90327bf50fa0195b9da8fafed677dc942d077da85ed",
        "7fff0fc3376edd6bfc7891bee96f99dcabc7392c3077302972a041d5519f1300",
        "d56c60e3fe2cbafbf9cd7078c2f2a4fa7c5b8cef5b49e94c7c8e5d273b76c7dd",
        "2b8b70e9656f51b37bd9b09bb2b46e4f5cfe159fe36b9521726cb94debfe6c01",
        "6c4b1215eafdd498829dbfbc74bf25454e8ad15a1911f6aa20be0ff73f696df1",
        "e125a7d75eb1a0c7b6bfc5a0599c7f8a6125405dcea9bc0372da575bdbc95d75",
        "8e5c702ef686d460147daca48a32670b2816785e1362c3391585a8cb4c4eeb39",
        "60b459633c2065c97180cf6d5837df9870187dd65b4787e8ff11d3347e3944c0",
    ]);
    let old = assertion("{\"aud\":[\"app-1\"],\"exp\":1}", &old_signature);
    assert_eq!(
        validate_cf_access(&certs, &query.kid, &old, "app-1").unwrap_err(),
        "Access token rejected: ExpiredSignature"
    );
    let refused = |kid: Option<&str>| {
        validate_cf_access(&certs, &kid.map(|k| k.to_string()), &good, "app-1").unwrap_err()
    };
    assert_eq!(refused(None), "Access token missing kid");
    assert_eq!(refused(Some("k2")), "no matching Access key");
    assert_eq!(refused(Some("k0")), "missing n");
}

#[test]
fn one_window_allows_the_first_requests_of_each_address() {
    let second = 1_000_000_000u64;
    let mut l = IpLimiter::new(2);
    let (a, b) = (Some(ip("1.2.3.4")), Some(ip("5.6.7.8")));
    let mut refused = 0;
    for (who, at, allowed) in [
        (a, 10, true),
        (b, 11, true),
        (a, 40, true),
        (None, 41, true),
        (a, 69, false),
        (b, 12, true),
        (b, 60, false),
        (None, 61, true),
    ] {
        match l.check_at(who, at * second) {
            Ok(()) => assert!(allowed, "at {at}"),
            Err(wait) => {
                assert!(!allowed, "at {at}");
                assert!(wait >= 1 && wait <= 60);
                refused += 1;
            }
        }
        assert_eq!(l.limited_total(), refused);
    }
}
