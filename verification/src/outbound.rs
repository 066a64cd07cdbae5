//! Where requests may be sent to: the endpoints that an administrator enters,
//! the addresses that a host resolves to, and the hosts that a credential may
//! travel to.

use crate::net::{blocked, blocked_name, is_blocked_host, is_blocked_ip, IpAddr};
use crate::text::{
    chars_of, lower_of, same, split, split_of, text2, text3, text_range, to_ascii_lowercase, trim,
    trim_of, views,
};
use crate::types::text_in;
use vstd::prelude::*;

verus! {

/// The parts of a URL that decide where it leads.
#[derive(Debug)]
pub struct UrlParts {
    pub scheme: String,
    pub host: Option<String>,
    /// The port, or the well-known one of the scheme.
    pub port: Option<u16>,
}

/// What `UrlParts` hold.
pub struct UrlModel {
    pub scheme: Seq<char>,
    pub host: Option<Seq<char>>,
    pub port: Option<u16>,
}

impl View for UrlParts {
    type V = UrlModel;

    open spec fn view(&self) -> UrlModel {
        UrlModel { scheme: self.scheme@, host: text_in(self.host), port: self.port }
    }
}

/// The parts of a URL, or why a text is none.
pub open spec fn url_view(r: Result<UrlParts, String>) -> Result<UrlModel, Seq<char>> {
    match r {
        Ok(p) => Ok(p@),
        Err(e) => Err(e@),
    }
}

/// The parts of a URL, or why a text is none.
pub uninterp spec fn url_parts(text: Seq<char>) -> Result<UrlModel, Seq<char>>;

/// `Url::parse`, and of the URL its `scheme`, `host_str` and
/// `port_or_known_default`; of the error its text. They depend on the text alone.
#[verifier::external_body]
pub(crate) fn parse_url(text: &str) -> (r: Result<UrlParts, String>)
    ensures
        url_view(r) == url_parts(text@),
{
    match url::Url::parse(text) {
        Ok(u) => Ok(
            UrlParts {
                scheme: u.scheme().to_owned(),
                host: u.host_str().map(|h| h.to_owned()),
                port: u.port_or_known_default(),
            },
        ),
        Err(e) => Err(e.to_string()),
    }
}

/// What outbound requests are allowed to do beyond the default.
#[derive(Debug, Clone, Copy, PartialEq, Eq, Structural)]
pub struct OutboundPolicy {
    /// Private addresses may be reached.
    pub allow_private: bool,
    /// Requests may go without TLS.
    pub allow_insecure_tls: bool,
}

/// A host without the brackets of an IPv6 literal.
pub open spec fn bare_host(host: Seq<char>) -> Seq<char> {
    if host.len() >= 2 && host[0] == '[' && host.last() == ']' {
        host.subrange(1, host.len() - 1)
    } else {
        host
    }
}

fn strip_brackets(host: &str) -> (r: String)
    ensures
        r@ == bare_host(host@),
{
    let chars = chars_of(host);
    let n: usize = chars.len();
    if n >= 2 && chars[0] == '[' && chars[n - 1] == ']' {
        text_range(&chars, 1, n - 1)
    } else {
        host.to_owned()
    }
}

/// Whether a host of a URL is a local or internal destination.
pub open spec fn leads_inside(host: Seq<char>) -> bool {
    blocked_name(lower_of(trim_of(bare_host(host))))
}

/// What is wrong with an endpoint.
pub open spec fn outbound_fault(parts: Result<UrlModel, Seq<char>>, policy: OutboundPolicy) -> Option<
    Seq<char>,
> {
    match parts {
        Err(e) => Some("invalid URL: "@ + e),
        Ok(p) => match p.host {
            None => Some("URL must have a host"@),
            Some(host) => if p.scheme != "https"@ && !policy.allow_insecure_tls {
                Some(
                    "endpoint must use https (set KINETIX_ALLOW_INSECURE_TLS=true to override for local development)"@,
                )
            } else if leads_inside(host) && !policy.allow_private {
                Some(
                    "host '"@ + host
                        + "' resolves to a blocked private/metadata range; set KINETIX_ALLOW_PRIVATE_UPSTREAMS=true to allow"@,
                )
            } else {
                None
            },
        },
    }
}

/// Judges an endpoint by its parts. The error says what is wrong.
pub fn check_endpoint(parts: &Result<UrlParts, String>, policy: OutboundPolicy) -> (r: Result<
    (),
    String,
>)
    ensures
        match outbound_fault(url_view(*parts), policy) {
            Some(e) => r matches Err(got) && got@ == e,
            None => r is Ok,
        },
{
    let p = match parts {
        Ok(p) => p,
        Err(e) => {
            return Err(text2("invalid URL: ", e.as_str()));
        },
    };
    let host = match &p.host {
        Some(h) => h,
        None => {
            return Err("URL must have a host".to_owned());
        },
    };
    if !same(p.scheme.as_str(), "https") && !policy.allow_insecure_tls {
        return Err(
            "endpoint must use https (set KINETIX_ALLOW_INSECURE_TLS=true to override for local development)".to_owned(),
        );
    }
    if is_blocked_host(strip_brackets(host.as_str()).as_str()) && !policy.allow_private {
        return Err(
            text3(
                "host '",
                host.as_str(),
                "' resolves to a blocked private/metadata range; set KINETIX_ALLOW_PRIVATE_UPSTREAMS=true to allow",
            ),
        );
    }
    Ok(())
}

/// Validates an endpoint that an administrator entered: it is a URL with a host,
/// it uses TLS, and the host is no local or internal destination; the policy
/// can lift the last two.
pub fn validate_outbound_url(url: &str, policy: OutboundPolicy) -> (r: Result<(), String>)
    ensures
        match outbound_fault(url_parts(url@), policy) {
            Some(e) => r matches Err(got) && got@ == e,
            None => r is Ok,
        },
{
    let parts = parse_url(url);
    check_endpoint(&parts, policy)
}

/// An accepted endpoint leads inside only by an explicit opt-in, and goes
/// without TLS only by another one.
pub proof fn law_endpoints_are_safe_by_default(p: UrlModel, policy: OutboundPolicy)
    requires
        outbound_fault(Ok::<UrlModel, Seq<char>>(p), policy) is None,
    ensures
        p.host is Some,
        !policy.allow_private ==> !leads_inside(p.host->0),
        !policy.allow_insecure_tls ==> p.scheme == "https"@,
{
}

/// Whether an address is among those that a host resolved to and may not be
/// reached.
pub open spec fn some_blocked(addrs: Seq<IpAddr>) -> bool {
    exists|i: int| 0 <= i < addrs.len() && blocked(#[trigger] addrs[i])
}

/// The check before a connection is made: none of the addresses that the host
/// resolves to now is blocked, unless private addresses are allowed.
pub fn check_resolved(addrs: &Vec<IpAddr>, policy: OutboundPolicy) -> (r: bool)
    ensures
        r == (policy.allow_private || !some_blocked(addrs@)),
{
    if policy.allow_private {
        return true;
    }
    let mut i: usize = 0;
    while i < addrs.len()
        invariant
            i <= addrs@.len(),
            !policy.allow_private,
            forall|k: int| 0 <= k < i ==> !blocked(#[trigger] addrs@[k]),
        decreases addrs@.len() - i,
    {
        if is_blocked_ip(addrs[i]) {
            return false;
        }
        i = i + 1;
    }
    true
}

/// Whether a name is in a list, the case of letters and white space around the
/// entries aside.
pub open spec fn names_host(entries: Seq<Seq<char>>, host: Seq<char>) -> bool {
    exists|i: int| 0 <= i < entries.len() && lower_of(trim_of(#[trigger] entries[i])) == lower_of(host)
}

fn is_authorized(host: &str, credential_hosts: &str) -> (r: bool)
    ensures
        r == names_host(split_of(credential_hosts@, ','), host@),
{
    let name = to_ascii_lowercase(host);
    let entries = split(credential_hosts, ',');
    let ghost shown = split_of(credential_hosts@, ',');
    let mut i: usize = 0;
    while i < entries.len()
        invariant
            i <= entries@.len(),
            views(entries@) == shown,
            name@ == lower_of(host@),
            shown == split_of(credential_hosts@, ','),
            forall|k: int| 0 <= k < i ==> lower_of(trim_of(#[trigger] shown[k])) != lower_of(host@),
        decreases entries@.len() - i,
    {
        assert(shown[i as int] == entries@[i as int]@);
        let trimmed = trim(entries[i].as_str());
        let entry = to_ascii_lowercase(trimmed.as_str());
        if same(entry.as_str(), name.as_str()) {
            return true;
        }
        i = i + 1;
    }
    false
}

/// Whether a credential may be sent to a host: it is the host of the provider's
/// endpoint, or one of the further authorized hosts, a list with commas.
pub fn credential_may_go_to(host: &str, base_host: &str, credential_hosts: &str) -> (r: bool)
    ensures
        r == (lower_of(host@) == lower_of(base_host@) || names_host(
            split_of(credential_hosts@, ','),
            host@,
        )),
{
    let name = to_ascii_lowercase(host);
    let base = to_ascii_lowercase(base_host);
    same(name.as_str(), base.as_str()) || is_authorized(host, credential_hosts)
}

/// The host of a URL; a text that is none has none.
pub open spec fn host_in(parts: Result<UrlModel, Seq<char>>) -> Option<Seq<char>> {
    match parts {
        Ok(u) => u.host,
        Err(_) => None,
    }
}

/// Whether a credential may go with a request to a URL: the URL has a host, which
/// is that of the provider's endpoint or one of the further authorized hosts.
pub fn credential_may_go_with(url: &str, base_url: &str, credential_hosts: &str) -> (r: bool)
    ensures
        r == match host_in(url_parts(url@)) {
            Some(host) => (host_in(url_parts(base_url@)) matches Some(base) && lower_of(host)
                == lower_of(base)) || names_host(split_of(credential_hosts@, ','), host),
            None => false,
        },
{
    let host = match parse_url(url) {
        Ok(u) => match u.host {
            Some(h) => h,
            None => {
                return false;
            },
        },
        Err(_) => {
            return false;
        },
    };
    let base = match parse_url(base_url) {
        Ok(u) => u.host,
        Err(_) => None,
    };
    match base {
        Some(b) => credential_may_go_to(host.as_str(), b.as_str(), credential_hosts),
        None => is_authorized(host.as_str(), credential_hosts),
    }
}

/// The host and the port that a URL leads to; without a port that of its scheme,
/// and where that is not known that of HTTPS.
pub fn destination(url: &str) -> (r: Option<(String, u16)>)
    ensures
        match url_parts(url@) {
            Ok(u) => match u.host {
                Some(h) => r matches Some(d) && d.0@ == h && d.1 == (match u.port {
                    Some(p) => p,
                    None => 443,
                }),
                None => r is None,
            },
            Err(_) => r is None,
        },
{
    match parse_url(url) {
        Ok(u) => match u.host {
            Some(h) => match u.port {
                Some(p) => Some((h, p)),
                None => Some((h, 443)),
            },
            None => None,
        },
        Err(_) => None,
    }
}

/// An endpoint is refused exactly where it is no address, has no host, is not
/// encrypted without leave, or leads inside without leave; leave only ever
/// permits more.
pub proof fn law_endpoints_are_refused_for_cause(
    parts: Result<UrlModel, Seq<char>>,
    policy: OutboundPolicy,
)
    ensures
        parts is Err ==> outbound_fault(parts, policy) is Some,
        parts matches Ok(p) ==> {
            &&& p.host is None ==> outbound_fault(parts, policy) is Some
            &&& p.host matches Some(h) ==> (outbound_fault(parts, policy) is None <==> (p.scheme
                == "https"@ || policy.allow_insecure_tls) && (!leads_inside(h)
                || policy.allow_private))
        },
        outbound_fault(parts, policy) is None ==> outbound_fault(
            parts,
            OutboundPolicy { allow_private: true, ..policy },
        ) is None && outbound_fault(
            parts,
            OutboundPolicy { allow_insecure_tls: true, ..policy },
        ) is None,
{
}

/// A host leads inside whatever its case, with brackets or without, and with space
/// around it or not.
pub proof fn law_hosts_are_judged_bare(host: Seq<char>)
    ensures
        bare_host(seq!['['] + host + seq![']']) == host,
        host.len() == 0 || host[0] != '[' || host.last() != ']' ==> bare_host(host) == host,
        host.len() == 0 || host[0] != '[' ==> (leads_inside(seq!['['] + host + seq![']'])
            <==> leads_inside(host)),
        host.len() == 0 || host[0] != '[' ==> (leads_inside(host) <==> blocked_name(
            lower_of(trim_of(host)),
        )),
{
    let s = seq!['['] + host + seq![']'];
    assert(s.subrange(1, s.len() - 1) =~= host);
}

/// One blocked address among those that a name leads to is enough, and further
/// addresses cannot make up for it.
pub proof fn law_one_blocked_address_is_enough(addrs: Seq<IpAddr>, i: int, more: Seq<IpAddr>)
    ensures
        0 <= i < addrs.len() && blocked(addrs[i]) ==> some_blocked(addrs),
        some_blocked(addrs) ==> some_blocked(addrs + more),
        (forall|k: int| 0 <= k < addrs.len() ==> !blocked(#[trigger] addrs[k])) ==> !some_blocked(
            addrs,
        ),
{
    if some_blocked(addrs) {
        let k = choose|k: int| 0 <= k < addrs.len() && blocked(#[trigger] addrs[k]);
        assert((addrs + more)[k] == addrs[k]);
    }
}

/// A list of hosts names a host by its letters, in any case and with space around
/// them, and names no other.
pub proof fn law_hosts_are_named_in_any_case(entries: Seq<Seq<char>>, i: int, host: Seq<char>)
    ensures
        0 <= i < entries.len() && lower_of(trim_of(entries[i])) == lower_of(host) ==> names_host(
            entries,
            host,
        ),
        (forall|k: int|
            0 <= k < entries.len() ==> lower_of(trim_of(#[trigger] entries[k])) != lower_of(host))
            ==> !names_host(entries, host),
        names_host(entries, host) == names_host(entries, lower_of(host)),
{
    assert(lower_of(lower_of(host)) =~= lower_of(host));
}

} // verus!
