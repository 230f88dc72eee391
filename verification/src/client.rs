//! What it takes to build a client for one resolved credential bundle.
//!
//! The host of the URL is resolved once. One of its addresses is chosen and
//! pinned: every call of the client goes to that address, so a DNS record that
//! changes later cannot lead to an internal service.

use crate::exec::build_default_headers;
use crate::safe_dns::ResolvedAddress;
use crate::text::{decimal_text, join_texts};
use crate::types::{HeaderTable, HttpBackendMethod, HttpRequestProfile};
use crate::url::{read_url, UrlParts};
use std::time::Duration;
use vstd::prelude::*;

verus! {

/// The host and port that a URL leads to.
#[derive(Debug)]
pub struct HttpTarget {
    /// The host.
    pub host: String,
    /// The port.
    pub port: u16,
}

/// The target of a URL that was read, or what is missing. The message never
/// repeats the URL, which may hold credentials.
pub open spec fn target_of(parsed: Result<crate::url::UrlModel, Seq<char>>) -> Result<
    (Seq<char>, u16),
    Seq<char>,
> {
    match parsed {
        Err(_) => Err("resolved URL failed to parse"@),
        Ok(url) => match url.host {
            None => Err("URL has no host"@),
            Some(host) => match url.port {
                None => Err("URL has no port and no default for the scheme"@),
                Some(port) => Ok((host, port)),
            },
        },
    }
}

/// The model of a target or a message.
pub open spec fn target_outcome(target: Result<HttpTarget, String>) -> Result<
    (Seq<char>, u16),
    Seq<char>,
> {
    match target {
        Ok(target) => Ok((target.host@, target.port)),
        Err(message) => Err(message@),
    }
}

/// Computes [`target_of`].
pub fn parsed_target(parsed: Result<UrlParts, String>) -> (target: Result<HttpTarget, String>)
    ensures
        target_outcome(target) == target_of(crate::url::url_outcome(parsed)),
{
    match parsed {
        Err(_) => Err("resolved URL failed to parse".to_owned()),
        Ok(parts) => match parts.host {
            None => Err("URL has no host".to_owned()),
            Some(host) => match parts.port {
                None => Err("URL has no port and no default for the scheme".to_owned()),
                Some(port) => Ok(HttpTarget { host, port }),
            },
        },
    }
}

/// The host and port that a resolved URL leads to.
pub fn http_target(resolved_url: &str) -> (target: Result<HttpTarget, String>)
    requires
        resolved_url@.len() <= crate::text::MAX_PARSED_CHARS,
    ensures
        target_outcome(target) == target_of(crate::url::parsed_url(resolved_url@)),
{
    parsed_target(read_url(resolved_url))
}

impl HttpTarget {
    /// The name that is looked up: the host, a colon and the port.
    pub open spec fn name(&self) -> Seq<char> {
        self.host@ + ":"@ + crate::text::decimal(self.port as nat)
    }

    /// Computes [`HttpTarget::name`].
    pub fn lookup_name(&self) -> (name: String)
        ensures
            name@ == self.name(),
    {
        let mut name = self.host.clone();
        name.append(":");
        name.append(decimal_text(self.port as u64).as_str());
        name
    }

    /// The message for a lookup that failed.
    pub fn lookup_failure(&self) -> (message: String)
        ensures
            message@ == "DNS resolution failed for "@ + self.name(),
    {
        let mut message = "DNS resolution failed for ".to_owned();
        message.append(self.lookup_name().as_str());
        message
    }
}

/// The texts of the addresses.
pub open spec fn ip_texts(addresses: Seq<ResolvedAddress>) -> Seq<Seq<char>> {
    addresses.map_values(|address: ResolvedAddress| address.ip@)
}

/// The place of the first address that is not private, or the number of
/// addresses where all are.
pub open spec fn first_public(addresses: Seq<ResolvedAddress>) -> int
    decreases addresses.len(),
{
    if addresses.len() == 0 || !addresses.first().is_private {
        0
    } else {
        1 + first_public(addresses.drop_first())
    }
}

/// What [`first_public`] means: all addresses before it are private, and the one
/// there is not.
pub proof fn lemma_first_public(addresses: Seq<ResolvedAddress>)
    ensures
        0 <= first_public(addresses) <= addresses.len(),
        forall|i: int|
            0 <= i < first_public(addresses) ==> (#[trigger] addresses[i]).is_private,
        first_public(addresses) < addresses.len() ==> !addresses[first_public(
            addresses,
        )].is_private,
    decreases addresses.len(),
{
    if addresses.len() > 0 && addresses.first().is_private {
        let rest = addresses.drop_first();
        lemma_first_public(rest);
        assert forall|i: int| 0 <= i < first_public(addresses) implies (
        #[trigger] addresses[i]).is_private by {
            if i > 0 {
                assert(addresses[i] == rest[i - 1]);
            }
        }
        if first_public(addresses) < addresses.len() {
            assert(addresses[first_public(addresses)] == rest[first_public(rest)]);
        }
    }
}

/// The place of the address that is pinned, or why there is none: the first
/// address where private ones are allowed, else the first that is not private.
pub open spec fn pinned_address(
    host: Seq<char>,
    addresses: Seq<ResolvedAddress>,
    allow_private: bool,
) -> Result<int, Seq<char>> {
    if addresses.len() == 0 {
        Err("DNS resolution returned no addresses for "@ + host)
    } else if allow_private {
        Ok(0)
    } else if first_public(addresses) < addresses.len() {
        Ok(first_public(addresses))
    } else {
        Err(
            "DNS rebinding guard: host '"@ + host + "' resolved only to private addresses ("@
                + crate::text::joined(ip_texts(addresses), ", "@) + ")"@,
        )
    }
}

fn only_private_message(host: &str, addresses: &Vec<ResolvedAddress>) -> (message: String)
    ensures
        message@ == "DNS rebinding guard: host '"@ + host@
            + "' resolved only to private addresses ("@ + crate::text::joined(
            ip_texts(addresses@),
            ", "@,
        ) + ")"@,
{
    let mut ips: Vec<String> = Vec::new();
    let mut i: usize = 0;
    while i < addresses.len()
        invariant
            i <= addresses@.len(),
            crate::text::texts(ips@) == ip_texts(addresses@).take(i as int),
        decreases addresses@.len() - i,
    {
        let ghost so_far = crate::text::texts(ips@);
        ips.push(addresses[i].ip.clone());
        assert(crate::text::texts(ips@) =~= so_far.push(addresses@[i as int].ip@));
        assert(ip_texts(addresses@).take(i + 1) =~= so_far.push(addresses@[i as int].ip@));
        i = i + 1;
    }
    assert(ip_texts(addresses@).take(i as int) =~= ip_texts(addresses@));
    let mut message = "DNS rebinding guard: host '".to_owned();
    message.append(host);
    message.append("' resolved only to private addresses (");
    message.append(join_texts(&ips, ", ").as_str());
    message.append(")");
    message
}

/// Computes [`pinned_address`].
pub fn select_address(
    host: &str,
    addresses: &Vec<ResolvedAddress>,
    allow_private: bool,
) -> (place: Result<usize, String>)
    ensures
        match pinned_address(host@, addresses@, allow_private) {
            Ok(at) => place matches Ok(found) && found == at && found < addresses@.len(),
            Err(message) => place matches Err(text) && text@ == message,
        },
{
    if addresses.len() == 0 {
        let mut message = "DNS resolution returned no addresses for ".to_owned();
        message.append(host);
        return Err(message);
    }
    if allow_private {
        return Ok(0);
    }
    proof {
        lemma_first_public(addresses@);
    }
    let ghost at = first_public(addresses@);
    let mut i: usize = 0;
    while i < addresses.len() && addresses[i].is_private
        invariant
            i <= addresses@.len(),
            at == first_public(addresses@),
            i <= at <= addresses@.len(),
            at < addresses@.len() ==> !addresses@[at].is_private,
        decreases addresses@.len() - i,
    {
        i = i + 1;
    }
    if i < addresses.len() {
        assert(i == at);
        Ok(i)
    } else {
        Err(only_private_message(host, addresses))
    }
}

/// How a client is built.
pub struct HttpClientPlan {
    /// The place of the address that the host is pinned to.
    pub pinned: usize,
    /// The headers of every call.
    pub default_headers: reqwest::header::HeaderMap,
    /// The time limit of every call.
    pub timeout: Duration,
    /// Whether redirects are followed. They never are: a redirect could lead past
    /// the pinned address.
    pub follow_redirects: bool,
}

/// Plans a client for a host that resolved to `addresses`.
pub fn plan_http_client(
    profile: &HttpRequestProfile,
    host: &str,
    addresses: &Vec<ResolvedAddress>,
    resolved_headers: &HeaderTable,
) -> (plan: Result<HttpClientPlan, String>)
    requires
        resolved_headers@.len() <= crate::headers::MAX_NAMES_BEFORE_INSERT + 1,
    ensures
        match pinned_address(host@, addresses@, profile.allow_private_backends) {
            Err(message) => plan matches Err(text) && text@ == message,
            Ok(place) => match crate::exec::default_contents(
                resolved_headers@,
                profile.method is Post,
            ) {
                Err(message) => plan matches Err(text) && text@ == message,
                Ok(contents) => {
                    &&& plan matches Ok(plan)
                    &&& plan.pinned == place
                    &&& plan.pinned < addresses@.len()
                    &&& crate::headers::header_contents(plan.default_headers) == contents
                    &&& plan.timeout == profile.timeout
                    &&& !plan.follow_redirects
                },
            },
        },
{
    let pinned = match select_address(host, addresses, profile.allow_private_backends) {
        Ok(place) => place,
        Err(message) => {
            return Err(message);
        },
    };
    let is_json_call = match profile.method {
        HttpBackendMethod::Post => true,
        HttpBackendMethod::Get => false,
    };
    match build_default_headers(resolved_headers, is_json_call) {
        Ok(default_headers) => Ok(
            HttpClientPlan {
                pinned,
                default_headers,
                timeout: profile.timeout,
                follow_redirects: false,
            },
        ),
        Err(message) => Err(message),
    }
}

/// The address that is pinned is one of those that the host resolved to, it is
/// allowed, and no allowed address stands before it.
pub proof fn law_pinned_address_is_allowed(
    host: Seq<char>,
    addresses: Seq<ResolvedAddress>,
    allow_private: bool,
)
    requires
        pinned_address(host, addresses, allow_private) is Ok,
    ensures
        ({
            let place = pinned_address(host, addresses, allow_private)->Ok_0;
            &&& 0 <= place < addresses.len()
            &&& crate::safe_dns::is_allowed(addresses[place].is_private, allow_private)
            &&& forall|i: int|
                0 <= i < place ==> !crate::safe_dns::is_allowed(
                    (#[trigger] addresses[i]).is_private,
                    allow_private,
                )
        }),
{
    lemma_first_public(addresses);
}

/// A client is refused exactly where the host has no allowed address.
pub proof fn law_host_is_refused_without_allowed_address(
    host: Seq<char>,
    addresses: Seq<ResolvedAddress>,
    allow_private: bool,
)
    ensures
        pinned_address(host, addresses, allow_private) is Err <==> forall|i: int|
            0 <= i < addresses.len() ==> !crate::safe_dns::is_allowed(
                (#[trigger] addresses[i]).is_private,
                allow_private,
            ),
{
    lemma_first_public(addresses);
    if pinned_address(host, addresses, allow_private) is Ok {
        let place = pinned_address(host, addresses, allow_private)->Ok_0;
        assert(crate::safe_dns::is_allowed(addresses[place].is_private, allow_private));
    }
}

/// The message for a bad URL is the same whatever the URL is.
pub proof fn law_target_error_keeps_the_url_secret(
    a: Result<crate::url::UrlModel, Seq<char>>,
    b: Result<crate::url::UrlModel, Seq<char>>,
)
    requires
        a is Err,
        b is Err,
    ensures
        target_of(a) == target_of(b),
{
}

/// Which address is pinned: where private addresses are allowed the first one, and else the
/// first that is not private, wherever it stands. There is none exactly where the host has no
/// address, or where all are private and private ones are not allowed.
pub proof fn law_first_allowed_address_is_pinned(
    host: &str,
    addresses: &Vec<ResolvedAddress>,
    allow_private: bool,
    place: Result<usize, String>,
)
    requires
        call_ensures(select_address, (host, addresses, allow_private), place),
    ensures
        place is Err <==> addresses@.len() == 0 || (!allow_private && forall|i: int|
            0 <= i < addresses@.len() ==> (#[trigger] addresses@[i]).is_private),
        place matches Ok(at) ==> {
            &&& at < addresses@.len()
            &&& allow_private ==> at == 0
            &&& !allow_private ==> !addresses@[at as int].is_private && forall|i: int|
                0 <= i < at ==> (#[trigger] addresses@[i]).is_private
        },
{
    lemma_first_public(addresses@);
}

/// The message about a host without an allowed address names the host, and every address that
/// it has, in order.
pub proof fn law_refusal_names_host_and_addresses(
    host: &str,
    addresses: &Vec<ResolvedAddress>,
    allow_private: bool,
    place: Result<usize, String>,
    ips: Seq<Seq<char>>,
)
    requires
        call_ensures(select_address, (host, addresses, allow_private), place),
        place is Err,
        ips.len() == addresses@.len(),
        forall|i: int| 0 <= i < ips.len() ==> #[trigger] ips[i] == addresses@[i].ip@,
    ensures
        addresses@.len() == 0 ==> place->Err_0@ == "DNS resolution returned no addresses for "@
            + host@,
        addresses@.len() > 0 ==> place->Err_0@ == "DNS rebinding guard: host '"@ + host@
            + "' resolved only to private addresses ("@ + crate::text::joined(ips, ", "@) + ")"@,
{
    assert(ips =~= ip_texts(addresses@));
}

/// A URL leads to a host and a port exactly where it parses and has both, and then to those.
pub proof fn law_target_is_that_of_the_url(
    resolved_url: &str,
    target: Result<HttpTarget, String>,
)
    requires
        call_ensures(http_target, (resolved_url,), target),
    ensures
        ({
            let parsed = crate::url::parsed_url(resolved_url@);
            &&& target is Ok <==> parsed is Ok && parsed->Ok_0.host is Some
                && parsed->Ok_0.port is Some
            &&& target matches Ok(target) ==> parsed->Ok_0.host == Some(target.host@)
                && parsed->Ok_0.port == Some(target.port)
            &&& parsed is Err ==> target->Err_0@ == "resolved URL failed to parse"@
            &&& parsed is Ok && parsed->Ok_0.host is None ==> target->Err_0@ == "URL has no host"@
            &&& parsed is Ok && parsed->Ok_0.host is Some && parsed->Ok_0.port is None
                ==> target->Err_0@ == "URL has no port and no default for the scheme"@
        }),
{
}

/// The name that is looked up is the host, a colon and the port in decimal, and the message for
/// a lookup that failed ends with it.
pub proof fn law_lookup_name_is_host_and_port(
    target: &HttpTarget,
    name: String,
    failure: String,
)
    requires
        call_ensures(HttpTarget::lookup_name, (target,), name),
        call_ensures(HttpTarget::lookup_failure, (target,), failure),
    ensures
        name@ == target.host@ + ":"@ + crate::text::decimal(target.port as nat),
        failure@ == "DNS resolution failed for "@ + name@,
{
}

/// A client is planned exactly where an address can be pinned and the headers can be sent. It
/// is pinned to that address, sends those headers, has the time limit of the profile and follows
/// no redirect.
pub proof fn law_client_follows_the_profile(
    profile: &HttpRequestProfile,
    host: &str,
    addresses: &Vec<ResolvedAddress>,
    headers: &HeaderTable,
    plan: Result<HttpClientPlan, String>,
    place: Result<usize, String>,
    default_headers: Result<reqwest::header::HeaderMap, String>,
)
    requires
        call_ensures(plan_http_client, (profile, host, addresses, headers), plan),
        call_ensures(select_address, (host, addresses, profile.allow_private_backends), place),
        call_ensures(
            build_default_headers,
            (headers, profile.method == HttpBackendMethod::Post),
            default_headers,
        ),
    ensures
        plan is Ok <==> place is Ok && default_headers is Ok,
        place matches Err(message) ==> plan->Err_0@ == message@,
        place is Ok && default_headers is Err ==> plan->Err_0@ == default_headers->Err_0@,
        plan matches Ok(plan) ==> {
            &&& plan.pinned == place->Ok_0
            &&& crate::headers::header_contents(plan.default_headers)
                == crate::headers::header_contents(default_headers->Ok_0)
            &&& plan.timeout == profile.timeout
            &&& !plan.follow_redirects
        },
{
}

} // verus!
