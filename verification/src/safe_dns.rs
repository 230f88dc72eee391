//! DNS rebinding protection for outbound connections.
//!
//! A hostname that an operator configured must not be re-pointed to a private
//! address at dispatch time. Whether an address is private comes in with it.

use vstd::prelude::*;

verus! {

/// An address that a hostname resolved to.
#[derive(Debug, Clone, PartialEq, Eq)]
pub struct ResolvedAddress {
    /// The IP address, as text.
    pub ip: String,
    /// Whether the address is in a private, loopback, link-local or other range
    /// that is not on the public Internet.
    pub is_private: bool,
}

/// The reason for which a private address is refused.
pub open spec fn private_address_reason(
    host: Seq<char>,
    ip: Seq<char>,
    private_ranges: Seq<char>,
) -> Seq<char> {
    "DNS rebinding guard: host '"@ + host + "' resolved to private address "@ + ip
        + " (set server.allow_private_backends=true for container-network deployments). "@
        + private_ranges
}

/// Whether a connection to an address is allowed.
pub open spec fn is_allowed(is_private: bool, allow_private: bool) -> bool {
    allow_private || !is_private
}

/// Checks a resolved address before a connection is made to it. A private address
/// is refused unless private addresses are allowed. `private_ranges` tells the
/// operator which addresses are private.
pub fn validate_resolved_address(
    addr: &ResolvedAddress,
    host: &str,
    allow_private: bool,
    private_ranges: &str,
) -> (checked: Result<(), String>)
    ensures
        if is_allowed(addr.is_private, allow_private) {
            checked is Ok
        } else {
            checked matches Err(reason) && reason@ == private_address_reason(
                host@,
                addr.ip@,
                private_ranges@,
            )
        },
{
    if allow_private || !addr.is_private {
        return Ok(());
    }
    let mut reason = "DNS rebinding guard: host '".to_owned();
    reason.append(host);
    reason.append("' resolved to private address ");
    reason.append(addr.ip.as_str());
    reason.append(
        " (set server.allow_private_backends=true for container-network deployments). ",
    );
    reason.append(private_ranges);
    Err(reason)
}

/// A connection is refused exactly where the address is private and private addresses are not
/// allowed. The reason names the host and the address.
pub proof fn law_private_addresses_need_permission(
    addr: &ResolvedAddress,
    host: &str,
    allow_private: bool,
    private_ranges: &str,
    checked: Result<(), String>,
)
    requires
        call_ensures(
            validate_resolved_address,
            (addr, host, allow_private, private_ranges),
            checked,
        ),
    ensures
        checked is Err <==> addr.is_private && !allow_private,
        is_allowed(addr.is_private, allow_private) <==> checked is Ok,
        checked matches Err(reason) ==> reason@ == "DNS rebinding guard: host '"@ + host@
            + "' resolved to private address "@ + addr.ip@
            + " (set server.allow_private_backends=true for container-network deployments). "@
            + private_ranges@,
{
}

} // verus!
