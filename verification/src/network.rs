//! Network confinement.
//!
//! Landlock's network rules cover TCP connect and bind, and nothing else, so a
//! policy that denies egress still lets UDP, QUIC, DNS and ICMP off the host.
//! Where the policy denies egress outright, the target is placed in its own
//! network namespace with only a loopback interface, which has no route
//! anywhere and so denies every protocol at once. Where the policy allows some
//! egress, enforcement falls back to Landlock's port rules, and the run
//! reports what that does not cover.

use vstd::prelude::*;

use crate::policy::{Egress, EgressView, Policy};

verus! {

/// How a run's network access is confined.
#[derive(Debug, Clone, Copy, PartialEq, Eq, Structural)]
pub enum NetworkMode {
    /// Own network namespace with only loopback. Nothing leaves the host, at
    /// any protocol.
    Isolated,
    /// Host network namespace, with Landlock rules over TCP ports. Other
    /// protocols are unrestricted.
    LandlockOnly,
}

pub open spec fn describe_spec(m: NetworkMode) -> Seq<char> {
    match m {
        NetworkMode::Isolated => "isolated (own namespace, loopback only, no route off the host)"@,
        NetworkMode::LandlockOnly => "landlock only (TCP ports; other protocols unrestricted)"@,
    }
}

impl NetworkMode {
    /// A short description of what this mode enforces.
    pub fn describe(self) -> (r: &'static str)
        ensures
            r@ == describe_spec(self),
    {
        match self {
            NetworkMode::Isolated => "isolated (own namespace, loopback only, no route off the host)",
            NetworkMode::LandlockOnly => "landlock only (TCP ports; other protocols unrestricted)",
        }
    }
}

/// Whether a policy needs no network at all: egress denied and no port
/// bound.
pub open spec fn needs_no_network(policy: Policy) -> bool {
    policy.network.egress@ == EgressView::DenyAll && policy.network.bind_ports@.len() == 0
}

/// The confinement mode for `policy` on a host where user namespaces are or
/// are not available. A namespace with no route cannot serve a policy that
/// allows egress or binds a port, so those fall back to Landlock's port
/// rules.
pub open spec fn select_spec(policy: Policy, userns_available: bool) -> NetworkMode {
    if needs_no_network(policy) && userns_available {
        NetworkMode::Isolated
    } else {
        NetworkMode::LandlockOnly
    }
}

/// Chooses the confinement mode for `policy`.
pub fn select(policy: &Policy, userns_available: bool) -> (r: NetworkMode)
    ensures
        r == select_spec(*policy, userns_available),
{
    let deny = match &policy.network.egress {
        Egress::DenyAll => true,
        _ => false,
    };
    if deny && policy.network.bind_ports.len() == 0 && userns_available {
        NetworkMode::Isolated
    } else {
        NetworkMode::LandlockOnly
    }
}

/// The warning a run gives when its confinement is weaker than the policy
/// reads, if it is.
pub open spec fn report_spec(mode: NetworkMode, policy: Policy) -> Option<Seq<char>> {
    if mode == NetworkMode::Isolated {
        None
    } else {
        match policy.network.egress@ {
            EgressView::DenyAll => Some(
                "bailey: warning: egress is denied but no network namespace could be created, so only TCP is blocked; UDP, QUIC, and DNS are not"@,
            ),
            EgressView::Allow(_) => Some(
                "bailey: warning: outbound access is restricted by TCP port only; UDP, QUIC, and DNS are not restricted"@,
            ),
            EgressView::AllowAll => None,
        }
    }
}

/// The warning a run gives when its confinement is weaker than the policy
/// reads. A run that fully denies the network says nothing: output means
/// something needs attention.
pub fn report(mode: NetworkMode, policy: &Policy) -> (r: Option<&'static str>)
    ensures
        match r {
            Some(m) => report_spec(mode, *policy) == Some(m@),
            None => report_spec(mode, *policy) is None,
        },
{
    match mode {
        NetworkMode::Isolated => None,
        NetworkMode::LandlockOnly => match &policy.network.egress {
            Egress::DenyAll => Some(
                "bailey: warning: egress is denied but no network namespace could be created, so only TCP is blocked; UDP, QUIC, and DNS are not",
            ),
            Egress::Allow(_) => Some(
                "bailey: warning: outbound access is restricted by TCP port only; UDP, QUIC, and DNS are not restricted",
            ),
            Egress::AllowAll => None,
        },
    }
}

/// A policy that allows any connectivity is never given the isolated
/// namespace, whatever the host offers.
pub proof fn law_connectivity_stays_on_landlock(policy: Policy, userns_available: bool)
    requires
        !needs_no_network(policy),
    ensures
        select_spec(policy, userns_available) == NetworkMode::LandlockOnly,
{
}

pub open spec fn published_spec(m: NetworkMode) -> Seq<char> {
    match m {
        NetworkMode::Isolated => "isolated"@,
        NetworkMode::LandlockOnly => "host"@,
    }
}

/// How a run publishes the network it leaves to a nested run, which cannot
/// build its own: `isolated`, or `host`.
pub fn published(mode: NetworkMode) -> (r: &'static str)
    ensures
        r@ == published_spec(mode),
{
    match mode {
        NetworkMode::Isolated => "isolated",
        NetworkMode::LandlockOnly => "host",
    }
}

/// A policy that needs no network is isolated wherever user namespaces
/// are available, and then the run says nothing; whenever a restricted
/// policy falls back to Landlock's port rules, the run warns that other
/// protocols are not covered.
pub proof fn law_weaker_confinement_is_reported(policy: Policy, userns_available: bool)
    ensures
        needs_no_network(policy) && userns_available ==> select_spec(policy, userns_available) == NetworkMode::Isolated
            && report_spec(select_spec(policy, userns_available), policy) is None,
        select_spec(policy, userns_available) == NetworkMode::LandlockOnly && policy.network.egress@ != EgressView::AllowAll
            ==> report_spec(select_spec(policy, userns_available), policy) is Some,
{
}

} // verus!
