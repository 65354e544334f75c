//! What the command line decides on its own: the private network a proxied
//! session gets, whether the host is really root, the implicit layers a run
//! starts from, and how results are worded.

use vstd::prelude::*;

use crate::event::Resource;
use crate::lines::{lines, lines_spec, parse_u32, split_chars, split_pieces, u32_body, u32_spec, words, words_spec};
use crate::reconcile::{push_quoted, str_debug};
use crate::profile::{joined, push_joined};
use crate::size::{all_digits, digits_value};
use crate::path::{render, PathBuf, PathView};
use crate::policy::{Access, Egress, EgressRule, EgressView, Policy};
use crate::reconcile::{Finding, FindingView};
use crate::config::{var_spec, vars_view, HostEnv};
use crate::isolation::{denied_by, is_denied};
use crate::path::{parse_spec, starts_with_spec};
use crate::policy::paths_view;
use crate::resolve::{absolute, absolute_spec};
use crate::schema::{find, lookup};
use crate::tomldoc::{parse_document, toml_document, TomlValue};
use crate::text::{chars_of, decimal, owned, push_decimal, push_signed, push_str, signed_decimal, string_of};

verus! {

pub fn yes_no(value: bool) -> (r: &'static str)
    ensures
        r@ == (if value { "yes"@ } else { "no"@ }),
{
    if value { "yes" } else { "no" }
}

/// The private address a proxied session is given, in place of the host's.
pub const PROXY_ADDRESS_V4: &'static str = "10.0.2.15";

/// The private IPv6 address a proxied session is given: a ULA that routes
/// nowhere on its own.
pub const PROXY_ADDRESS_V6: &'static str = "fd00::2";

/// The arguments `pasta` is started with: no port forwarded in either
/// direction, the broker's address (when there is one) mapped to the host's
/// loopback, and the private addresses, IPv6 only where the host has it.
pub open spec fn pasta_spec(egress_addr: Option<Seq<char>>, host_has_ipv6: bool) -> Seq<Seq<char>> {
    seq!["--config-net"@, "--quiet"@, "--no-map-gw"@, "-t"@, "none"@, "-u"@, "none"@, "-T"@, "none"@, "-U"@, "none"@]
        + (match egress_addr {
        Some(a) => seq!["--map-host-loopback"@, a],
        None => seq![],
    }) + seq!["-a"@, PROXY_ADDRESS_V4@] + (if host_has_ipv6 { seq!["-a"@, PROXY_ADDRESS_V6@] } else { seq!["-4"@] })
}

fn push_arg(v: &mut Vec<String>, s: &str)
    ensures
        crate::merge::strs(final(v)@) == crate::merge::strs(old(v)@).push(s@),
{
    let ghost before = crate::merge::strs(v@);
    v.push(owned(s));
    assert(crate::merge::strs(v@) =~= before.push(s@));
}

/// The arguments `pasta` is started with.
pub fn pasta_arguments(egress_addr: Option<&str>, host_has_ipv6: bool) -> (r: Vec<String>)
    ensures
        crate::merge::strs(r@) == pasta_spec(
            match egress_addr {
                Some(a) => Some(a@),
                None => None,
            },
            host_has_ipv6,
        ),
{
    let mut args: Vec<String> = Vec::new();
    push_arg(&mut args, "--config-net");
    push_arg(&mut args, "--quiet");
    push_arg(&mut args, "--no-map-gw");
    push_arg(&mut args, "-t");
    push_arg(&mut args, "none");
    push_arg(&mut args, "-u");
    push_arg(&mut args, "none");
    push_arg(&mut args, "-T");
    push_arg(&mut args, "none");
    push_arg(&mut args, "-U");
    push_arg(&mut args, "none");
    match egress_addr {
        Some(a) => {
            push_arg(&mut args, "--map-host-loopback");
            push_arg(&mut args, a);
        },
        None => {},
    }
    push_arg(&mut args, "-a");
    push_arg(&mut args, PROXY_ADDRESS_V4);
    if host_has_ipv6 {
        push_arg(&mut args, "-a");
        push_arg(&mut args, PROXY_ADDRESS_V6);
    } else {
        push_arg(&mut args, "-4");
    }
    assert(crate::merge::strs(args@) =~= pasta_spec(
        match egress_addr {
            Some(a) => Some(a@),
            None => None,
        },
        host_has_ipv6,
    ));
    args
}

/// The egress a policy has once a broker's port is permitted: an allow-list
/// gains the port, a denial becomes an allow-list of it alone, and
/// all-ports needs nothing.
pub open spec fn with_broker_port(e: EgressView, port: u16) -> EgressView {
    match e {
        EgressView::Allow(rules) => EgressView::Allow(rules.push(("*"@, Some(port)))),
        EgressView::DenyAll => EgressView::Allow(seq![("*"@, Some(port))]),
        EgressView::AllowAll => EgressView::AllowAll,
    }
}

/// Adds the broker port to a policy's egress, so Landlock's port rule does
/// not refuse the connection the netfilter rule already bounds.
pub fn permit_broker_port(policy: &mut Policy, port: u16)
    ensures
        final(policy).network.egress@ == with_broker_port(old(policy).network.egress@, port),
        final(policy).network.bind_ports == old(policy).network.bind_ports,
        final(policy).filesystem == old(policy).filesystem,
        final(policy).denied == old(policy).denied,
        final(policy).read_only == old(policy).read_only,
        final(policy).devices == old(policy).devices,
        final(policy).resources == old(policy).resources,
        final(policy).env == old(policy).env,
        final(policy).home == old(policy).home,
{
    let rule = EgressRule { host: owned("*"), port: Some(port) };
    let egress = match &policy.network.egress {
        Egress::AllowAll => {
            return;
        },
        Egress::DenyAll => {
            let v = vec![rule];
            assert(crate::policy::rules_view(v@) =~= seq![("*"@, Some(port))]);
            Egress::Allow(v)
        },
        Egress::Allow(rules) => {
            let mut v: Vec<EgressRule> = Vec::new();
            let mut i: usize = 0;
            while i < rules.len()
                invariant
                    i <= rules@.len(),
                    v@.len() == i,
                    forall|j: int| 0 <= j < i ==> (#[trigger] v@[j]).host@ == rules@[j].host@ && v@[j].port == rules@[j].port,
                decreases rules@.len() - i,
            {
                v.push(EgressRule { host: rules[i].host.clone(), port: rules[i].port });
                i = i + 1;
            }
            v.push(rule);
            assert(crate::policy::rules_view(v@) =~= crate::policy::rules_view(rules@).push(("*"@, Some(port))));
            Egress::Allow(v)
        },
    };
    policy.network.egress = egress;
}

/// An octet of a dotted quad as the IPv4 address parser reads one: one to
/// three digits, no leading zero unless it stands alone, at most 255.
pub open spec fn octet_ok(p: Seq<char>) -> bool {
    &&& 1 <= p.len() <= 3
    &&& all_digits(p)
    &&& (p.len() == 1 || p[0] != '0')
    &&& digits_value(p) <= 255
}

/// An IPv4 address in dotted-quad form: four octets between dots, and
/// nothing else.
pub open spec fn ipv4_spec(s: Seq<char>) -> Option<(u8, u8, u8, u8)> {
    let p = split_pieces(s, '.');
    if p.len() == 4 && octet_ok(p[0]) && octet_ok(p[1]) && octet_ok(p[2]) && octet_ok(p[3]) {
        Some((digits_value(p[0]) as u8, digits_value(p[1]) as u8, digits_value(p[2]) as u8, digits_value(p[3]) as u8))
    } else {
        None
    }
}

/// The position of the last `c` in `s`, if there is one.
pub open spec fn last_index_of(s: Seq<char>, c: char) -> Option<int>
    decreases s.len(),
{
    if s.len() == 0 {
        None
    } else if s.last() == c {
        Some(s.len() - 1)
    } else {
        last_index_of(s.drop_last(), c)
    }
}

/// A port as the command line reads one: a decimal `u16`.
pub open spec fn port_spec(w: Seq<char>) -> Option<u16> {
    match u32_spec(w) {
        Some(n) => if n <= 0xFFFF { Some(n as u16) } else { None },
        None => None,
    }
}

/// Why an egress-proxy value was refused.
pub enum EgressProxyError {
    /// No `:` separates an address from a port; holds the whole value.
    NoPort(String),
    /// What stands before the last `:` is not an IPv4 address.
    NotIpv4(String),
    /// What stands after the last `:` is not a port number.
    NotAPort(String),
    /// The port is 0, which a Landlock rule reads as any port.
    PortZero,
}

pub enum EgressProxyErrorView {
    NoPort(Seq<char>),
    NotIpv4(Seq<char>),
    NotAPort(Seq<char>),
    PortZero,
}

impl View for EgressProxyError {
    type V = EgressProxyErrorView;

    open spec fn view(&self) -> EgressProxyErrorView {
        match self {
            EgressProxyError::NoPort(v) => EgressProxyErrorView::NoPort(v@),
            EgressProxyError::NotIpv4(a) => EgressProxyErrorView::NotIpv4(a@),
            EgressProxyError::NotAPort(p) => EgressProxyErrorView::NotAPort(p@),
            EgressProxyError::PortZero => EgressProxyErrorView::PortZero,
        }
    }
}

/// What an `ADDR:PORT` egress-proxy value reads as: split at its last `:`,
/// an IPv4 address before and a nonzero port after.
pub open spec fn egress_proxy_spec(v: Seq<char>) -> Result<((u8, u8, u8, u8), u16), EgressProxyErrorView> {
    match last_index_of(v, ':') {
        None => Err(EgressProxyErrorView::NoPort(v)),
        Some(k) => {
            let addr = v.subrange(0, k);
            let port = v.subrange(k + 1, v.len() as int);
            match ipv4_spec(addr) {
                None => Err(EgressProxyErrorView::NotIpv4(addr)),
                Some(a) => match port_spec(port) {
                    None => Err(EgressProxyErrorView::NotAPort(port)),
                    Some(n) => if n == 0 { Err(EgressProxyErrorView::PortZero) } else { Ok((a, n)) },
                },
            }
        },
    }
}

pub open spec fn egress_proxy_error_text(e: EgressProxyErrorView) -> Seq<char> {
    match e {
        EgressProxyErrorView::NoPort(v) => "--egress-proxy must be ADDR:PORT, got "@ + str_debug(v),
        EgressProxyErrorView::NotIpv4(a) => "--egress-proxy address is not IPv4: "@ + str_debug(a),
        EgressProxyErrorView::NotAPort(p) => "--egress-proxy port is not a port: "@ + str_debug(p),
        EgressProxyErrorView::PortZero => "--egress-proxy port 0 is not a port a broker listens on"@,
    }
}

impl EgressProxyError {
    /// The error as the command line reports it.
    pub fn message(&self) -> (r: String)
        ensures
            r@ == egress_proxy_error_text(self@),
    {
        let mut out: Vec<char> = Vec::new();
        match self {
            EgressProxyError::NoPort(v) => {
                push_str(&mut out, "--egress-proxy must be ADDR:PORT, got ");
                push_quoted(&mut out, v.as_str());
            },
            EgressProxyError::NotIpv4(a) => {
                push_str(&mut out, "--egress-proxy address is not IPv4: ");
                push_quoted(&mut out, a.as_str());
            },
            EgressProxyError::NotAPort(p) => {
                push_str(&mut out, "--egress-proxy port is not a port: ");
                push_quoted(&mut out, p.as_str());
            },
            EgressProxyError::PortZero => {
                push_str(&mut out, "--egress-proxy port 0 is not a port a broker listens on");
            },
        }
        string_of(&out)
    }
}

/// Reads one octet of a dotted quad.
fn octet(p: &Vec<char>) -> (r: Option<u8>)
    ensures
        r == (if octet_ok(p@) { Some(digits_value(p@) as u8) } else { None }),
{
    if p.len() < 1 || p.len() > 3 || !('0' <= p[0] && p[0] <= '9') {
        return None;
    }
    assert(u32_body(p@) == p@);
    match parse_u32(p) {
        None => None,
        Some(n) => {
            if n > 255 || (p.len() > 1 && p[0] == '0') {
                None
            } else {
                Some(n as u8)
            }
        },
    }
}

/// Reads an IPv4 address in dotted-quad form.
pub fn parse_ipv4(s: &Vec<char>) -> (r: Option<(u8, u8, u8, u8)>)
    ensures
        r == ipv4_spec(s@),
{
    let pieces = split_chars(s, '.');
    let ghost p = split_pieces(s@, '.');
    assert(pieces@.len() == p.len());
    if pieces.len() != 4 {
        return None;
    }
    assert(pieces@[0]@ == p[0] && pieces@[1]@ == p[1] && pieces@[2]@ == p[2] && pieces@[3]@ == p[3]);
    let a = octet(&pieces[0]);
    let b = octet(&pieces[1]);
    let c = octet(&pieces[2]);
    let d = octet(&pieces[3]);
    match (a, b, c, d) {
        (Some(a), Some(b), Some(c), Some(d)) => Some((a, b, c, d)),
        _ => None,
    }
}

/// Reads an `ADDR:PORT` egress-proxy value into an IPv4 address and a port.
pub fn parse_egress_proxy(value: &str) -> (r: Result<((u8, u8, u8, u8), u16), EgressProxyError>)
    ensures
        match r {
            Ok(x) => egress_proxy_spec(value@) == Ok::<((u8, u8, u8, u8), u16), EgressProxyErrorView>(x),
            Err(e) => egress_proxy_spec(value@) == Err::<((u8, u8, u8, u8), u16), EgressProxyErrorView>(e@),
        },
{
    let cs = chars_of(value);
    let mut k: usize = cs.len();
    assert(cs@.subrange(0, cs@.len() as int) =~= cs@);
    while k > 0
        invariant
            k <= cs@.len(),
            cs@ == value@,
            last_index_of(value@, ':') == last_index_of(cs@.subrange(0, k as int), ':'),
        ensures
            k <= cs@.len(),
            last_index_of(value@, ':') == last_index_of(cs@.subrange(0, k as int), ':'),
            k == 0 || cs@[k - 1] == ':',
        decreases k,
    {
        let ghost pre = cs@.subrange(0, k as int);
        assert(pre.drop_last() =~= cs@.subrange(0, k - 1));
        if cs[k - 1] == ':' {
            break;
        }
        k = k - 1;
    }
    if k == 0 {
        assert(cs@.subrange(0, 0) =~= Seq::<char>::empty());
        return Err(EgressProxyError::NoPort(owned(value)));
    }
    let split = k - 1;
    assert(last_index_of(value@, ':') == Some(split as int));
    let mut addr: Vec<char> = Vec::new();
    let mut port: Vec<char> = Vec::new();
    let mut i: usize = 0;
    while i < cs.len()
        invariant
            split < cs@.len(),
            i <= cs@.len(),
            addr@ == cs@.subrange(0, if i < split { i as int } else { split as int }),
            port@ == (if i <= split + 1 { Seq::<char>::empty() } else { cs@.subrange(split + 1, i as int) }),
        decreases cs@.len() - i,
    {
        if i < split {
            addr.push(cs[i]);
        } else if i > split {
            port.push(cs[i]);
        }
        i = i + 1;
        assert(addr@ =~= cs@.subrange(0, if i < split { i as int } else { split as int }));
        assert(port@ =~= (if i <= split + 1 { Seq::<char>::empty() } else { cs@.subrange(split + 1, i as int) }));
    }
    assert(port@ =~= cs@.subrange(split + 1, cs@.len() as int));
    let address = match parse_ipv4(&addr) {
        Some(a) => a,
        None => {
            return Err(EgressProxyError::NotIpv4(string_of(&addr)));
        },
    };
    let n = match parse_u32(&port) {
        Some(n) => n,
        None => {
            return Err(EgressProxyError::NotAPort(string_of(&port)));
        },
    };
    if n > 0xFFFF {
        return Err(EgressProxyError::NotAPort(string_of(&port)));
    }
    if n == 0 {
        return Err(EgressProxyError::PortZero);
    }
    Ok((address, n as u16))
}

/// Whether a run is to be moved into a private network namespace: asked for
/// by `--proxy-net` or implied by an egress proxy, not refused by
/// `--no-proxy-net`, and with some egress to hide behind it (an egress proxy
/// needs the namespace even where the policy denies all egress).
pub open spec fn wants_namespace_spec(proxy_net: bool, egress_proxy: bool, no_proxy_net: bool, denies_all: bool) -> bool {
    !no_proxy_net && (proxy_net || egress_proxy) && (egress_proxy || !denies_all)
}

/// Whether a run is to be moved into a private network namespace.
pub fn wants_private_namespace(proxy_net: bool, egress_proxy: bool, no_proxy_net: bool, egress: &Egress) -> (r: bool)
    ensures
        r == wants_namespace_spec(proxy_net, egress_proxy, no_proxy_net, egress@ == EgressView::DenyAll),
{
    let denies_all = match egress {
        Egress::DenyAll => true,
        _ => false,
    };
    !no_proxy_net && (proxy_net || egress_proxy) && (egress_proxy || !denies_all)
}

/// What the private namespace was missing.
#[derive(Debug, Clone, Copy, PartialEq, Eq, Structural)]
pub enum NamespaceLack {
    /// `pasta` is not in a trusted location.
    Pasta,
    /// User namespaces are unavailable.
    UserNamespaces,
}

pub open spec fn lack_spec(lack: NamespaceLack, strict: bool) -> Result<Seq<char>, Seq<char>> {
    match (lack, strict) {
        (NamespaceLack::Pasta, true) => Err("--egress-proxy needs pasta, which is not in a trusted location; the run is refused"@),
        (NamespaceLack::Pasta, false) => Ok(
            "bailey: warning: --proxy-net was asked for but pasta is not in a trusted location, so the host address stays visible"@,
        ),
        (NamespaceLack::UserNamespaces, true) => Err("--egress-proxy needs user namespaces, which are unavailable; the run is refused"@),
        (NamespaceLack::UserNamespaces, false) => Ok(
            "bailey: warning: --proxy-net needs user namespaces, which are unavailable, so the host address stays visible"@,
        ),
    }
}

/// What a missing piece of the private namespace means. Under an egress
/// proxy (`strict`) the run is refused, with the message: going on would
/// leave egress open while the caller believed it bounded. Otherwise the run
/// goes on without the namespace, with the warning.
pub fn namespace_lack(lack: NamespaceLack, strict: bool) -> (r: Result<String, String>)
    ensures
        match r {
            Ok(w) => lack_spec(lack, strict) == Ok::<Seq<char>, Seq<char>>(w@),
            Err(e) => lack_spec(lack, strict) == Err::<Seq<char>, Seq<char>>(e@),
        },
{
    match lack {
        NamespaceLack::Pasta => if strict {
            Err(owned("--egress-proxy needs pasta, which is not in a trusted location; the run is refused"))
        } else {
            Ok(owned(
                "bailey: warning: --proxy-net was asked for but pasta is not in a trusted location, so the host address stays visible",
            ))
        },
        NamespaceLack::UserNamespaces => if strict {
            Err(owned("--egress-proxy needs user namespaces, which are unavailable; the run is refused"))
        } else {
            Ok(owned(
                "bailey: warning: --proxy-net needs user namespaces, which are unavailable, so the host address stays visible",
            ))
        },
    }
}

/// Which shell a confined shell session runs: the one asked for, else the
/// caller's `$SHELL` when it is set and not empty, else `/bin/sh`.
pub open spec fn shell_spec(requested: Option<Seq<char>>, env: HostEnv) -> Seq<char> {
    match requested {
        Some(name) => name,
        None => match var_spec(vars_view(env.vars@), "SHELL"@) {
            Some(shell) if shell.len() > 0 => shell,
            _ => "/bin/sh"@,
        },
    }
}

/// Which shell a confined shell session runs.
pub fn shell_name(requested: Option<&str>, env: &HostEnv) -> (r: String)
    ensures
        r@ == shell_spec(
            match requested {
                Some(n) => Some(n@),
                None => None,
            },
            *env,
        ),
{
    match requested {
        Some(name) => owned(name),
        None => match env.var("SHELL") {
            Some(shell) => if shell.as_str().is_empty() { owned("/bin/sh") } else { shell },
            None => owned("/bin/sh"),
        },
    }
}

/// Directories a helper bailey runs itself may come from. Fixed rather than
/// taken from `PATH`: these programs run with the caller's authority.
pub const HELPER_DIRS: [&'static str; 6] = ["/usr/sbin", "/usr/bin", "/sbin", "/bin", "/usr/local/sbin", "/usr/local/bin"];

/// What the search for a helper program makes of one candidate.
#[derive(Debug, Clone, Copy, PartialEq, Eq, Structural)]
pub enum HelperCandidate {
    /// Not an executable file: passed over in silence.
    Skip,
    /// Owned by root, the caller or the overflow user, and writable by
    /// nobody else: this one is run.
    Accept,
    /// Executable, but someone other than its owner could have written it.
    Reject,
}

pub open spec fn helper_spec(is_file: bool, mode: u32, uid: u32, caller: u32, overflow: u32) -> HelperCandidate {
    if !is_file || mode & 0o111 == 0 {
        HelperCandidate::Skip
    } else if (uid == 0 || uid == caller || uid == overflow) && mode & 0o022 == 0 {
        HelperCandidate::Accept
    } else {
        HelperCandidate::Reject
    }
}

/// Judges a candidate helper by its kind, permission bits and owner, for a
/// caller with effective user `caller`; `overflow` is the user an unmapped
/// owner appears as.
pub fn judge_helper(is_file: bool, mode: u32, uid: u32, caller: u32, overflow: u32) -> (r: HelperCandidate)
    ensures
        r == helper_spec(is_file, mode, uid, caller, overflow),
{
    if !is_file || mode & 0o111 == 0 {
        HelperCandidate::Skip
    } else if (uid == 0 || uid == caller || uid == overflow) && mode & 0o022 == 0 {
        HelperCandidate::Accept
    } else {
        HelperCandidate::Reject
    }
}

pub open spec fn helper_error_text(name: Seq<char>, rejected: Seq<Seq<char>>) -> Seq<char> {
    if rejected.len() == 0 {
        "`"@ + name + "` was not found in a trusted location"@
    } else {
        "`"@ + name + "` was found at "@ + joined(rejected, ", "@)
            + " but is writable by someone other than its owner; refusing to run it"@
    }
}

/// Why no helper called `name` could be run, given the candidates that were
/// found but refused.
pub fn helper_error(name: &str, rejected: &Vec<String>) -> (r: String)
    ensures
        r@ == helper_error_text(name@, crate::merge::strs(rejected@)),
{
    let mut out: Vec<char> = Vec::new();
    push_str(&mut out, "`");
    push_str(&mut out, name);
    if rejected.len() == 0 {
        push_str(&mut out, "` was not found in a trusted location");
    } else {
        push_str(&mut out, "` was found at ");
        push_joined(&mut out, rejected, ", ");
        push_str(&mut out, " but is writable by someone other than its owner; refusing to run it");
    }
    string_of(&out)
}

/// Whether a line of `/proc/net/if_inet6` names a global-scope address off
/// the loopback: its fourth field (the scope) is `00`, and its sixth (the
/// device), if any, is not `lo`.
pub open spec fn global_line(words: Seq<Seq<char>>) -> bool {
    words.len() > 3 && words[3] == "00"@ && !(words.len() > 5 && words[5] == "lo"@)
}

/// Whether `/proc/net/if_inet6` names a global-scope address off the
/// loopback.
pub open spec fn ipv6_spec(text: Seq<char>) -> bool {
    exists|i: int| 0 <= i < lines_spec(text).len() && global_line(words_spec(#[trigger] lines_spec(text)[i]))
}

fn same_chars(v: &Vec<char>, s: &str) -> (r: bool)
    ensures
        r == (v@ == s@),
{
    let t = chars_of(s);
    if v.len() != t.len() {
        return false;
    }
    let mut i: usize = 0;
    while i < v.len()
        invariant
            i <= v@.len(),
            v@.len() == t@.len(),
            t@ == s@,
            forall|j: int| 0 <= j < i ==> v@[j] == t@[j],
        decreases v@.len() - i,
    {
        if v[i] != t[i] {
            return false;
        }
        i = i + 1;
    }
    assert(v@ =~= t@);
    true
}

/// Whether `/proc/net/if_inet6` names a global-scope address off the
/// loopback.
pub fn ipv6_global_present(if_inet6: &str) -> (r: bool)
    ensures
        r == ipv6_spec(if_inet6@),
{
    let ls = lines(if_inet6);
    let ghost lv = ls@.map_values(|l: Vec<char>| l@);
    let mut i: usize = 0;
    while i < ls.len()
        invariant
            i <= ls@.len(),
            lv == ls@.map_values(|l: Vec<char>| l@),
            lv == lines_spec(if_inet6@),
            forall|j: int| 0 <= j < i ==> !global_line(words_spec(#[trigger] lv[j])),
        decreases ls@.len() - i,
    {
        let ws = words(&ls[i]);
        let ghost wv = ws@.map_values(|w: Vec<char>| w@);
        assert(lv[i as int] == ls@[i as int]@);
        let scope_ok = ws.len() > 3 && same_chars(&ws[3], "00");
        let lo = ws.len() > 5 && same_chars(&ws[5], "lo");
        if scope_ok && !lo {
            assert(global_line(wv));
            return true;
        }
        assert(!global_line(wv));
        i = i + 1;
    }
    false
}

/// Who uid 0 stands for outside this user namespace, read from a `uid_map`:
/// lines of `<inside> <outside> <count>`. The first line whose range covers
/// 0 says; a line that cannot be read ends the search with nothing, as does
/// the end of the map.
pub open spec fn root_uid_spec(ls: Seq<Seq<char>>) -> Option<u32>
    decreases ls.len(),
{
    if ls.len() == 0 {
        None
    } else {
        let w = words_spec(ls[0]);
        if w.len() < 3 {
            None
        } else {
            match (u32_spec(w[0]), u32_spec(w[1]), u32_spec(w[2])) {
                (Some(inside), Some(outside), Some(count)) => if inside == 0 && count >= 1 {
                    Some(outside)
                } else {
                    root_uid_spec(ls.drop_first())
                },
                _ => None,
            }
        }
    }
}

/// Who uid 0 stands for outside this user namespace, read from a `uid_map`.
pub fn host_uid_of_root(map: &str) -> (r: Option<u32>)
    ensures
        r == root_uid_spec(lines_spec(map@)),
{
    let ls = lines(map);
    let ghost lv = ls@.map_values(|l: Vec<char>| l@);
    assert(lv.subrange(0, lv.len() as int) =~= lv);
    let mut i: usize = 0;
    while i < ls.len()
        invariant
            i <= ls@.len(),
            lv == ls@.map_values(|l: Vec<char>| l@),
            lv == lines_spec(map@),
            root_uid_spec(lv) == root_uid_spec(lv.subrange(i as int, lv.len() as int)),
        decreases ls@.len() - i,
    {
        let ghost rest = lv.subrange(i as int, lv.len() as int);
        assert(rest[0] == ls@[i as int]@);
        assert(rest.drop_first() =~= lv.subrange(i + 1, lv.len() as int));
        let ws = words(&ls[i]);
        assert(ws@.map_values(|w: Vec<char>| w@) == words_spec(rest[0]));
        if ws.len() < 3 {
            return None;
        }
        assert(ws@[0]@ == words_spec(rest[0])[0]);
        assert(ws@[1]@ == words_spec(rest[0])[1]);
        assert(ws@[2]@ == words_spec(rest[0])[2]);
        let inside = parse_u32(&ws[0]);
        let outside = parse_u32(&ws[1]);
        let count = parse_u32(&ws[2]);
        match (inside, outside, count) {
            (Some(a), Some(b), Some(c)) => {
                if a == 0 && c >= 1 {
                    return Some(b);
                }
            },
            _ => {
                return None;
            },
        }
        i = i + 1;
    }
    assert(lv.subrange(i as int, lv.len() as int) =~= Seq::<Seq<char>>::empty());
    None
}

/// The sandbox `PATH`, as the hint names it.
pub open spec fn sandbox_path() -> Seq<char> {
    "/usr/local/bin:/usr/bin:/bin"@
}

pub open spec fn hint_spec(exit_code: i32) -> Option<Seq<char>> {
    if exit_code == 127 {
        Some(
            "audit: 127 is what a shell returns for a program it could not find, and nothing is recorded for a path that was never looked at. The sandbox PATH is `"@
                + sandbox_path()
                + "`, so an interpreter installed under your home is not on it. Grant its directory and pass PATH through, or name it by absolute path."@,
        )
    } else {
        None
    }
}

/// Explains the status a shell returns for a program it could not find.
pub fn command_not_found_hint(exit_code: i32) -> (r: Option<String>)
    ensures
        match r {
            Some(s) => hint_spec(exit_code) == Some(s@),
            None => hint_spec(exit_code) is None,
        },
{
    if exit_code != 127 {
        return None;
    }
    let mut out = chars_of(
        "audit: 127 is what a shell returns for a program it could not find, and nothing is recorded for a path that was never looked at. The sandbox PATH is `",
    );
    push_str(&mut out, crate::world::SANDBOX_PATH);
    push_str(
        &mut out,
        "`, so an interpreter installed under your home is not on it. Grant its directory and pass PATH through, or name it by absolute path.",
    );
    let s = string_of(&out);
    assert(s@ =~= hint_spec(exit_code)->0);
    Some(s)
}

/// What to say when a trace holds nothing the policy does not already
/// grant. From a run that worked, that is the answer everyone wants; from
/// one that failed, it is close to meaningless and must not read like a
/// clean bill of health.
pub open spec fn nothing_observed_spec(exit_code: i32) -> Seq<char> {
    if exit_code == 0 {
        "audit: no ungranted access observed"@
    } else {
        "audit: no ungranted access observed, but the target exited "@ + signed_decimal(exit_code as int)
            + ", so this trace is of a run that did not do its work. Nothing here says the policy is sufficient."@
            + match hint_spec(exit_code) {
            Some(h) => seq!['\n'] + h,
            None => seq![],
        }
    }
}

/// What to say when a trace holds nothing the policy does not already grant.
pub fn nothing_observed(exit_code: i32) -> (r: String)
    ensures
        r@ == nothing_observed_spec(exit_code),
{
    if exit_code == 0 {
        return owned("audit: no ungranted access observed");
    }
    let mut out = chars_of("audit: no ungranted access observed, but the target exited ");
    push_signed(&mut out, exit_code);
    push_str(
        &mut out,
        ", so this trace is of a run that did not do its work. Nothing here says the policy is sufficient.",
    );
    match command_not_found_hint(exit_code) {
        Some(h) => {
            out.push('\n');
            push_str(&mut out, h.as_str());
        },
        None => {},
    }
    let r = string_of(&out);
    assert(r@ =~= nothing_observed_spec(exit_code));
    r
}

/// A finding's resource as it is listed: the path, `host:port`, or
/// `port N`.
pub open spec fn describe_spec(f: FindingView) -> Seq<char> {
    match f.resource {
        crate::event::ResourceView::Path(p) => render(p),
        crate::event::ResourceView::Net { host, port } => match host {
            Some(h) => h + ":"@ + decimal(port as nat),
            None => "port "@ + decimal(port as nat),
        },
    }
}

/// A finding's resource as it is listed.
pub fn describe(finding: &Finding) -> (r: String)
    ensures
        r@ == describe_spec(finding@),
{
    match &finding.resource {
        Resource::Path(p) => p.display(),
        Resource::Net { host, port } => {
            let mut out: Vec<char> = Vec::new();
            match host {
                Some(h) => {
                    push_str(&mut out, h.as_str());
                    out.push(':');
                    proof {
                        reveal_strlit(":");
                    }
                    assert(out@ =~= h@ + ":"@);
                },
                None => {
                    push_str(&mut out, "port ");
                },
            }
            let ghost head = out@;
            push_decimal(&mut out, *port as u64);
            assert(out@ == head + decimal(*port as nat));
            let r = string_of(&out);
            assert(r@ =~= describe_spec(finding@));
            r
        },
    }
}

/// Rights as `rwx` flags, `-` for each one missing.
pub open spec fn flags_spec(a: Access) -> Seq<char> {
    seq![if a.read { 'r' } else { '-' }, if a.write { 'w' } else { '-' }, if a.execute { 'x' } else { '-' }]
}

/// Rights as `rwx` flags.
pub fn access_flags(access: Access) -> (r: String)
    ensures
        r@ == flags_spec(access),
{
    let mut out: Vec<char> = Vec::new();
    out.push(if access.read { 'r' } else { '-' });
    out.push(if access.write { 'w' } else { '-' });
    out.push(if access.execute { 'x' } else { '-' });
    assert(out@ =~= flags_spec(access));
    string_of(&out)
}

/// A text as a TOML basic string: quoted, with backslashes and quotes
/// escaped.
pub open spec fn toml_escape(s: Seq<char>) -> Seq<char>
    decreases s.len(),
{
    if s.len() == 0 {
        seq![]
    } else {
        toml_escape(s.drop_last()) + if s.last() == '\\' {
            seq!['\\', '\\']
        } else if s.last() == '"' {
            seq!['\\', '"']
        } else {
            seq![s.last()]
        }
    }
}

pub open spec fn toml_string_spec(p: PathView) -> Seq<char> {
    seq!['"'] + toml_escape(render(p)) + seq!['"']
}

/// A path as a TOML basic string.
pub fn toml_string(path: &PathBuf) -> (r: String)
    ensures
        r@ == toml_string_spec(path@),
{
    let cs = chars_of(path.display().as_str());
    let mut out: Vec<char> = Vec::new();
    out.push('"');
    let ghost start = out@;
    let mut i: usize = 0;
    while i < cs.len()
        invariant
            i <= cs@.len(),
            cs@ == render(path@),
            start == seq!['"'],
            out@ == start + toml_escape(cs@.subrange(0, i as int)),
        decreases cs@.len() - i,
    {
        let c = cs[i];
        if c == '\\' {
            out.push('\\');
            out.push('\\');
        } else if c == '"' {
            out.push('\\');
            out.push('"');
        } else {
            out.push(c);
        }
        let ghost pre = cs@.subrange(0, i + 1);
        assert(pre.drop_last() =~= cs@.subrange(0, i as int));
        i = i + 1;
        assert(out@ =~= start + toml_escape(cs@.subrange(0, i as int)));
    }
    assert(cs@.subrange(0, cs@.len() as int) =~= cs@);
    out.push('"');
    let r = string_of(&out);
    assert(r@ =~= toml_string_spec(path@));
    r
}

/// The layer granting the directory a shell was launched from: read, write
/// and execute.
pub open spec fn dir_layer_spec(dir: PathView) -> Seq<char> {
    let d = toml_string_spec(dir);
    "[filesystem]\nread = ["@ + d + "]\nwrite = ["@ + d + "]\nexecute = ["@ + d + "]\n"@
}

/// The layer granting the directory a shell was launched from.
pub fn implicit_dir_layer(dir: &PathBuf) -> (r: String)
    ensures
        r@ == dir_layer_spec(dir@),
{
    let d = toml_string(dir);
    let mut out = chars_of("[filesystem]\nread = [");
    push_str(&mut out, d.as_str());
    push_str(&mut out, "]\nwrite = [");
    push_str(&mut out, d.as_str());
    push_str(&mut out, "]\nexecute = [");
    push_str(&mut out, d.as_str());
    push_str(&mut out, "]\n");
    let r = string_of(&out);
    assert(r@ =~= dir_layer_spec(dir@));
    r
}

/// The layer granting the target itself, read and execute, so that a
/// program outside the system paths can start under its own policy. It
/// sits beneath the bundled profile, so any user layer can retract it.
pub open spec fn target_layer_spec(target: PathView, env: crate::config::HostEnv) -> Seq<char> {
    let p = toml_string_spec(crate::resolve::absolute_spec(target, env));
    "[filesystem]\nread = ["@ + p + "]\nexecute = ["@ + p + "]\n"@
}

/// The layer granting the target itself.
pub fn implicit_target_layer(target: &PathBuf, env: &crate::config::HostEnv) -> (r: String)
    ensures
        r@ == target_layer_spec(target@, *env),
{
    let p = toml_string(&crate::resolve::absolute(target, env));
    let mut out = chars_of("[filesystem]\nread = [");
    push_str(&mut out, p.as_str());
    push_str(&mut out, "]\nexecute = [");
    push_str(&mut out, p.as_str());
    push_str(&mut out, "]\n");
    let r = string_of(&out);
    assert(r@ =~= target_layer_spec(target@, *env));
    r
}

// ---------------------------------------------------------------------------
// Warnings a run gives before it starts.

/// The warning for a target the policy denies, which therefore will not
/// start.
pub open spec fn target_denied_spec(policy: Policy, target: PathView, env: HostEnv) -> Option<Seq<char>> {
    let program = absolute_spec(target, env);
    if denied_by(paths_view(policy.denied@), program) {
        Some("bailey: warning: the policy denies the target `"@ + render(program) + "`; it will not start"@)
    } else {
        None
    }
}

/// The warning for a target the policy denies, when it does.
pub fn target_denied_warning(policy: &Policy, target: &PathBuf, env: &HostEnv) -> (r: Option<String>)
    ensures
        match r {
            Some(m) => target_denied_spec(*policy, target@, *env) == Some(m@),
            None => target_denied_spec(*policy, target@, *env) is None,
        },
{
    let program = absolute(target, env);
    if is_denied(&policy.denied, &program) {
        let mut out: Vec<char> = Vec::new();
        push_str(&mut out, "bailey: warning: the policy denies the target `");
        push_str(&mut out, program.display().as_str());
        push_str(&mut out, "`; it will not start");
        Some(string_of(&out))
    } else {
        None
    }
}

/// The warning of a shell whose launch directory contains the home, so that
/// the implicit grant of the directory covers the whole home.
pub open spec fn home_granted_spec(dir: PathView, env: HostEnv) -> Option<Seq<char>> {
    match var_spec(vars_view(env.vars@), "HOME"@) {
        Some(h) => if starts_with_spec(parse_spec(h), dir) {
            Some(
                "bailey: warning: this shell was launched from `"@ + render(dir)
                    + "`, so the implicit grant covers your whole home directory. Launch it from the directory you meant to confine it to, or retract the grant in config."@,
            )
        } else {
            None
        },
        None => None,
    }
}

/// The warning of a shell launched from the home or above it, when it is.
/// Refusing would overrule a directory the user chose, so this says what
/// happened and leaves the choice alone.
pub fn home_granted_warning(dir: &PathBuf, env: &HostEnv) -> (r: Option<String>)
    ensures
        match r {
            Some(m) => home_granted_spec(dir@, *env) == Some(m@),
            None => home_granted_spec(dir@, *env) is None,
        },
{
    match env.var("HOME") {
        Some(h) => {
            if PathBuf::parse(h.as_str()).starts_with(dir) {
                let mut out: Vec<char> = Vec::new();
                push_str(&mut out, "bailey: warning: this shell was launched from `");
                push_str(&mut out, dir.display().as_str());
                push_str(
                    &mut out,
                    "`, so the implicit grant covers your whole home directory. Launch it from the directory you meant to confine it to, or retract the grant in config.",
                );
                Some(string_of(&out))
            } else {
                None
            }
        },
        None => None,
    }
}

/// The note of a shell started inside a sandbox, naming the sandbox's
/// directory.
pub open spec fn nesting_spec(env: HostEnv) -> Option<Seq<char>> {
    match var_spec(vars_view(env.vars@), "BAILEY_SANDBOX_DIR"@) {
        Some(outer) => Some(
            "bailey: note: already inside a sandbox for `"@ + outer
                + "`. Its policy still applies and this one can only narrow it further; the isolation layer cannot be entered a second time."@,
        ),
        None => None,
    }
}

/// The note of a shell started inside a sandbox, when it is.
pub fn nesting_note(env: &HostEnv) -> (r: Option<String>)
    ensures
        match r {
            Some(m) => nesting_spec(*env) == Some(m@),
            None => nesting_spec(*env) is None,
        },
{
    match env.var("BAILEY_SANDBOX_DIR") {
        Some(outer) => {
            let mut out: Vec<char> = Vec::new();
            push_str(&mut out, "bailey: note: already inside a sandbox for `");
            push_str(&mut out, outer.as_str());
            push_str(
                &mut out,
                "`. Its policy still applies and this one can only narrow it further; the isolation layer cannot be entered a second time.",
            );
            Some(string_of(&out))
        },
        None => None,
    }
}

// ---------------------------------------------------------------------------
// The commands a config runs outside the sandbox.

/// The strings among `items`, in order.
pub open spec fn strings_in(items: Seq<TomlValue>) -> Seq<Seq<char>>
    decreases items.len(),
{
    if items.len() == 0 {
        seq![]
    } else {
        let rest = strings_in(items.drop_last());
        match items.last() {
            TomlValue::Str(s) => rest.push(s@),
            _ => rest,
        }
    }
}

/// The commands a hooks table names for `when`: one string, or the strings
/// of an array.
pub open spec fn commands_for(hooks: Seq<(String, TomlValue)>, when: Seq<char>) -> Seq<Seq<char>> {
    match lookup(hooks, when) {
        Some(TomlValue::Str(s)) => seq![s@],
        Some(TomlValue::Array(items)) => strings_in(items@),
        _ => seq![],
    }
}

/// A command's line: when it runs, and what.
pub open spec fn command_lines(when: Seq<char>, cs: Seq<Seq<char>>) -> Seq<Seq<char>>
    decreases cs.len(),
{
    if cs.len() == 0 { seq![] } else { command_lines(when, cs.drop_last()).push("  "@ + when + ": "@ + cs.last()) }
}

/// What a config's text says it runs outside the sandbox, as the user's own
/// commands, by line: nothing when the text is not TOML or names no such
/// command.
pub open spec fn hooks_report_spec(text: Seq<char>) -> Seq<Seq<char>> {
    match toml_document(text) {
        Ok(TomlValue::Table(t)) => match lookup(t@, "hooks"@) {
            Some(TomlValue::Table(h)) => {
                let body = command_lines("pre-launch"@, commands_for(h@, "pre-launch"@))
                    + command_lines("post-exit"@, commands_for(h@, "post-exit"@));
                if body.len() == 0 { seq![] } else { seq!["this config runs commands outside the sandbox, as you:"@] + body }
            },
            _ => seq![],
        },
        _ => seq![],
    }
}

/// Appends the lines of the commands `v` names for `when`.
fn push_commands(out: &mut Vec<String>, hooks: &Vec<(String, TomlValue)>, when: &str)
    ensures
        crate::merge::strs(final(out)@) == crate::merge::strs(old(out)@) + command_lines(when@, commands_for(hooks@, when@)),
{
    let ghost start = crate::merge::strs(out@);
    match find(hooks, when) {
        Some(TomlValue::Str(one)) => {
            let mut line: Vec<char> = Vec::new();
            push_str(&mut line, "  ");
            push_str(&mut line, when);
            push_str(&mut line, ": ");
            push_str(&mut line, one.as_str());
            let t = string_of(&line);
            out.push(t);
            assert(crate::merge::strs(out@) =~= start.push(t@));
            let ghost cs = seq![one@];
            assert(cs.drop_last() =~= Seq::<Seq<char>>::empty());
            assert(t@ =~= "  "@ + when@ + ": "@ + one@);
            assert(command_lines(when@, Seq::<Seq<char>>::empty()) =~= Seq::<Seq<char>>::empty());
            assert(cs.last() == one@);
            assert(command_lines(when@, cs) =~= seq![t@]);
            assert(crate::merge::strs(out@) =~= start + command_lines(when@, cs));
        },
        Some(TomlValue::Array(items)) => {
            let ghost all = strings_in(items@);
            let mut i: usize = 0;
            assert(items@.subrange(0, 0) =~= Seq::<TomlValue>::empty());
            assert(crate::merge::strs(out@) =~= start + command_lines(when@, strings_in(items@.subrange(0, 0))));
            while i < items.len()
                invariant
                    i <= items@.len(),
                    crate::merge::strs(out@) == start + command_lines(when@, strings_in(items@.subrange(0, i as int))),
                decreases items@.len() - i,
            {
                assert(items@.subrange(0, i + 1).drop_last() =~= items@.subrange(0, i as int));
                match &items[i] {
                    TomlValue::Str(one) => {
                        let mut line: Vec<char> = Vec::new();
                        push_str(&mut line, "  ");
                        push_str(&mut line, when);
                        push_str(&mut line, ": ");
                        push_str(&mut line, one.as_str());
                        let ghost before = crate::merge::strs(out@);
                        let t = string_of(&line);
                        out.push(t);
                        assert(crate::merge::strs(out@) =~= before.push(t@));
                        let ghost prev = strings_in(items@.subrange(0, i as int));
                        assert(strings_in(items@.subrange(0, i + 1)) == prev.push(one@));
                        assert(command_lines(when@, prev.push(one@)).drop_last() == command_lines(when@, prev)) by {
                            assert(prev.push(one@).drop_last() =~= prev);
                        }
                    },
                    _ => {},
                }
                i = i + 1;
            }
            assert(items@.subrange(0, items@.len() as int) =~= items@);
        },
        _ => {
            assert(crate::merge::strs(out@) =~= start + command_lines(when@, commands_for(hooks@, when@)));
        },
    }
}

/// What a config's text says it runs outside the sandbox, as the user's own
/// commands, by line.
pub fn hooks_report(text: &str) -> (r: Vec<String>)
    ensures
        crate::merge::strs(r@) == hooks_report_spec(text@),
{
    let mut out: Vec<String> = Vec::new();
    let doc = match parse_document(text) {
        Ok(d) => d,
        Err(_) => {
            assert(crate::merge::strs(out@) =~= Seq::<Seq<char>>::empty());
            return out;
        },
    };
    match &doc {
        TomlValue::Table(t) => match find(t, "hooks") {
            Some(TomlValue::Table(h)) => {
                let mut body: Vec<String> = Vec::new();
                push_commands(&mut body, h, "pre-launch");
                push_commands(&mut body, h, "post-exit");
                if body.len() == 0 {
                    assert(crate::merge::strs(out@) =~= Seq::<Seq<char>>::empty());
                    return out;
                }
                out.push(owned("this config runs commands outside the sandbox, as you:"));
                let ghost head = crate::merge::strs(out@);
                let mut i: usize = 0;
                while i < body.len()
                    invariant
                        i <= body@.len(),
                        crate::merge::strs(out@) == head + crate::merge::strs(body@).subrange(0, i as int),
                    decreases body@.len() - i,
                {
                    let ghost before = crate::merge::strs(out@);
                    let t = owned(body[i].as_str());
                    out.push(t);
                    assert(crate::merge::strs(out@) =~= before.push(body@[i as int]@));
                    assert(crate::merge::strs(out@) =~= head + crate::merge::strs(body@).subrange(0, i + 1));
                    i = i + 1;
                }
                assert(crate::merge::strs(body@).subrange(0, body@.len() as int) =~= crate::merge::strs(body@));
                assert(crate::merge::strs(out@) =~= hooks_report_spec(text@));
                out
            },
            _ => {
                assert(crate::merge::strs(out@) =~= Seq::<Seq<char>>::empty());
                out
            },
        },
        _ => {
            assert(crate::merge::strs(out@) =~= Seq::<Seq<char>>::empty());
            out
        },
    }
}

/// Whether an egress setting lets a connection to `port` out.
pub open spec fn lets_port_out(e: EgressView, port: u16) -> bool {
    match e {
        EgressView::AllowAll => true,
        EgressView::DenyAll => false,
        EgressView::Allow(rules) => exists|i: int| 0 <= i < rules.len() && #[trigger] rules[i].1 == Some(port),
    }
}

/// Permitting the broker's port lets that port out, and takes nothing away:
/// every port the policy let out before it still lets out.
pub proof fn law_broker_port_only_widens(e: EgressView, port: u16, q: u16)
    ensures
        lets_port_out(with_broker_port(e, port), port),
        lets_port_out(e, q) ==> lets_port_out(with_broker_port(e, port), q),
{
    match e {
        EgressView::Allow(rules) => {
            let r2 = rules.push(("*"@, Some(port)));
            assert(r2[rules.len() as int].1 == Some(port));
            if lets_port_out(e, q) {
                let i = choose|i: int| 0 <= i < rules.len() && #[trigger] rules[i].1 == Some(q);
                assert(r2[i] == rules[i]);
            }
        },
        EgressView::DenyAll => {
            assert(seq![("*"@, Some(port))][0].1 == Some(port));
        },
        EgressView::AllowAll => {},
    }
}

/// Under an egress proxy a missing namespace refuses the run; otherwise the
/// run goes on with a warning.
pub proof fn law_strict_lack_refuses(lack: NamespaceLack)
    ensures
        lack_spec(lack, true) is Err,
        lack_spec(lack, false) is Ok,
{
}

/// `--no-proxy-net` always keeps the host namespace, and an egress proxy
/// otherwise always asks for the private one, whatever the policy's egress.
pub proof fn law_namespace_choice(proxy_net: bool, egress_proxy: bool, no_proxy_net: bool, denies_all: bool)
    ensures
        no_proxy_net ==> !wants_namespace_spec(proxy_net, egress_proxy, no_proxy_net, denies_all),
        !no_proxy_net && egress_proxy ==> wants_namespace_spec(proxy_net, egress_proxy, no_proxy_net, denies_all),
        !proxy_net && !egress_proxy ==> !wants_namespace_spec(proxy_net, egress_proxy, no_proxy_net, denies_all),
{
}

/// A helper that is run is an executable file that no one but its owner can
/// write, owned by root, the caller, or the user an unmapped owner appears
/// as.
pub proof fn law_accepted_helper_is_trusted(is_file: bool, mode: u32, uid: u32, caller: u32, overflow: u32)
    requires
        helper_spec(is_file, mode, uid, caller, overflow) == HelperCandidate::Accept,
    ensures
        is_file,
        mode & 0o111 != 0,
        mode & 0o022 == 0,
        uid == 0 || uid == caller || uid == overflow,
{
}

} // verus!
