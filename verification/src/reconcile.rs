//! Profile reconciliation.
//!
//! Diffs a recorded access trace against a [`Policy`], classifies the
//! accesses the policy does not already grant by risk, and generates a
//! deny-by-default profile from a chosen subset. High-risk access (network
//! egress, credential reads, access outside the target directory) is flagged
//! and never included in a generated profile unless the caller selects it, so
//! auditing an untrusted target never silently blesses its behaviour.

use vstd::prelude::*;

use crate::event::{AccessEvent, AccessKind, Resolution, Resource, ResourceView};
use crate::path::{
    file_name_spec, parse_spec, render, starts_with_spec, PathBuf, PathView,
};
use crate::isolation::{denied_by, is_denied};
use crate::policy::{contains_spec, paths_view, Access, Egress, EgressView, Policy};
use crate::strmap::{lists_names, StrMap};
use crate::text::{chars_of, decimal, push_all, push_decimal, push_str, string_of};

verus! {

/// The risk assigned to an ungranted access.
#[derive(Debug, Clone, PartialEq, Eq)]
pub enum Risk {
    /// Routine access that is safe to grant.
    Low,
    /// Sensitive access that must be reviewed before granting, with the
    /// reason.
    High(String),
}

pub enum RiskView {
    Low,
    High(Seq<char>),
}

impl View for Risk {
    type V = RiskView;

    open spec fn view(&self) -> RiskView {
        match self {
            Risk::Low => RiskView::Low,
            Risk::High(s) => RiskView::High(s@),
        }
    }
}

impl Risk {
    /// Whether this risk is high.
    pub fn is_high(&self) -> (r: bool)
        ensures
            r == (self@ is High),
    {
        match self {
            Risk::High(_) => true,
            Risk::Low => false,
        }
    }
}

/// An access observed in the trace that the current policy does not grant.
#[derive(Debug, Clone, PartialEq, Eq)]
pub struct Finding {
    /// The kind of access.
    pub kind: AccessKind,
    /// The resource accessed.
    pub resource: Resource,
    /// The assessed risk.
    pub risk: Risk,
    /// Whether the path could not be resolved to an absolute one, in which
    /// case it cannot be compared against policy paths or granted.
    pub unresolved: bool,
}

pub struct FindingView {
    pub kind: AccessKind,
    pub resource: ResourceView,
    pub risk: RiskView,
    pub unresolved: bool,
}

impl View for Finding {
    type V = FindingView;

    open spec fn view(&self) -> FindingView {
        FindingView { kind: self.kind, resource: self.resource@, risk: self.risk@, unresolved: self.unresolved }
    }
}

// ---------------------------------------------------------------------------
// Whether the policy grants an access.

pub open spec fn read_access() -> Access {
    Access { read: true, write: false, execute: false }
}

pub open spec fn write_access() -> Access {
    Access { read: false, write: true, execute: false }
}

pub open spec fn execute_access() -> Access {
    Access { read: false, write: false, execute: true }
}

/// Whether `policy` grants `path` with `a`: no denial covers it, since a
/// denial is total, and a filesystem or device grant covers it with `a`.
pub open spec fn fs_granted_spec(policy: Policy, path: PathView, a: Access) -> bool {
    !denied_by(paths_view(policy.denied@), path) && fs_grant_covers(policy, path, a)
}

/// Whether a filesystem or device grant of `policy` covers `path` with `a`.
pub open spec fn fs_grant_covers(policy: Policy, path: PathView, a: Access) -> bool {
    ||| exists|i: int| 0 <= i < policy.filesystem@.len()
        && contains_spec((#[trigger] policy.filesystem@[i]).access, a)
        && starts_with_spec(path, policy.filesystem@[i].path@)
    ||| exists|i: int| 0 <= i < policy.devices@.len()
        && contains_spec((#[trigger] policy.devices@[i]).access, a)
        && starts_with_spec(path, policy.devices@[i].path@)
}

/// Whether `policy` grants the access `e` records.
#[verifier::opaque]
pub open spec fn granted_spec(kind: AccessKind, resource: ResourceView, policy: Policy) -> bool {
    match (kind, resource) {
        (AccessKind::Read, ResourceView::Path(p)) => fs_granted_spec(policy, p, read_access()),
        (AccessKind::Write, ResourceView::Path(p)) => fs_granted_spec(policy, p, write_access()),
        (AccessKind::Execute, ResourceView::Path(p)) => fs_granted_spec(policy, p, execute_access()),
        (AccessKind::Connect, ResourceView::Net { port, .. }) => match policy.network.egress@ {
            EgressView::AllowAll => true,
            EgressView::DenyAll => false,
            EgressView::Allow(rules) => exists|i: int| 0 <= i < rules.len() && #[trigger] rules[i].1 == Some(port),
        },
        (AccessKind::Bind, ResourceView::Net { port, .. }) => policy.network.bind_ports@.contains(port),
        _ => false,
    }
}

/// Whether a filesystem or device grant of `policy` covers `path` with `a`.
pub fn fs_granted(policy: &Policy, path: &PathBuf, a: Access) -> (r: bool)
    ensures
        r == fs_granted_spec(*policy, path@, a),
{
    if is_denied(&policy.denied, path) {
        return false;
    }
    let mut i: usize = 0;
    while i < policy.filesystem.len()
        invariant
            i <= policy.filesystem@.len(),
            !denied_by(paths_view(policy.denied@), path@),
            forall|j: int| 0 <= j < i ==> !(contains_spec((#[trigger] policy.filesystem@[j]).access, a)
                && starts_with_spec(path@, policy.filesystem@[j].path@)),
        decreases policy.filesystem@.len() - i,
    {
        let rule = &policy.filesystem[i];
        if rule.access.contains(a) && path.starts_with(&rule.path) {
            return true;
        }
        i = i + 1;
    }
    let mut k: usize = 0;
    while k < policy.devices.len()
        invariant
            k <= policy.devices@.len(),
            !denied_by(paths_view(policy.denied@), path@),
            forall|j: int| 0 <= j < policy.filesystem@.len() ==> !(contains_spec((#[trigger] policy.filesystem@[j]).access, a)
                && starts_with_spec(path@, policy.filesystem@[j].path@)),
            forall|j: int| 0 <= j < k ==> !(contains_spec((#[trigger] policy.devices@[j]).access, a)
                && starts_with_spec(path@, policy.devices@[j].path@)),
        decreases policy.devices@.len() - k,
    {
        let rule = &policy.devices[k];
        if rule.access.contains(a) && path.starts_with(&rule.path) {
            return true;
        }
        k = k + 1;
    }
    false
}

/// Whether `policy` grants the access `e` records.
pub fn is_granted(e: &AccessEvent, policy: &Policy) -> (r: bool)
    ensures
        r == granted_spec(e.kind, e.resource@, *policy),
{
    reveal(granted_spec);
    match (&e.kind, &e.resource) {
        (AccessKind::Read, Resource::Path(p)) => fs_granted(policy, p, Access::read_only()),
        (AccessKind::Write, Resource::Path(p)) => fs_granted(policy, p, Access::write_only()),
        (AccessKind::Execute, Resource::Path(p)) => fs_granted(policy, p, Access::execute_only()),
        (AccessKind::Connect, Resource::Net { port, .. }) => match &policy.network.egress {
            Egress::AllowAll => true,
            Egress::DenyAll => false,
            Egress::Allow(rules) => {
                let ghost rv = crate::policy::rules_view(rules@);
                assert(granted_spec(e.kind, e.resource@, *policy) == (exists|j: int| 0 <= j < rv.len() && #[trigger] rv[j].1 == Some(*port)));
                let mut i: usize = 0;
                while i < rules.len()
                    invariant
                        i <= rules@.len(),
                        rv == crate::policy::rules_view(rules@),
                        granted_spec(e.kind, e.resource@, *policy) == (exists|j: int| 0 <= j < rv.len() && #[trigger] rv[j].1 == Some(*port)),
                        forall|j: int| 0 <= j < i ==> #[trigger] rv[j].1 != Some(*port),
                    decreases rules@.len() - i,
                {
                    match rules[i].port {
                        Some(q) => {
                            if q == *port {
                                assert(rv[i as int].1 == Some(*port));
                                return true;
                            }
                        },
                        None => {},
                    }
                    i = i + 1;
                }
                false
            },
        },
        (AccessKind::Bind, Resource::Net { port, .. }) => {
            let mut i: usize = 0;
            while i < policy.network.bind_ports.len()
                invariant
                    i <= policy.network.bind_ports@.len(),
                    granted_spec(e.kind, e.resource@, *policy) == policy.network.bind_ports@.contains(*port),
                    forall|j: int| 0 <= j < i ==> policy.network.bind_ports@[j] != *port,
                decreases policy.network.bind_ports@.len() - i,
            {
                if policy.network.bind_ports[i] == *port {
                    assert(policy.network.bind_ports@[i as int] == *port);
                    return true;
                }
                i = i + 1;
            }
            false
        },
        _ => false,
    }
}

// ---------------------------------------------------------------------------
// Risk.

/// Whether `needle` occurs in `text`.
pub open spec fn occurs_in(needle: Seq<char>, text: Seq<char>) -> bool {
    exists|i: int| 0 <= i && i + needle.len() <= text.len() && #[trigger] text.subrange(i, i + needle.len()) == needle
}

/// Whether `needle` occurs in `text`.
pub fn occurs(needle: &str, text: &Vec<char>) -> (r: bool)
    ensures
        r == occurs_in(needle@, text@),
{
    let n = chars_of(needle);
    if n.len() > text.len() {
        return false;
    }
    let mut i: usize = 0;
    while i <= text.len() - n.len()
        invariant
            n@ == needle@,
            n.len() <= text.len(),
            i <= text.len() - n.len() + 1,
            forall|j: int| 0 <= j < i ==> #[trigger] text@.subrange(j, j + n.len()) != n@,
        decreases text.len() - i,
    {
        let mut k: usize = 0;
        let mut same = true;
        assert(text@.subrange(i as int, i as int) =~= n@.subrange(0, 0));
        while k < n.len()
            invariant
                k <= n.len(),
                i + n.len() <= text.len(),
                same == (text@.subrange(i as int, i + k) == n@.subrange(0, k as int)),
            decreases n.len() - k,
        {
            if text[i + k] != n[k] {
                same = false;
            }
            let ghost a = text@.subrange(i as int, i + k + 1);
            let ghost b = n@.subrange(0, k + 1);
            assert(a =~= text@.subrange(i as int, i + k).push(text@[i + k]));
            assert(b =~= n@.subrange(0, k as int).push(n@[k as int]));
            k = k + 1;
            proof {
                if same {
                    assert(a =~= b);
                } else if text@.subrange(i as int, i + k) == n@.subrange(0, k as int) {
                    assert(a[k - 1] == b[k - 1]);
                    assert(text@.subrange(i as int, i + k - 1) =~= a.drop_last());
                    assert(n@.subrange(0, k - 1) =~= b.drop_last());
                }
            }
        }
        assert(n@.subrange(0, n.len() as int) =~= n@);
        if same {
            return true;
        }
        i = i + 1;
    }
    false
}

pub open spec fn secret_components() -> Seq<Seq<char>> {
    seq![".ssh"@, ".gnupg"@, ".aws"@, ".config/gcloud"@, ".password-store"@, ".mozilla"@]
}

pub open spec fn secret_names() -> Seq<Seq<char>> {
    seq![".netrc"@, ".git-credentials"@, "id_rsa"@, "id_ed25519"@]
}

/// Whether a path names a credential or secret: its text holds a secret
/// directory, or its last component is a secret file's name.
pub open spec fn is_credential_spec(p: PathView) -> bool {
    ||| exists|i: int| 0 <= i < secret_components().len() && occurs_in(#[trigger] secret_components()[i], render(p))
    ||| file_name_spec(p) matches Some(n) && secret_names().contains(n)
}

fn secret_component(i: usize) -> (r: &'static str)
    requires
        i < 6,
    ensures
        r@ == secret_components()[i as int],
{
    if i == 0 { ".ssh" }
    else if i == 1 { ".gnupg" }
    else if i == 2 { ".aws" }
    else if i == 3 { ".config/gcloud" }
    else if i == 4 { ".password-store" }
    else { ".mozilla" }
}

fn secret_name(i: usize) -> (r: &'static str)
    requires
        i < 4,
    ensures
        r@ == secret_names()[i as int],
{
    if i == 0 { ".netrc" }
    else if i == 1 { ".git-credentials" }
    else if i == 2 { "id_rsa" }
    else { "id_ed25519" }
}

/// Whether a path names a credential or secret.
pub fn is_credential_path(p: &PathBuf) -> (r: bool)
    ensures
        r == is_credential_spec(p@),
{
    let text = chars_of(p.display().as_str());
    let mut i: usize = 0;
    while i < 6
        invariant
            i <= 6,
            text@ == render(p@),
            forall|j: int| 0 <= j < i ==> !occurs_in(#[trigger] secret_components()[j], render(p@)),
        decreases 6 - i,
    {
        if occurs(secret_component(i), &text) {
            return true;
        }
        i = i + 1;
    }
    match p.file_name() {
        None => false,
        Some(n) => {
            let mut k: usize = 0;
            while k < 4
                invariant
                    k <= 4,
                    file_name_spec(p@) == Some(n@),
                    forall|j: int| 0 <= j < 6 ==> !occurs_in(#[trigger] secret_components()[j], render(p@)),
                    forall|j: int| 0 <= j < k ==> #[trigger] secret_names()[j] != n@,
                decreases 4 - k,
            {
                if n == crate::text::owned(secret_name(k)) {
                    assert(secret_names()[k as int] == n@);
                    return true;
                }
                k = k + 1;
            }
            false
        },
    }
}

/// The risk of an ungranted access to `resource`.
#[verifier::opaque]
pub open spec fn classify_spec(resource: ResourceView, target_dir: PathView) -> RiskView {
    match resource {
        ResourceView::Net { .. } => RiskView::High("network egress"@),
        ResourceView::Path(p) => if is_credential_spec(p) {
            RiskView::High("credential or secret path"@)
        } else if starts_with_spec(p, target_dir) {
            RiskView::Low
        } else {
            RiskView::High("access outside the target directory"@)
        },
    }
}

/// The risk of an ungranted access to `resource`.
pub fn classify(resource: &Resource, target_dir: &PathBuf) -> (r: Risk)
    ensures
        r@ == classify_spec(resource@, target_dir@),
{
    reveal(classify_spec);
    match resource {
        Resource::Net { .. } => Risk::High(crate::text::owned("network egress")),
        Resource::Path(p) => {
            if is_credential_path(p) {
                Risk::High(crate::text::owned("credential or secret path"))
            } else if p.starts_with(target_dir) {
                Risk::Low
            } else {
                Risk::High(crate::text::owned("access outside the target directory"))
            }
        },
    }
}

// ---------------------------------------------------------------------------
// The text a finding is known by: the debug rendering, which orders findings
// for presentation and tells two accesses apart.

/// How `<str as Debug>` writes a text: quoted, with the characters that
/// need it escaped.
pub uninterp spec fn str_debug(s: Seq<char>) -> Seq<char>;

/// How `<Path as Debug>` writes the path whose text is `s`.
pub uninterp spec fn path_debug(s: Seq<char>) -> Seq<char>;

/// `format!("{:?}", s)` for a text, with std's `Debug` for `str`. The
/// contract names the result; what `Debug` escapes is not stated.
#[verifier::external_body]
fn str_debug_text(s: &str) -> (r: String)
    ensures
        r@ == str_debug(s@),
{
    format!("{s:?}")
}

/// `format!("{:?}", Path::new(s))`, with std's `Debug` for `Path`. The
/// contract names the result; what `Debug` escapes is not stated.
#[verifier::external_body]
fn path_debug_text(s: &str) -> (r: String)
    ensures
        r@ == path_debug(s@),
{
    format!("{:?}", std::path::Path::new(s))
}

pub open spec fn kind_name(k: AccessKind) -> Seq<char> {
    match k {
        AccessKind::Read => "Read"@,
        AccessKind::Write => "Write"@,
        AccessKind::Execute => "Execute"@,
        AccessKind::Connect => "Connect"@,
        AccessKind::Bind => "Bind"@,
    }
}

#[verifier::opaque]
pub open spec fn resource_text(r: ResourceView) -> Seq<char> {
    match r {
        ResourceView::Path(p) => "Path("@ + path_debug(render(p)) + ")"@,
        ResourceView::Net { host, port } => "Net { host: "@ + match host {
            None => "None"@,
            Some(h) => "Some("@ + str_debug(h) + ")"@,
        } + ", port: "@ + decimal(port as nat) + " }"@,
    }
}

pub open spec fn risk_text(r: RiskView) -> Seq<char> {
    match r {
        RiskView::Low => "Low"@,
        RiskView::High(why) => "High("@ + str_debug(why) + ")"@,
    }
}

pub open spec fn finding_text(f: FindingView) -> Seq<char> {
    "Finding { kind: "@ + kind_name(f.kind) + ", resource: "@ + resource_text(f.resource) + ", risk: "@
        + risk_text(f.risk) + ", unresolved: "@ + (if f.unresolved { "true"@ } else { "false"@ }) + " }"@
}

/// Appends a text as `Debug` for `str` writes it.
pub(crate) fn push_quoted(out: &mut Vec<char>, s: &str)
    ensures
        final(out)@ == old(out)@ + str_debug(s@),
{
    let t = str_debug_text(s);
    push_str(out, t.as_str());
}

/// Appends a path's text as `Debug` for `Path` writes it.
fn push_path_debug(out: &mut Vec<char>, s: &str)
    ensures
        final(out)@ == old(out)@ + path_debug(s@),
{
    let t = path_debug_text(s);
    push_str(out, t.as_str());
}

fn kind_word(k: AccessKind) -> (r: &'static str)
    ensures
        r@ == kind_name(k),
{
    match k {
        AccessKind::Read => "Read",
        AccessKind::Write => "Write",
        AccessKind::Execute => "Execute",
        AccessKind::Connect => "Connect",
        AccessKind::Bind => "Bind",
    }
}

/// The debug rendering of a resource.
pub fn resource_debug(r: &Resource) -> (t: String)
    ensures
        t@ == resource_text(r@),
{
    reveal(resource_text);
    let mut out: Vec<char> = Vec::new();
    match r {
        Resource::Path(p) => {
            push_str(&mut out, "Path(");
            push_path_debug(&mut out, p.display().as_str());
            push_str(&mut out, ")");
        },
        Resource::Net { host, port } => {
            push_str(&mut out, "Net { host: ");
            match host {
                None => push_str(&mut out, "None"),
                Some(h) => {
                    push_str(&mut out, "Some(");
                    push_quoted(&mut out, h.as_str());
                    push_str(&mut out, ")");
                },
            }
            push_str(&mut out, ", port: ");
            push_decimal(&mut out, *port as u64);
            push_str(&mut out, " }");
        },
    }
    let t = string_of(&out);
    assert(t@ =~= resource_text(r@));
    t
}

/// The debug rendering of a finding.
pub fn finding_debug(f: &Finding) -> (t: String)
    ensures
        t@ == finding_text(f@),
{
    let mut out: Vec<char> = Vec::new();
    push_str(&mut out, "Finding { kind: ");
    push_str(&mut out, kind_word(f.kind));
    push_str(&mut out, ", resource: ");
    push_str(&mut out, resource_debug(&f.resource).as_str());
    push_str(&mut out, ", risk: ");
    match &f.risk {
        Risk::Low => push_str(&mut out, "Low"),
        Risk::High(why) => {
            push_str(&mut out, "High(");
            push_quoted(&mut out, why.as_str());
            push_str(&mut out, ")");
        },
    }
    push_str(&mut out, ", unresolved: ");
    push_str(&mut out, if f.unresolved { "true" } else { "false" });
    push_str(&mut out, " }");
    let t = string_of(&out);
    assert(t@ =~= finding_text(f@));
    t
}

fn copy_resource(r: &Resource) -> (c: Resource)
    ensures
        c@ == r@,
{
    match r {
        Resource::Path(p) => Resource::Path(p.duplicate()),
        Resource::Net { host, port } => Resource::Net { host: host.clone(), port: *port },
    }
}

pub(crate) fn copy_finding(f: &Finding) -> (c: Finding)
    ensures
        c@ == f@,
{
    let risk = match &f.risk {
        Risk::Low => Risk::Low,
        Risk::High(why) => Risk::High(why.clone()),
    };
    Finding { kind: f.kind, resource: copy_resource(&f.resource), risk, unresolved: f.unresolved }
}

// ---------------------------------------------------------------------------
// Reconciliation.

/// Whether two events are the same access: the same kind on the same
/// resource.
pub open spec fn same_access(a: AccessEvent, b: AccessEvent) -> bool {
    a.kind == b.kind && resource_text(a.resource@) == resource_text(b.resource@)
}

pub open spec fn ungranted(e: AccessEvent, policy: Policy) -> bool {
    !granted_spec(e.kind, e.resource@, policy)
}

/// Whether event `i` is the first occurrence of an access the policy does
/// not grant.
#[verifier::opaque]
pub open spec fn first_ungranted(events: Seq<AccessEvent>, policy: Policy, i: int) -> bool {
    &&& 0 <= i < events.len()
    &&& ungranted(events[i], policy)
    &&& forall|j: int| 0 <= j < i ==> !(ungranted(events[j], policy) && #[trigger] same_access(events[j], events[i]))
}

/// The finding an ungranted event makes.
pub open spec fn finding_of(e: AccessEvent, target_dir: PathView) -> FindingView {
    FindingView {
        kind: e.kind,
        resource: e.resource@,
        risk: classify_spec(e.resource@, target_dir),
        unresolved: e.resolution == Resolution::Unresolved,
    }
}

fn same_kind(a: AccessKind, b: AccessKind) -> (r: bool)
    ensures
        r == (a == b),
{
    match (a, b) {
        (AccessKind::Read, AccessKind::Read) => true,
        (AccessKind::Write, AccessKind::Write) => true,
        (AccessKind::Execute, AccessKind::Execute) => true,
        (AccessKind::Connect, AccessKind::Connect) => true,
        (AccessKind::Bind, AccessKind::Bind) => true,
        _ => false,
    }
}

/// The findings of the first occurrence of each ungranted access, in trace
/// order.
pub open spec fn first_findings(ev: Seq<AccessEvent>, policy: Policy, dir: PathView) -> Seq<FindingView>
    decreases ev.len(),
{
    if ev.len() == 0 {
        seq![]
    } else {
        let rest = first_findings(ev.drop_last(), policy, dir);
        if first_ungranted(ev, policy, ev.len() - 1) { rest.push(finding_of(ev.last(), dir)) } else { rest }
    }
}

/// `s` with `f` placed after every element whose text does not sort after
/// its own.
pub open spec fn insert_by_text(s: Seq<FindingView>, f: FindingView) -> Seq<FindingView>
    decreases s.len(),
{
    if s.len() == 0 {
        seq![f]
    } else if crate::text::str_lt(finding_text(f), finding_text(s.last())) {
        insert_by_text(s.drop_last(), f).push(s.last())
    } else {
        s.push(f)
    }
}

/// The findings sorted by text, stably: findings with equal texts keep their
/// order.
pub open spec fn sort_by_text(l: Seq<FindingView>) -> Seq<FindingView>
    decreases l.len(),
{
    if l.len() == 0 { seq![] } else { insert_by_text(sort_by_text(l.drop_last()), l.last()) }
}

pub open spec fn findings_view(v: Seq<Finding>) -> Seq<FindingView> {
    v.map_values(|f: Finding| f@)
}

proof fn lemma_first_ungranted_prefix(ev: Seq<AccessEvent>, policy: Policy, n: int, j: int)
    requires
        0 <= j < n <= ev.len(),
    ensures
        first_ungranted(ev.subrange(0, n), policy, j) == first_ungranted(ev, policy, j),
{
    reveal(first_ungranted);
    assert forall|k: int| 0 <= k <= j implies ev.subrange(0, n)[k] == ev[k] by {}
}

proof fn lemma_insert_at(s: Seq<FindingView>, f: FindingView, k: int)
    requires
        0 <= k <= s.len(),
        forall|m: int| k <= m < s.len() ==> crate::text::str_lt(finding_text(f), finding_text(#[trigger] s[m])),
        k > 0 ==> !crate::text::str_lt(finding_text(f), finding_text(s[k - 1])),
    ensures
        insert_by_text(s, f) == s.subrange(0, k).push(f) + s.subrange(k, s.len() as int),
    decreases s.len(),
{
    if s.len() == 0 {
        assert(s.subrange(0, k).push(f) + s.subrange(k, s.len() as int) =~= seq![f]);
    } else if k == s.len() {
        assert(s.subrange(0, k).push(f) + s.subrange(k, s.len() as int) =~= s.push(f));
    } else {
        assert(crate::text::str_lt(finding_text(f), finding_text(s.last())));
        let t = s.drop_last();
        lemma_insert_at(t, f, k);
        assert(t.subrange(0, k) =~= s.subrange(0, k));
        assert((t.subrange(0, k).push(f) + t.subrange(k, t.len() as int)).push(s.last())
            =~= s.subrange(0, k).push(f) + s.subrange(k, s.len() as int));
    }
}

/// Whether `seen` holds the access `kind` on the resource whose text is
/// `key`.
fn seen_access(seen: &Vec<(AccessKind, String)>, kind: AccessKind, key: &String) -> (r: bool)
    ensures
        r == exists|u: int| 0 <= u < seen@.len() && (#[trigger] seen@[u]).0 == kind && seen@[u].1@ == key@,
{
    let mut t: usize = 0;
    while t < seen.len()
        invariant
            t <= seen@.len(),
            forall|u: int| 0 <= u < t ==> !((#[trigger] seen@[u]).0 == kind && seen@[u].1@ == key@),
        decreases seen@.len() - t,
    {
        if same_kind(seen[t].0, kind) && seen[t].1 == *key {
            return true;
        }
        t = t + 1;
    }
    false
}

/// Whether `seen` records exactly the accesses of the ungranted events
/// before `i`, entry `t` being that of event `origin[t]`.
#[verifier::opaque]
pub open spec fn seen_is(seen: Seq<(AccessKind, String)>, origin: Seq<int>, ev: Seq<AccessEvent>, policy: Policy, i: int) -> bool {
    &&& origin.len() == seen.len()
    &&& forall|t: int| #![trigger seen[t]] 0 <= t < seen.len() ==> {
        &&& 0 <= origin[t] < i
        &&& first_ungranted(ev, policy, origin[t])
        &&& seen[t].0 == ev[origin[t]].kind
        &&& seen[t].1@ == resource_text(ev[origin[t]].resource@)
    }
    &&& forall|j: int| #![trigger ungranted(ev[j], policy)] 0 <= j < i && ungranted(ev[j], policy) ==> exists|t: int|
        0 <= t < seen.len() && (#[trigger] seen[t]).0 == ev[j].kind && seen[t].1@ == resource_text(ev[j].resource@)
}

/// The finding of the first occurrence of each ungranted access, in trace
/// order.
fn first_ungranted_findings(trace: &Vec<AccessEvent>, policy: &Policy, target_dir: &PathBuf) -> (r: Vec<Finding>)
    ensures
        findings_view(r@) == first_findings(trace@, *policy, target_dir@),
{
    let ghost ev = trace@;
    let mut seen: Vec<(AccessKind, String)> = Vec::new();
    let ghost mut origin: Seq<int> = Seq::empty();
    let mut chosen: Vec<Finding> = Vec::new();
    assert(seen_is(seen@, origin, ev, *policy, 0)) by {
        reveal(seen_is);
    }
    assert(first_findings(ev.subrange(0, 0), *policy, target_dir@) =~= Seq::<FindingView>::empty());
    let mut i: usize = 0;
    while i < trace.len()
        invariant
            i <= ev.len(),
            ev == trace@,
            findings_view(chosen@) == first_findings(ev.subrange(0, i as int), *policy, target_dir@),
            seen_is(seen@, origin, ev, *policy, i as int),
        decreases ev.len() - i,
    {
        let e = &trace[i];
        let ghost pre = ev.subrange(0, i + 1);
        proof {
            assert(pre.drop_last() =~= ev.subrange(0, i as int));
            assert(pre.last() == ev[i as int]);
            lemma_first_ungranted_prefix(ev, *policy, i + 1, i as int);
        }
        if !is_granted(e, policy) {
            let key = resource_debug(&e.resource);
            if seen_access(&seen, e.kind, &key) {
                proof {
                    lemma_seen_means_repeat(seen@, origin, ev, *policy, i as int, key@);
                }
            } else {
                proof {
                    lemma_unseen_means_first(seen@, origin, ev, *policy, i as int, key@);
                }
                let f = Finding {
                    kind: e.kind,
                    resource: copy_resource(&e.resource),
                    risk: classify(&e.resource, target_dir),
                    unresolved: match e.resolution {
                        Resolution::Unresolved => true,
                        _ => false,
                    },
                };
                assert(f@ == finding_of(ev[i as int], target_dir@));
                let ghost chosen_before = findings_view(chosen@);
                chosen.push(f);
                assert(findings_view(chosen@) =~= chosen_before.push(finding_of(ev[i as int], target_dir@)));
                let ghost seen_before = seen@;
                let ghost origin_before = origin;
                seen.push((e.kind, key));
                proof {
                    origin = origin.push(i as int);
                    lemma_seen_grows(seen_before, origin_before, seen@, origin, ev, *policy, i as int);
                }
            }
        } else {
            proof {
                lemma_granted_is_not_a_finding(seen@, origin, ev, *policy, i as int);
            }
        }
        i = i + 1;
    }
    assert(ev.subrange(0, ev.len() as int) =~= ev);
    chosen
}

proof fn lemma_first_needs_ungranted(ev: Seq<AccessEvent>, policy: Policy, i: int)
    requires
        !ungranted(ev[i], policy),
    ensures
        !first_ungranted(ev, policy, i),
{
    reveal(first_ungranted);
}

proof fn lemma_granted_is_not_a_finding(seen: Seq<(AccessKind, String)>, origin: Seq<int>, ev: Seq<AccessEvent>, policy: Policy, i: int)
    requires
        0 <= i < ev.len(),
        seen_is(seen, origin, ev, policy, i),
        !ungranted(ev[i], policy),
    ensures
        !first_ungranted(ev, policy, i),
        seen_is(seen, origin, ev, policy, i + 1),
{
    lemma_first_needs_ungranted(ev, policy, i);
    reveal(seen_is);
    assert forall|j: int| #![trigger ungranted(ev[j], policy)] 0 <= j < i + 1 && ungranted(ev[j], policy) implies exists|t: int|
        0 <= t < seen.len() && (#[trigger] seen[t]).0 == ev[j].kind && seen[t].1@ == resource_text(ev[j].resource@) by {
        assert(j < i);
    }
}

proof fn lemma_seen_means_repeat(seen: Seq<(AccessKind, String)>, origin: Seq<int>, ev: Seq<AccessEvent>, policy: Policy, i: int, key: Seq<char>)
    requires
        0 <= i < ev.len(),
        seen_is(seen, origin, ev, policy, i),
        key == resource_text(ev[i].resource@),
        exists|u: int| 0 <= u < seen.len() && (#[trigger] seen[u]).0 == ev[i].kind && seen[u].1@ == key,
    ensures
        !first_ungranted(ev, policy, i),
        seen_is(seen, origin, ev, policy, i + 1),
{
    reveal(seen_is);
    let u = choose|u: int| 0 <= u < seen.len() && (#[trigger] seen[u]).0 == ev[i].kind && seen[u].1@ == key;
    let j = origin[u];
    assert(first_ungranted(ev, policy, j) && seen[u].0 == ev[j].kind);
    assert(same_access(ev[j], ev[i]));
    assert(ungranted(ev[j], policy)) by {
        reveal(first_ungranted);
    }
    assert(!first_ungranted(ev, policy, i)) by {
        reveal(first_ungranted);
    }
    assert forall|j2: int| #![trigger ungranted(ev[j2], policy)] 0 <= j2 < i + 1 && ungranted(ev[j2], policy) implies exists|t: int|
        0 <= t < seen.len() && (#[trigger] seen[t]).0 == ev[j2].kind && seen[t].1@ == resource_text(ev[j2].resource@) by {
        if j2 == i {
            assert(0 <= u < seen.len() && seen[u].0 == ev[j2].kind && seen[u].1@ == resource_text(ev[j2].resource@));
        }
    }
}

proof fn lemma_unseen_means_first(seen: Seq<(AccessKind, String)>, origin: Seq<int>, ev: Seq<AccessEvent>, policy: Policy, i: int, key: Seq<char>)
    requires
        0 <= i < ev.len(),
        seen_is(seen, origin, ev, policy, i),
        ungranted(ev[i], policy),
        key == resource_text(ev[i].resource@),
        !exists|u: int| 0 <= u < seen.len() && (#[trigger] seen[u]).0 == ev[i].kind && seen[u].1@ == key,
    ensures
        first_ungranted(ev, policy, i),
{
    reveal(seen_is);
    reveal(first_ungranted);
    assert forall|j: int| 0 <= j < i implies !(ungranted(ev[j], policy) && #[trigger] same_access(ev[j], ev[i])) by {
        if ungranted(ev[j], policy) && same_access(ev[j], ev[i]) {
            let u = choose|u: int| 0 <= u < seen.len() && (#[trigger] seen[u]).0 == ev[j].kind
                && seen[u].1@ == resource_text(ev[j].resource@);
            assert(seen[u].0 == ev[i].kind && seen[u].1@ == key);
        }
    }
}

proof fn lemma_seen_grows(
    before: Seq<(AccessKind, String)>,
    origin_before: Seq<int>,
    after: Seq<(AccessKind, String)>,
    origin: Seq<int>,
    ev: Seq<AccessEvent>,
    policy: Policy,
    i: int,
)
    requires
        0 <= i < ev.len(),
        seen_is(before, origin_before, ev, policy, i),
        first_ungranted(ev, policy, i),
        after.len() == before.len() + 1,
        origin == origin_before.push(i),
        forall|t: int| 0 <= t < before.len() ==> after[t] == before[t],
        after[before.len() as int].0 == ev[i].kind,
        after[before.len() as int].1@ == resource_text(ev[i].resource@),
    ensures
        seen_is(after, origin, ev, policy, i + 1),
{
    reveal(seen_is);
    assert forall|t: int| #![trigger after[t]] 0 <= t < after.len() implies {
        &&& 0 <= origin[t] < i + 1
        &&& first_ungranted(ev, policy, origin[t])
        &&& after[t].0 == ev[origin[t]].kind
        &&& after[t].1@ == resource_text(ev[origin[t]].resource@)
    } by {
        if t < before.len() {
            assert(after[t] == before[t]);
            assert(origin[t] == origin_before[t]);
        }
    }
    assert forall|j: int| #![trigger ungranted(ev[j], policy)] 0 <= j < i + 1 && ungranted(ev[j], policy) implies exists|t2: int|
        0 <= t2 < after.len() && (#[trigger] after[t2]).0 == ev[j].kind && after[t2].1@ == resource_text(ev[j].resource@) by {
        if j < i {
            let t2 = choose|t2: int| 0 <= t2 < before.len() && (#[trigger] before[t2]).0 == ev[j].kind
                && before[t2].1@ == resource_text(ev[j].resource@);
            assert(after[t2] == before[t2]);
            assert(0 <= t2 < after.len() && after[t2].0 == ev[j].kind && after[t2].1@ == resource_text(ev[j].resource@));
        } else {
            let t2 = before.len() as int;
            assert(0 <= t2 < after.len() && after[t2].0 == ev[j].kind && after[t2].1@ == resource_text(ev[j].resource@));
        }
    }
}

/// The findings sorted by debug text, stably.
fn sort_findings(chosen: &Vec<Finding>) -> (r: Vec<Finding>)
    ensures
        findings_view(r@) == sort_by_text(findings_view(chosen@)),
{
    let ghost l = findings_view(chosen@);
    let mut sorted: Vec<(String, Finding)> = Vec::new();
    let mut k: usize = 0;
    while k < chosen.len()
        invariant
            k <= chosen@.len(),
            l == findings_view(chosen@),
            sorted@.len() == k,
            findings_view(sorted@.map_values(|e: (String, Finding)| e.1)) == sort_by_text(l.subrange(0, k as int)),
            forall|m: int| 0 <= m < sorted@.len() ==> (#[trigger] sorted@[m]).0@ == finding_text(sorted@[m].1@),
        decreases chosen@.len() - k,
    {
        let f = copy_finding(&chosen[k]);
        let txt = finding_debug(&f);
        let ghost sv = findings_view(sorted@.map_values(|e: (String, Finding)| e.1));
        let tc = chars_of(txt.as_str());
        let mut p: usize = sorted.len();
        while p > 0 && crate::text::str_less(&tc, &chars_of(sorted[p - 1].0.as_str()))
            invariant
                p <= sorted@.len(),
                tc@ == finding_text(f@),
                sv == findings_view(sorted@.map_values(|e: (String, Finding)| e.1)),
                sv.len() == sorted@.len(),
                forall|m: int| 0 <= m < sorted@.len() ==> (#[trigger] sorted@[m]).0@ == finding_text(sorted@[m].1@),
                forall|m: int| p <= m < sv.len() ==> crate::text::str_lt(finding_text(f@), finding_text(#[trigger] sv[m])),
            decreases p,
        {
            assert(sv[p - 1] == sorted@[p - 1].1@);
            p = p - 1;
        }
        proof {
            if p > 0 {
                assert(sv[p - 1] == sorted@[p - 1].1@);
            }
            lemma_insert_at(sv, f@, p as int);
            let pre = l.subrange(0, k + 1);
            assert(pre.drop_last() =~= l.subrange(0, k as int));
            assert(pre.last() == f@);
        }
        let ghost before = sorted@;
        sorted.insert(p, (txt, f));
        proof {
            let now = findings_view(sorted@.map_values(|e: (String, Finding)| e.1));
            assert(now =~= sv.subrange(0, p as int).push(f@) + sv.subrange(p as int, sv.len() as int));
            assert forall|m: int| 0 <= m < sorted@.len() implies (#[trigger] sorted@[m]).0@ == finding_text(sorted@[m].1@) by {
                if m < p {
                    assert(sorted@[m] == before[m]);
                } else if m > p {
                    assert(sorted@[m] == before[m - 1]);
                }
            }
        }
        k = k + 1;
    }
    assert(l.subrange(0, chosen@.len() as int) =~= l);
    let mut r: Vec<Finding> = Vec::new();
    let mut m: usize = 0;
    while m < sorted.len()
        invariant
            m <= sorted@.len(),
            r@.len() == m,
            forall|a: int| 0 <= a < m ==> (#[trigger] r@[a])@ == sorted@[a].1@,
        decreases sorted@.len() - m,
    {
        r.push(copy_finding(&sorted[m].1));
        m = m + 1;
    }
    assert(findings_view(r@) =~= findings_view(sorted@.map_values(|e: (String, Finding)| e.1)));
    r
}

/// Diffs `trace` against `policy` and returns the accesses it does not
/// grant, each once, classified by risk, sorted by their debug text (stably,
/// so that equal texts keep their order in the trace).
pub fn reconcile(trace: &Vec<AccessEvent>, policy: &Policy, target_dir: &PathBuf) -> (r: Vec<Finding>)
    ensures
        findings_view(r@) == sort_by_text(first_findings(trace@, *policy, target_dir@)),
{
    let chosen = first_ungranted_findings(trace, policy, target_dir);
    sort_findings(&chosen)
}

// ---------------------------------------------------------------------------
// What reconciliation promises.

proof fn lemma_insert_contains(s: Seq<FindingView>, f: FindingView, x: FindingView)
    ensures
        insert_by_text(s, f).contains(x) <==> (s.contains(x) || x == f),
    decreases s.len(),
{
    if s.len() == 0 {
        assert(insert_by_text(s, f) == seq![f]);
        assert(seq![f][0] == f);
    } else if crate::text::str_lt(finding_text(f), finding_text(s.last())) {
        let t = s.drop_last();
        lemma_insert_contains(t, f, x);
        vstd::seq_lib::lemma_seq_contains_after_push(insert_by_text(t, f), s.last(), x);
        vstd::seq_lib::lemma_seq_contains_after_push(t, s.last(), x);
        assert(t.push(s.last()) =~= s);
    } else {
        vstd::seq_lib::lemma_seq_contains_after_push(s, f, x);
    }
}

proof fn lemma_sort_contains(l: Seq<FindingView>, x: FindingView)
    ensures
        sort_by_text(l).contains(x) <==> l.contains(x),
    decreases l.len(),
{
    if l.len() > 0 {
        let t = l.drop_last();
        lemma_sort_contains(t, x);
        lemma_insert_contains(sort_by_text(t), l.last(), x);
        vstd::seq_lib::lemma_seq_contains_after_push(t, l.last(), x);
        assert(t.push(l.last()) =~= l);
    }
}

proof fn lemma_first_findings_ungranted(ev: Seq<AccessEvent>, policy: Policy, dir: PathView, x: FindingView)
    requires
        first_findings(ev, policy, dir).contains(x),
    ensures
        exists|i: int| 0 <= i < ev.len() && ungranted(#[trigger] ev[i], policy) && x == finding_of(ev[i], dir),
    decreases ev.len(),
{
    let t = ev.drop_last();
    let rest = first_findings(t, policy, dir);
    if first_ungranted(ev, policy, ev.len() - 1) {
        vstd::seq_lib::lemma_seq_contains_after_push(rest, finding_of(ev.last(), dir), x);
        if x == finding_of(ev.last(), dir) {
            reveal(first_ungranted);
            assert(ungranted(ev[ev.len() - 1], policy));
        } else {
            lemma_first_findings_ungranted(t, policy, dir, x);
            let i = choose|i: int| 0 <= i < t.len() && ungranted(#[trigger] t[i], policy) && x == finding_of(t[i], dir);
            assert(ev[i] == t[i]);
        }
    } else {
        lemma_first_findings_ungranted(t, policy, dir, x);
        let i = choose|i: int| 0 <= i < t.len() && ungranted(#[trigger] t[i], policy) && x == finding_of(t[i], dir);
        assert(ev[i] == t[i]);
    }
}

proof fn lemma_first_is_found(ev: Seq<AccessEvent>, policy: Policy, dir: PathView, k: int)
    requires
        first_ungranted(ev, policy, k),
    ensures
        first_findings(ev, policy, dir).contains(finding_of(ev[k], dir)),
    decreases ev.len(),
{
    assert(0 <= k < ev.len()) by {
        reveal(first_ungranted);
    }
    let t = ev.drop_last();
    let rest = first_findings(t, policy, dir);
    if k == ev.len() - 1 {
        vstd::seq_lib::lemma_seq_contains_after_push(rest, finding_of(ev.last(), dir), finding_of(ev[k], dir));
    } else {
        lemma_first_ungranted_prefix(ev, policy, ev.len() - 1, k);
        assert(ev.subrange(0, ev.len() - 1) =~= t);
        lemma_first_is_found(t, policy, dir, k);
        assert(t[k] == ev[k]);
        if first_ungranted(ev, policy, ev.len() - 1) {
            vstd::seq_lib::lemma_seq_contains_after_push(rest, finding_of(ev.last(), dir), finding_of(ev[k], dir));
        }
    }
}

/// Whether two findings are about the same access: the same kind on the
/// same resource.
pub open spec fn same_key(a: FindingView, b: FindingView) -> bool {
    a.kind == b.kind && resource_text(a.resource) == resource_text(b.resource)
}

/// Whether no two findings of `s` are about the same access.
pub open spec fn distinct_keys(s: Seq<FindingView>) -> bool {
    forall|i: int, j: int| 0 <= i < j < s.len() ==> !same_key(#[trigger] s[i], #[trigger] s[j])
}

/// Whether `s` is in order of the findings' texts.
pub open spec fn sorted_by_text(s: Seq<FindingView>) -> bool {
    forall|i: int, j: int| 0 <= i < j < s.len()
        ==> !crate::text::str_lt(finding_text(#[trigger] s[j]), finding_text(#[trigger] s[i]))
}

proof fn lemma_first_findings_distinct(ev: Seq<AccessEvent>, policy: Policy, dir: PathView)
    ensures
        distinct_keys(first_findings(ev, policy, dir)),
    decreases ev.len(),
{
    if ev.len() > 0 {
        let t = ev.drop_last();
        let rest = first_findings(t, policy, dir);
        lemma_first_findings_distinct(t, policy, dir);
        if first_ungranted(ev, policy, ev.len() - 1) {
            let f = finding_of(ev.last(), dir);
            let now = rest.push(f);
            assert forall|i: int, j: int| 0 <= i < j < now.len() implies !same_key(#[trigger] now[i], #[trigger] now[j]) by {
                if j == now.len() - 1 {
                    let x = rest[i];
                    assert(rest.contains(x));
                    lemma_first_findings_ungranted(t, policy, dir, x);
                    let k = choose|k: int| 0 <= k < t.len() && ungranted(#[trigger] t[k], policy) && x == finding_of(t[k], dir);
                    assert(t[k] == ev[k]);
                    reveal(first_ungranted);
                    if same_key(x, f) {
                        assert(same_access(ev[k], ev[ev.len() - 1]));
                    }
                } else {
                    assert(now[i] == rest[i] && now[j] == rest[j]);
                }
            }
        }
    }
}

proof fn lemma_insert_keeps(s: Seq<FindingView>, f: FindingView)
    requires
        distinct_keys(s),
        sorted_by_text(s),
        forall|i: int| 0 <= i < s.len() ==> !same_key(#[trigger] s[i], f),
    ensures
        distinct_keys(insert_by_text(s, f)),
        sorted_by_text(insert_by_text(s, f)),
    decreases s.len(),
{
    let r = insert_by_text(s, f);
    if s.len() == 0 {
        assert(r == seq![f]);
    } else if crate::text::str_lt(finding_text(f), finding_text(s.last())) {
        let t = s.drop_last();
        let last = s.last();
        assert forall|i: int, j: int| 0 <= i < j < t.len() implies !same_key(#[trigger] t[i], #[trigger] t[j]) by {
            assert(t[i] == s[i] && t[j] == s[j]);
        }
        assert forall|i: int, j: int| 0 <= i < j < t.len()
            implies !crate::text::str_lt(finding_text(#[trigger] t[j]), finding_text(#[trigger] t[i])) by {
            assert(t[i] == s[i] && t[j] == s[j]);
        }
        assert forall|i: int| 0 <= i < t.len() implies !same_key(#[trigger] t[i], f) by {
            assert(t[i] == s[i]);
        }
        lemma_insert_keeps(t, f);
        let u = insert_by_text(t, f);
        assert(r == u.push(last));
        assert forall|i: int| 0 <= i < u.len() implies !same_key(#[trigger] u[i], last)
            && !crate::text::str_lt(finding_text(last), finding_text(u[i])) by {
            let x = u[i];
            assert(u.contains(x));
            lemma_insert_contains(t, f, x);
            if x == f {
                assert(!same_key(s[s.len() - 1], f));
                if crate::text::str_lt(finding_text(last), finding_text(f)) {
                    crate::text::lemma_str_lt_transitive(finding_text(f), finding_text(last), finding_text(f));
                    crate::text::lemma_str_lt_irreflexive(finding_text(f));
                }
            } else {
                let k = choose|k: int| 0 <= k < t.len() && t[k] == x;
                assert(s[k] == x);
                assert(k < s.len() - 1);
                assert(!same_key(s[k], s[s.len() - 1]));
                assert(!crate::text::str_lt(finding_text(s[s.len() - 1]), finding_text(s[k])));
            }
        }
        assert forall|i: int, j: int| 0 <= i < j < r.len() implies !same_key(#[trigger] r[i], #[trigger] r[j]) by {
            if j == r.len() - 1 {
                assert(r[i] == u[i]);
                if same_key(u[i], last) {
                    assert(false);
                }
            } else {
                assert(r[i] == u[i] && r[j] == u[j]);
            }
        }
        assert forall|i: int, j: int| 0 <= i < j < r.len()
            implies !crate::text::str_lt(finding_text(#[trigger] r[j]), finding_text(#[trigger] r[i])) by {
            if j == r.len() - 1 {
                assert(r[i] == u[i]);
            } else {
                assert(r[i] == u[i] && r[j] == u[j]);
            }
        }
    } else {
        assert(r == s.push(f));
        let last = s.last();
        assert forall|i: int, j: int| 0 <= i < j < r.len() implies !same_key(#[trigger] r[i], #[trigger] r[j]) by {
            if j == r.len() - 1 {
                assert(r[i] == s[i]);
            } else {
                assert(r[i] == s[i] && r[j] == s[j]);
            }
        }
        assert forall|i: int, j: int| 0 <= i < j < r.len()
            implies !crate::text::str_lt(finding_text(#[trigger] r[j]), finding_text(#[trigger] r[i])) by {
            if j == r.len() - 1 {
                assert(r[i] == s[i]);
                if crate::text::str_lt(finding_text(f), finding_text(s[i])) {
                    if i < s.len() - 1 {
                        assert(!crate::text::str_lt(finding_text(last), finding_text(s[i])));
                        crate::text::lemma_str_lt_total(finding_text(last), finding_text(s[i]));
                        if finding_text(last) != finding_text(s[i]) {
                            crate::text::lemma_str_lt_transitive(finding_text(f), finding_text(s[i]), finding_text(last));
                        }
                    }
                }
            } else {
                assert(r[i] == s[i] && r[j] == s[j]);
            }
        }
    }
}

proof fn lemma_sort_keeps(l: Seq<FindingView>)
    requires
        distinct_keys(l),
    ensures
        distinct_keys(sort_by_text(l)),
        sorted_by_text(sort_by_text(l)),
    decreases l.len(),
{
    if l.len() > 0 {
        let t = l.drop_last();
        assert forall|i: int, j: int| 0 <= i < j < t.len() implies !same_key(#[trigger] t[i], #[trigger] t[j]) by {
            assert(t[i] == l[i] && t[j] == l[j]);
        }
        lemma_sort_keeps(t);
        let st = sort_by_text(t);
        assert forall|i: int| 0 <= i < st.len() implies !same_key(#[trigger] st[i], l.last()) by {
            let x = st[i];
            assert(st.contains(x));
            lemma_sort_contains(t, x);
            let k = choose|k: int| 0 <= k < t.len() && t[k] == x;
            assert(l[k] == x);
            assert(!same_key(l[k], l[l.len() - 1]));
        }
        lemma_insert_keeps(st, l.last());
    }
}

/// A reconciliation reports each access at most once, and its findings come
/// in order of their texts.
pub proof fn law_findings_are_unique_and_ordered(trace: Seq<AccessEvent>, policy: Policy, target_dir: PathView)
    ensures
        distinct_keys(sort_by_text(first_findings(trace, policy, target_dir))),
        sorted_by_text(sort_by_text(first_findings(trace, policy, target_dir))),
{
    lemma_first_findings_distinct(trace, policy, target_dir);
    lemma_sort_keeps(first_findings(trace, policy, target_dir));
}

/// Every finding of a reconciliation is an access the trace recorded and the
/// policy does not grant: a granted access produces no finding.
pub proof fn law_findings_are_ungranted(trace: Seq<AccessEvent>, policy: Policy, target_dir: PathView, x: FindingView)
    requires
        sort_by_text(first_findings(trace, policy, target_dir)).contains(x),
    ensures
        !granted_spec(x.kind, x.resource, policy),
        exists|i: int| 0 <= i < trace.len() && (#[trigger] trace[i]).kind == x.kind && trace[i].resource@ == x.resource,
{
    lemma_sort_contains(first_findings(trace, policy, target_dir), x);
    lemma_first_findings_ungranted(trace, policy, target_dir, x);
}

/// Every access the trace recorded and the policy does not grant is
/// reported, by a finding for its first occurrence.
pub proof fn law_ungranted_access_is_found(trace: Seq<AccessEvent>, policy: Policy, target_dir: PathView, k: int)
    requires
        0 <= k < trace.len(),
        ungranted(trace[k], policy),
    ensures
        exists|j: int| 0 <= j <= k && #[trigger] same_access(trace[j], trace[k])
            && sort_by_text(first_findings(trace, policy, target_dir)).contains(finding_of(trace[j], target_dir)),
    decreases k,
{
    reveal(first_ungranted);
    if first_ungranted(trace, policy, k) {
        lemma_first_is_found(trace, policy, target_dir, k);
        lemma_sort_contains(first_findings(trace, policy, target_dir), finding_of(trace[k], target_dir));
        assert(same_access(trace[k], trace[k]));
    } else {
        let j = choose|j: int| 0 <= j < k && ungranted(trace[j], policy) && #[trigger] same_access(trace[j], trace[k]);
        law_ungranted_access_is_found(trace, policy, target_dir, j);
        let m = choose|m: int| 0 <= m <= j && #[trigger] same_access(trace[m], trace[j])
            && sort_by_text(first_findings(trace, policy, target_dir)).contains(finding_of(trace[m], target_dir));
        assert(same_access(trace[m], trace[k]));
    }
}

/// A credential or secret path is always rated high risk, whatever the
/// target directory: a program run from the home directory does not make
/// its SSH keys low risk.
pub proof fn law_credential_access_is_high_risk(p: PathView, target_dir: PathView)
    requires
        is_credential_spec(p),
    ensures
        classify_spec(ResourceView::Path(p), target_dir) == RiskView::High("credential or secret path"@),
{
    reveal(classify_spec);
}

/// An access is rated low risk only when it is a path inside the target
/// directory that names no credential; network egress is never low risk.
pub proof fn law_low_risk_is_inside_and_not_secret(resource: ResourceView, target_dir: PathView)
    ensures
        classify_spec(resource, target_dir) == RiskView::Low <==> (resource matches ResourceView::Path(p)
            && !is_credential_spec(p) && starts_with_spec(p, target_dir)),
        resource is Net ==> classify_spec(resource, target_dir) == RiskView::High("network egress"@),
{
    reveal(classify_spec);
}

/// Every finding of a reconciliation on a credential or secret path is
/// rated high risk, so it never reaches a generated profile without the
/// high-risk opt-in.
pub proof fn law_credential_findings_are_high_risk(trace: Seq<AccessEvent>, policy: Policy, target_dir: PathView, x: FindingView)
    requires
        sort_by_text(first_findings(trace, policy, target_dir)).contains(x),
        x.resource matches ResourceView::Path(p) && is_credential_spec(p),
    ensures
        x.risk == RiskView::High("credential or secret path"@),
{
    lemma_sort_contains(first_findings(trace, policy, target_dir), x);
    lemma_first_findings_ungranted(trace, policy, target_dir, x);
    let i = choose|i: int| 0 <= i < trace.len() && ungranted(#[trigger] trace[i], policy) && x == finding_of(trace[i], target_dir);
    reveal(classify_spec);
}

/// The secrets a path is known by: any path whose text holds `.ssh`,
/// `.gnupg`, `.aws`, `.config/gcloud`, `.password-store` or `.mozilla`, or
/// whose last component is `.netrc`, `.git-credentials`, `id_rsa` or
/// `id_ed25519`, is a credential path and so rated high risk.
pub proof fn law_known_secrets_are_credentials(p: PathView, target_dir: PathView)
    requires
        ({
            ||| occurs_in(".ssh"@, render(p))
            ||| occurs_in(".gnupg"@, render(p))
            ||| occurs_in(".aws"@, render(p))
            ||| occurs_in(".config/gcloud"@, render(p))
            ||| occurs_in(".password-store"@, render(p))
            ||| occurs_in(".mozilla"@, render(p))
            ||| file_name_spec(p) matches Some(n) && (n == ".netrc"@ || n == ".git-credentials"@ || n == "id_rsa"@
                || n == "id_ed25519"@)
        }),
    ensures
        is_credential_spec(p),
        classify_spec(ResourceView::Path(p), target_dir) == RiskView::High("credential or secret path"@),
{
    let c = secret_components();
    let n = secret_names();
    assert(c[0] == ".ssh"@ && c[1] == ".gnupg"@ && c[2] == ".aws"@ && c[3] == ".config/gcloud"@
        && c[4] == ".password-store"@ && c[5] == ".mozilla"@);
    assert(n[0] == ".netrc"@ && n[1] == ".git-credentials"@ && n[2] == "id_rsa"@ && n[3] == "id_ed25519"@);
    match file_name_spec(p) {
        Some(x) => {
            if x == ".netrc"@ {
                assert(n.contains(n[0]));
            } else if x == ".git-credentials"@ {
                assert(n.contains(n[1]));
            } else if x == "id_rsa"@ {
                assert(n.contains(n[2]));
            } else if x == "id_ed25519"@ {
                assert(n.contains(n[3]));
            }
        },
        None => {},
    }
    if occurs_in(c[0], render(p)) {
    } else if occurs_in(c[1], render(p)) {
    } else if occurs_in(c[2], render(p)) {
    } else if occurs_in(c[3], render(p)) {
    } else if occurs_in(c[4], render(p)) {
    } else if occurs_in(c[5], render(p)) {
    }
    law_credential_access_is_high_risk(p, target_dir);
}

/// A denial is total: no access of any kind is granted to a path at or
/// beneath a denied path, whatever the grants say.
pub proof fn law_denial_beats_every_grant(policy: Policy, d: int, kind: AccessKind, p: PathView)
    requires
        0 <= d < policy.denied@.len(),
        starts_with_spec(p, policy.denied@[d]@),
    ensures
        !granted_spec(kind, ResourceView::Path(p), policy),
{
    reveal(granted_spec);
    assert(paths_view(policy.denied@)[d] == policy.denied@[d]@);
    assert(denied_by(paths_view(policy.denied@), p));
}

/// A grant covers its whole hierarchy: a filesystem grant with a right
/// gives that right on every path beneath it that no denial covers.
pub proof fn law_grant_covers_its_hierarchy(policy: Policy, g: int, p: PathView)
    requires
        0 <= g < policy.filesystem@.len(),
        starts_with_spec(p, policy.filesystem@[g].path@),
        !denied_by(paths_view(policy.denied@), p),
    ensures
        policy.filesystem@[g].access.read ==> granted_spec(AccessKind::Read, ResourceView::Path(p), policy),
        policy.filesystem@[g].access.write ==> granted_spec(AccessKind::Write, ResourceView::Path(p), policy),
        policy.filesystem@[g].access.execute ==> granted_spec(AccessKind::Execute, ResourceView::Path(p), policy),
{
    reveal(granted_spec);
    assert(policy.filesystem@[g].access.read ==> contains_spec(policy.filesystem@[g].access, read_access()));
    assert(policy.filesystem@[g].access.write ==> contains_spec(policy.filesystem@[g].access, write_access()));
    assert(policy.filesystem@[g].access.execute ==> contains_spec(policy.filesystem@[g].access, execute_access()));
}

} // verus!
