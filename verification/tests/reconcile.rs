use bailey::config::HostEnv;
use bailey::event::{AccessEvent, AccessKind, Resolution, Resource};
use bailey::path::PathBuf;
use bailey::policy::{Access, FsRule, Policy};
use bailey::profile::generate_profile;
use bailey::reconcile::{reconcile, Finding, Risk};

fn event(kind: AccessKind, path: &str) -> AccessEvent {
    AccessEvent {
        kind,
        resource: Resource::Path(PathBuf::parse(path)),
        pid: 1,
        timestamp_ns: 0,
        resolution: Resolution::Absolute,
    }
}

fn net_event(kind: AccessKind, port: u16) -> AccessEvent {
    AccessEvent {
        kind,
        resource: Resource::Net { host: None, port },
        pid: 1,
        timestamp_ns: 0,
        resolution: Resolution::NotApplicable,
    }
}

fn env() -> HostEnv {
    HostEnv { vars: vec![("HOME".to_string(), "/home/you".to_string())], cwd: None }
}

#[test]
fn granted_access_produces_no_finding() {
    let mut policy = Policy::empty();
    policy.filesystem.push(FsRule { path: PathBuf::parse("/game"), access: Access::read_only(), at: None });
    let trace = vec![event(AccessKind::Read, "/game/data.pak")];
    let findings = reconcile(&trace, &policy, &PathBuf::parse("/game"));
    assert!(findings.is_empty());
}

#[test]
fn ungranted_access_is_reported_once() {
    let policy = Policy::empty();
    let trace = vec![event(AccessKind::Read, "/game/data.pak"), event(AccessKind::Read, "/game/data.pak")];
    let findings = reconcile(&trace, &policy, &PathBuf::parse("/game"));
    assert_eq!(findings.len(), 1);
    assert_eq!(findings[0].risk, Risk::Low);
}

#[test]
fn credential_read_is_high_risk() {
    let policy = Policy::empty();
    let trace = vec![event(AccessKind::Read, "/home/user/.ssh/id_rsa")];
    let findings = reconcile(&trace, &policy, &PathBuf::parse("/game"));
    assert_eq!(findings.len(), 1);
    assert!(findings[0].risk.is_high());
}

#[test]
fn egress_is_high_risk() {
    let policy = Policy::empty();
    let trace = vec![net_event(AccessKind::Connect, 443)];
    let findings = reconcile(&trace, &policy, &PathBuf::parse("/game"));
    assert_eq!(findings.len(), 1);
    assert!(findings[0].risk.is_high());
}

#[test]
fn generated_profile_grants_only_given_findings() {
    let findings = vec![Finding {
        kind: AccessKind::Read,
        resource: Resource::Path(PathBuf::parse("/game/data.pak")),
        risk: Risk::Low,
        unresolved: false,
    }];
    let profile = generate_profile(&findings, &env());
    assert!(profile.contains("read = [\"/game/data.pak\"]"));
    assert!(!profile.contains("egress"));
}

#[test]
fn findings_come_out_in_a_fixed_order_whatever_the_trace_order() {
    let policy = Policy::empty();
    let one = vec![event(AccessKind::Read, "/game/b"), event(AccessKind::Write, "/game/a")];
    let two = vec![event(AccessKind::Write, "/game/a"), event(AccessKind::Read, "/game/b")];
    let dir = PathBuf::parse("/game");
    assert_eq!(reconcile(&one, &policy, &dir), reconcile(&two, &policy, &dir));
}

#[test]
fn a_write_to_a_read_grant_is_still_reported() {
    let mut policy = Policy::empty();
    policy.filesystem.push(FsRule { path: PathBuf::parse("/game"), access: Access::read_only(), at: None });
    let trace = vec![event(AccessKind::Write, "/game/save.dat")];
    let findings = reconcile(&trace, &policy, &PathBuf::parse("/game"));
    assert_eq!(findings.len(), 1);
    assert_eq!(findings[0].kind, AccessKind::Write);
}

#[test]
fn a_read_beneath_a_denied_path_is_not_granted() {
    let mut policy = Policy::empty();
    policy.filesystem.push(FsRule { path: PathBuf::parse("/game"), access: Access::read_only(), at: None });
    policy.denied.push(PathBuf::parse("/game/secret"));
    let trace = vec![event(AccessKind::Read, "/game/secret/key"), event(AccessKind::Read, "/game/data.pak")];
    let findings = reconcile(&trace, &policy, &PathBuf::parse("/game"));
    assert_eq!(findings.len(), 1, "a denial is total");
    assert_eq!(findings[0].resource, Resource::Path(PathBuf::parse("/game/secret/key")));
}

#[test]
fn anything_outside_the_target_directory_is_high_risk() {
    let policy = Policy::empty();
    let trace = vec![
        event(AccessKind::Read, "/usr/lib/libfoo.so"),
        event(AccessKind::Read, "/etc/hosts"),
        event(AccessKind::Read, "/game/data.pak"),
    ];
    let findings = reconcile(&trace, &policy, &PathBuf::parse("/game"));
    assert_eq!(findings.len(), 3);
    for f in &findings {
        let inside = f.resource == Resource::Path(PathBuf::parse("/game/data.pak"));
        assert_eq!(f.risk.is_high(), !inside, "{:?}", f.resource);
    }
}

#[test]
fn findings_sort_by_their_debug_text() {
    let policy = Policy::empty();
    let trace = vec![event(AccessKind::Read, "/d/a\u{1}"), event(AccessKind::Read, "/d/a!")];
    let findings = reconcile(&trace, &policy, &PathBuf::parse("/d"));
    assert_eq!(findings.len(), 2);
    assert_eq!(findings[0].resource, Resource::Path(PathBuf::parse("/d/a!")));
    let mut expected: Vec<String> = vec![format!("{:?}", std::path::Path::new("/d/a\u{1}")), format!("{:?}", std::path::Path::new("/d/a!"))];
    expected.sort();
    assert!(expected[0].contains('!'), "the order std's Debug gives");
}
