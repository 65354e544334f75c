use bailey::audit::policy_with_own_storage;
use bailey::config::HostEnv;
use bailey::event::{AccessKind, Resource};
use bailey::network::NetworkMode;
use bailey::path::PathBuf;
use bailey::policy::{Access, Egress, EgressRule, FsRule, Policy};
use bailey::resolve::{Origin, Source};
use bailey::reconcile::{Finding, Risk};
use bailey::review::{counts, findings_text, generation, select_findings, sources_text, untrusted_report};
use bailey::session::{hooks_report, home_granted_warning, nesting_note, target_denied_warning};
use bailey::show::policy_text;
use bailey::trust::Rejected;
use bailey::world::World;

fn finding(path: &str, risk: Risk, unresolved: bool) -> Finding {
    Finding { kind: AccessKind::Read, resource: Resource::Path(PathBuf::parse(path)), risk, unresolved }
}

fn env() -> HostEnv {
    HostEnv { vars: vec![("HOME".to_string(), "/home/you".to_string())], cwd: Some(PathBuf::parse("/work")) }
}

fn sample() -> Vec<Finding> {
    vec![
        finding("/game/data.pak", Risk::Low, false),
        finding("/home/you/.ssh/id_rsa", Risk::High("credential".to_string()), false),
        finding("data/x", Risk::Low, true),
    ]
}

#[test]
fn high_risk_findings_need_the_opt_in() {
    let fs = sample();
    let without = select_findings(&fs, false);
    assert_eq!(without.len(), 2);
    assert!(without.iter().all(|f| !f.risk.is_high()));
    assert_eq!(select_findings(&fs, true).len(), 3);
    assert_eq!(counts(&fs), (1, 1));
}

#[test]
fn a_truncated_trace_is_refused_unless_accepted() {
    let fs = sample();
    let err = generation(3, false, &fs, false, None, false, &env()).unwrap_err();
    assert_eq!(
        err,
        "this trace is missing 3 access(es), so a profile generated from it would grant less than the target needs; pass --accept-truncated to proceed anyway"
    );
    let (notes, text) = generation(3, true, &fs, false, Some("-p native-game".to_string()), true, &env()).unwrap();
    assert_eq!(notes.len(), 2);
    assert!(notes[0].starts_with("bailey: excluded 1 high-risk access(es)"));
    assert!(notes[1].starts_with("bailey: skipped 1 access(es)"));
    assert!(text.starts_with("# Generated from an incomplete trace: 3 access(es) were not recorded.\n# Grants what `-p native-game` did not."));
    assert!(text.contains("# The environment is not generated"));
    assert!(!text.contains("id_rsa"), "{text}");
}

#[test]
fn findings_are_reported_in_groups() {
    let lines = findings_text(&sample(), 0);
    assert_eq!(lines[0], "audit: 3 ungranted access(es) observed");
    assert_eq!(lines[1], "");
    assert_eq!(lines[2], "HIGH RISK (review before granting):");
    assert_eq!(lines[3], "  [Read] /home/you/.ssh/id_rsa (credential)");
    assert_eq!(lines[5], "routine (safe to grant):");
    assert_eq!(lines[6], "  [Read] /game/data.pak");
    assert_eq!(lines[8], "unresolved (relative paths whose directory could not be read):");
    assert_eq!(lines[9], "  [Read] data/x");
    let failed = findings_text(&sample(), 2);
    assert_eq!(failed[0], "audit: the target exited 2, so this trace may stop short of what it needs");
    assert_eq!(findings_text(&Vec::new(), 0), vec!["audit: no ungranted access observed"]);
}

#[test]
fn skipped_layers_come_with_their_remedy() {
    let sources = vec![
        Source { path: PathBuf::parse("/home/you/.config/bailey/config.toml"), origin: Origin::Global, rejected: None },
        Source { path: PathBuf::parse("/work/bailey.toml"), origin: Origin::Target, rejected: Some(Rejected::Untrusted) },
    ];
    let lines = sources_text("untrusted", &sources);
    assert_eq!(lines[0], "profile base: untrusted");
    assert_eq!(lines[1], "config layers (low to high precedence):");
    assert_eq!(lines[2], "  /home/you/.config/bailey/config.toml (global)");
    assert!(lines[3].starts_with("  /work/bailey.toml (target) [not applied: "));
    assert_eq!(lines[5], "to apply what was skipped:");
    assert_eq!(lines[6], "  bailey trust /work/bailey.toml");
    assert_eq!(lines.last().unwrap(), "");
    let none = sources_text("untrusted", &Vec::new());
    assert_eq!(none, vec!["profile base: untrusted", "config layers: (none)", ""]);

    let warned = untrusted_report(&sources);
    assert_eq!(warned.len(), 2);
    assert!(warned[0].starts_with("bailey: not applying `/work/bailey.toml`: "));
    assert_eq!(warned[1], "bailey:   bailey trust /work/bailey.toml");
}

#[test]
fn pre_run_warnings_say_what_they_are_about() {
    let mut policy = Policy::empty();
    policy.denied = vec![PathBuf::parse("/opt")];
    assert_eq!(
        target_denied_warning(&policy, &PathBuf::parse("/opt/game/game"), &env()),
        Some("bailey: warning: the policy denies the target `/opt/game/game`; it will not start".to_string())
    );
    assert_eq!(target_denied_warning(&policy, &PathBuf::parse("/usr/bin/true"), &env()), None);
    assert!(home_granted_warning(&PathBuf::parse("/home"), &env()).unwrap().contains("`/home`"));
    assert_eq!(home_granted_warning(&PathBuf::parse("/work"), &env()), None);
    assert_eq!(nesting_note(&env()), None);
    let nested = HostEnv { vars: vec![("BAILEY_SANDBOX_DIR".to_string(), "/work".to_string())], cwd: None };
    assert!(nesting_note(&nested).unwrap().starts_with("bailey: note: already inside a sandbox for `/work`."));
}

#[test]
fn a_configs_outside_commands_are_listed() {
    let lines = hooks_report("[hooks]\npre-launch = \"./setup.sh\"\npost-exit = [\"a\", 1, \"b\"]\n");
    assert_eq!(
        lines,
        vec![
            "this config runs commands outside the sandbox, as you:",
            "  pre-launch: ./setup.sh",
            "  post-exit: a",
            "  post-exit: b",
        ]
    );
    assert!(hooks_report("[filesystem]\nread = []\n").is_empty());
    assert!(hooks_report("not toml [").is_empty());
}

#[test]
fn an_audit_grants_the_sandboxs_own_storage() {
    let policy = Policy::empty();
    let effective =
        policy_with_own_storage(policy, &PathBuf::parse("/opt/game/game"), &env(), Some(PathBuf::parse("/dev/pts/3")));
    assert_eq!(effective.filesystem.len(), 2);
    assert_eq!(effective.filesystem[1].path, PathBuf::parse("/dev/pts/3"));
    assert_eq!(effective.filesystem[1].access, Access::read_only().union(Access::write_only()));
}

#[test]
fn the_policy_is_shown_with_what_each_part_needs() {
    let mut policy = Policy::empty();
    policy.filesystem.push(FsRule { path: PathBuf::parse("/work"), access: Access::read_only().union(Access::write_only()), at: None });
    policy.read_only = vec![PathBuf::parse("/work/keep")];
    policy.denied = vec![PathBuf::parse("/work/secret")];
    policy.network.egress = Egress::Allow(vec![EgressRule { host: "*".into(), port: Some(443) }]);
    policy.network.bind_ports = vec![1, 2];
    let world = World::derive(&PathBuf::parse("/opt/game/game"), &policy, false, &env(), None);
    let lines = policy_text(&policy, NetworkMode::LandlockOnly, &world, &env());
    assert_eq!(lines[0], "filesystem:");
    assert_eq!(lines[1], "  rw- /work");
    assert_eq!(lines[3], "  r-- /work/keep  (inside a writable grant: needs isolation)");
    assert_eq!(lines[5], "  --- /work/secret  (nested under a grant: needs isolation)");
    assert_eq!(lines[7], "  egress: Allow([EgressRule { host: \"*\", port: Some(443) }])");
    assert_eq!(lines[8], "  bind_ports: [1, 2]");
    assert!(lines.iter().any(|l| l == "devices:"));
    assert!(lines.iter().any(|l| l == "  (none)"));
    assert!(lines.iter().any(|l| l.starts_with("resources: ResourceLimits { memory_bytes: None")));
    assert!(lines.iter().any(|l| l == "environment:"));
    assert!(lines.iter().any(|l| l.starts_with("  PATH=") && l.ends_with("(base)")));
}
