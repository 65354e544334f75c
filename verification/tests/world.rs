use bailey::audit::{envelope, envelope_note, AuditBackend};
use bailey::config::HostEnv;
use bailey::enforce::{
    fs_access_bits, limit_files, note_limits, wants_cgroup, EnforceBackend, LandlockPlan, RunReport, Summary,
    Target,
};
use bailey::isolation::{build_isolation_plan, paths_to_examine, DEFAULT_SHM_BYTES, DEFAULT_TMP_BYTES};
use bailey::network::NetworkMode;
use bailey::path::PathBuf;
use bailey::pathmap::PathMap;
use bailey::policy::{Access, DeviceRule, Egress, EgressRule, FsRule, Policy, ResourceLimits};
use bailey::world::{directory_home, environment, real_home, World, SANDBOX_MARKER};
use std::collections::BTreeMap;

fn env() -> HostEnv {
    HostEnv { vars: vec![("HOME".to_string(), "/home/you".to_string())], cwd: Some(PathBuf::parse("/work")) }
}

#[test]
fn two_directories_of_the_same_name_get_different_homes() {
    let one = directory_home(&PathBuf::parse("/home/you/work/one/app"), &env());
    let two = directory_home(&PathBuf::parse("/home/you/work/two/app"), &env());
    assert_ne!(one, two, "a shared home would leak one project into another");
    assert!(one.display().contains("app-"), "and the name stays navigable: {}", one.display());
}

#[test]
fn read_grant_maps_to_read_and_execute_bits() {
    let read = fs_access_bits(Access::read_only()).unwrap();
    let landlock_read = landlock::AccessFs::from_read(landlock::ABI::V6).bits();
    assert_eq!(read & landlock_read, landlock_read);

    let exec = fs_access_bits(Access::execute_only()).unwrap();
    let execute = enumflags2::BitFlags::from_flag(landlock::AccessFs::Execute).bits();
    assert_eq!(exec & execute, execute);

    assert!(fs_access_bits(Access::empty()).is_none());
}

#[test]
fn plan_includes_devices_and_derives_net_handling() {
    let mut policy = Policy::empty();
    policy.filesystem.push(FsRule {
        path: PathBuf::parse("/usr"),
        access: Access::read_only().union(Access::execute_only()),
        at: None,
    });
    policy.devices.push(DeviceRule { path: PathBuf::parse("/dev/dri"), access: Access::read_only().union(Access::write_only()) });

    let plan = LandlockPlan::from_policy(&policy);
    assert_eq!(plan.filesystem.len(), 2);
    assert!(plan.handle_connect);
    assert!(plan.connect_ports.is_empty());
}

#[test]
fn allowed_ports_become_connect_rules_and_world_areas_are_writable() {
    let mut policy = Policy::empty();
    policy.network.egress = Egress::Allow(vec![
        EgressRule { host: "*".into(), port: Some(443) },
        EgressRule { host: "example.com".into(), port: None },
    ]);
    policy.network.bind_ports = vec![8080];
    let mut plan = LandlockPlan::from_policy(&policy);
    assert_eq!(plan.connect_ports, vec![443]);
    assert!(plan.handle_bind);
    assert_eq!(plan.bind_ports, vec![8080]);

    let world = World {
        home_host: Some(PathBuf::parse("/home/you/.local/share/bailey/x/home")),
        home_inside: PathBuf::parse("/home/you"),
        private_tmp: true,
        private_shm: false,
        cwd: PathBuf::parse("/work"),
        kept_invocation_dir: true,
        terminal: None,
    };
    plan.add_world_grants(&world);
    let rw = (landlock::AccessFs::from_read(landlock::ABI::V6) | landlock::AccessFs::from_write(landlock::ABI::V6)).bits();
    assert_eq!(plan.filesystem, vec![(PathBuf::parse("/home/you"), rw), (PathBuf::parse("/tmp"), rw)]);

    let mut open = Policy::empty();
    open.network.egress = Egress::AllowAll;
    let plan = LandlockPlan::from_policy(&open);
    assert!(!plan.handle_connect);
    assert!(!plan.handle_bind);
}

#[test]
fn the_report_names_each_layer_and_renders_as_json() {
    let backend = EnforceBackend { isolate: true, stop_before_exec: false, summary: Summary::Json, always_cgroup: false };
    let mut plan = backend.plan_run(&Policy::empty(), false);
    assert_eq!(plan.mode, NetworkMode::LandlockOnly);
    assert!(!plan.isolated);
    assert_eq!(plan.report.applied, vec!["landlock", "seccomp"]);
    assert_eq!(plan.report.skipped.len(), 2);
    assert!(backend.isolation_warning(false).is_some());

    let mut limits = ResourceLimits::none();
    limits.memory_bytes = Some(1 << 30);
    note_limits(&mut plan.report, &limits, false, &None);
    assert_eq!(
        plan.report.skipped.last().unwrap(),
        &("resource limits".to_string(), "no writable delegated cgroup".to_string())
    );
    assert_eq!(
        plan.report.to_json(1),
        "{\"applied\":[\"landlock\",\"seccomp\"],\"skipped\":[{\"layer\":\"network namespace\",\"reason\":\"unprivileged user namespaces unavailable, so only TCP is restricted\"},{\"layer\":\"namespace isolation\",\"reason\":\"unprivileged user namespaces unavailable\"},{\"layer\":\"resource limits\",\"reason\":\"no writable delegated cgroup\"}],\"exit_code\":1}"
    );
    let text = plan.report.text(1);
    assert_eq!(text[0], "bailey: enforced: landlock, seccomp");
    assert_eq!(text.last().unwrap(), "bailey: target exited with 1");

    let isolated = EnforceBackend::plain().plan_run(&Policy::empty(), true);
    assert_eq!(isolated.mode, NetworkMode::Isolated);
    assert!(isolated.network_only);
    assert_eq!(isolated.report.applied, vec!["landlock", "seccomp", "network namespace"]);
    let mut report = RunReport::new();
    note_limits(&mut report, &ResourceLimits::none(), false, &None);
    assert!(report.applied.is_empty() && report.skipped.is_empty());
}

#[test]
fn limits_become_control_files() {
    let mut limits = ResourceLimits::none();
    assert!(!wants_cgroup(&limits, false));
    assert!(wants_cgroup(&limits, true));
    limits.memory_bytes = Some(1000);
    limits.cpu_percent = Some(50);
    assert!(wants_cgroup(&limits, false));
    assert_eq!(
        limit_files(&limits),
        vec![
            ("memory.max".to_string(), "1000".to_string()),
            ("cpu.max".to_string(), "50000 100000".to_string())
        ]
    );
}

fn world() -> World {
    World {
        home_host: Some(PathBuf::parse("/data/home")),
        home_inside: PathBuf::parse("/home/you"),
        private_tmp: true,
        private_shm: true,
        cwd: PathBuf::parse("/work"),
        kept_invocation_dir: true,
        terminal: None,
    }
}

#[test]
fn isolation_binds_grants_once_and_covers_nested_denials() {
    let mut policy = Policy::empty();
    for path in ["/usr", "/usr/lib", "/work", "/proc/self", "/missing", "/etc/hosts"] {
        policy.filesystem.push(FsRule { path: PathBuf::parse(path), access: Access::read_only(), at: None });
    }
    policy.devices.push(DeviceRule { path: PathBuf::parse("/dev/null"), access: Access::read_only() });
    policy.denied = vec![PathBuf::parse("/work/secret"), PathBuf::parse("/etc/hosts"), PathBuf::parse("/opt/x")];
    let mut kinds: PathMap<bool> = PathMap::new();
    kinds.insert(PathBuf::parse("/usr"), true);
    kinds.insert(PathBuf::parse("/usr/lib"), true);
    kinds.insert(PathBuf::parse("/work"), true);
    kinds.insert(PathBuf::parse("/work/secret"), true);
    kinds.insert(PathBuf::parse("/etc/hosts"), false);
    kinds.insert(PathBuf::parse("/dev/null"), false);
    let plan = build_isolation_plan(&policy, NetworkMode::Isolated, &world(), &kinds, 42);
    let binds: Vec<(String, bool)> = plan.binds.iter().map(|b| (b.source.display(), b.is_dir)).collect();
    assert_eq!(
        binds,
        vec![("/dev/null".to_string(), false), ("/usr".to_string(), true), ("/work".to_string(), true)]
    );
    let covered: Vec<String> = plan.conceal.iter().map(|c| c.path.display()).collect();
    assert_eq!(covered, vec!["/work/secret"]);
    assert!(plan.network);
    assert_eq!(plan.tmp_bytes, DEFAULT_TMP_BYTES);
    assert_eq!(plan.shm_bytes, DEFAULT_SHM_BYTES);
    assert_eq!(plan.staging.display(), "/tmp/.bailey-root.42");
    assert_eq!(plan.home, Some((PathBuf::parse("/data/home"), PathBuf::parse("/home/you"))));
    assert_eq!(paths_to_examine(&policy).len(), 10);
}

#[test]
fn an_audit_reads_the_targets_own_directory() {
    let target = Target { program: PathBuf::parse("bin/game"), args: Vec::new(), cwd: None };
    let (widened, changed) = envelope(Policy::empty(), &target, &env());
    assert!(changed);
    assert_eq!(widened.filesystem.len(), 1);
    assert_eq!(widened.filesystem[0].path, PathBuf::parse("/work/bin"));
    assert_eq!(widened.filesystem[0].access, Access::read_only());
    assert_eq!(widened.network.egress, Egress::DenyAll, "network policy is untouched");
    assert_eq!(envelope_note(changed), "bailey: audit envelope: policy plus read on the target's own directory");

    let audit = AuditBackend { unconfined: false, isolate: true };
    let enforcer = audit.enforcer();
    assert!(enforcer.stop_before_exec && enforcer.always_cgroup && enforcer.isolate);
    assert_eq!(enforcer.summary, Summary::Quiet);
    assert!(audit.warning().is_none());
}

fn policy_granting(paths: &[&str]) -> Policy {
    let mut policy = Policy::empty();
    for path in paths {
        policy.filesystem.push(FsRule { path: PathBuf::parse(path), access: Access::read_only(), at: None });
    }
    policy
}

fn environment_map(policy: &Policy, world: &World, network: NetworkMode, host: &HostEnv) -> BTreeMap<String, String> {
    environment(policy, world, network, host).into_iter().collect()
}

#[test]
fn private_home_is_used_when_the_policy_says_nothing_about_home() {
    let policy = policy_granting(&["/usr"]);
    let world = World::derive(&PathBuf::parse("/opt/game/game"), &policy, false, &env(), None);
    let home = world.home_host.clone().expect("a private home");
    assert!(home.display().ends_with("bailey/game/home"), "{}", home.display());
    assert_eq!(world.home_inside, home);
}

#[test]
fn isolation_puts_the_private_home_at_the_real_home_path() {
    let policy = policy_granting(&["/usr"]);
    let world = World::derive(&PathBuf::parse("/opt/game/game"), &policy, true, &env(), None);
    assert!(world.home_host.is_some());
    assert_eq!(world.home_inside, real_home(&env()));
}

#[test]
fn granting_the_real_home_opts_out() {
    let home = real_home(&env());
    let policy = policy_granting(&[home.display().as_str()]);
    let world = World::derive(&PathBuf::parse("/opt/game/game"), &policy, true, &env(), None);
    assert!(world.home_host.is_none());
    assert_eq!(world.home_inside, home);
}

#[test]
fn caller_secrets_do_not_reach_the_target() {
    let mut host = env();
    host.vars.push(("BAILEY_TEST_SECRET".to_string(), "hunter2".to_string()));
    let policy = policy_granting(&["/usr"]);
    let world = World::derive(&PathBuf::parse("/opt/game/game"), &policy, false, &host, None);
    let vars = environment(&policy, &world, NetworkMode::Isolated, &host);
    assert!(!vars.iter().any(|(name, _)| name == "BAILEY_TEST_SECRET"));
    assert!(vars.iter().any(|(name, _)| name == "PATH"));
    assert!(vars.iter().any(|(name, _)| name == "HOME"));
}

#[test]
fn named_variables_are_passed_and_denied() {
    let mut host = env();
    host.vars.push(("BAILEY_TEST_PASSED".to_string(), "yes".to_string()));
    host.vars.push(("BAILEY_TEST_PREFIXED".to_string(), "yes".to_string()));
    host.vars.push(("TERM".to_string(), "xterm".to_string()));
    let mut policy = policy_granting(&["/usr"]);
    policy.env.pass = vec!["BAILEY_TEST_PASSED".to_string(), "BAILEY_TEST_PRE*".to_string()];
    policy.env.set.insert("EXPLICIT".to_string(), "value".to_string());
    policy.env.deny = vec!["TERM".to_string()];

    let world = World::derive(&PathBuf::parse("/opt/game/game"), &policy, false, &host, None);
    let vars = environment_map(&policy, &world, NetworkMode::Isolated, &host);
    assert_eq!(vars.get("BAILEY_TEST_PASSED").map(String::as_str), Some("yes"));
    assert_eq!(vars.get("BAILEY_TEST_PREFIXED").map(String::as_str), Some("yes"));
    assert_eq!(vars.get("EXPLICIT").map(String::as_str), Some("value"));
    assert!(!vars.contains_key("TERM"));
}

#[test]
fn the_sandbox_marker_is_in_the_base_set_and_can_be_denied() {
    let policy = policy_granting(&["/usr"]);
    let world = World::derive(&PathBuf::parse("/opt/game/game"), &policy, false, &env(), None);

    let vars = environment_map(&policy, &world, NetworkMode::Isolated, &env());
    assert_eq!(vars.get(SANDBOX_MARKER).map(String::as_str), Some("1"));
    assert_eq!(
        vars.get("BAILEY_SANDBOX_NET").map(String::as_str),
        Some("isolated"),
        "a nested run reads this rather than guessing what it inherited"
    );

    let host = environment_map(&policy, &world, NetworkMode::LandlockOnly, &env());
    assert_eq!(host.get("BAILEY_SANDBOX_NET").map(String::as_str), Some("host"));

    let mut denied = policy.clone();
    denied.env.deny = vec![SANDBOX_MARKER.to_string()];
    let vars = environment_map(&denied, &world, NetworkMode::Isolated, &env());
    assert!(!vars.contains_key(SANDBOX_MARKER), "it is an ordinary variable, removable like any other");
}

#[test]
fn display_variables_follow_their_grant() {
    let mut host = env();
    host.vars.push(("XDG_RUNTIME_DIR".to_string(), "/run/user/4242".to_string()));
    host.vars.push(("WAYLAND_DISPLAY".to_string(), "wayland-0".to_string()));

    let without = policy_granting(&["/usr"]);
    let world = World::derive(&PathBuf::parse("/opt/game/game"), &without, false, &host, None);
    let vars = environment_map(&without, &world, NetworkMode::Isolated, &host);
    assert!(!vars.contains_key("WAYLAND_DISPLAY"));

    let with = policy_granting(&["/usr", "/run/user/4242"]);
    let world = World::derive(&PathBuf::parse("/opt/game/game"), &with, false, &host, None);
    let vars = environment_map(&with, &world, NetworkMode::Isolated, &host);
    assert_eq!(vars.get("WAYLAND_DISPLAY").map(String::as_str), Some("wayland-0"));
}

#[test]
fn a_terminal_is_a_pts_or_the_tty_device() {
    assert!(bailey::world::is_terminal(&PathBuf::parse("/dev/pts/3")));
    assert!(bailey::world::is_terminal(&PathBuf::parse("/dev/tty")));
    assert!(!bailey::world::is_terminal(&PathBuf::parse("/dev/tty1")), "paths compare by component");
    assert!(!bailey::world::is_terminal(&PathBuf::parse("/dev/null")));
    assert!(!bailey::world::is_terminal(&PathBuf::parse("pipe:[1234]")));
}

#[test]
fn the_json_summary_escapes_its_strings() {
    let mut report = RunReport::new();
    report.applied("landlock");
    report.skipped("resource limits", "cannot write \"cpu.max\" \\ here\n\u{1}");
    assert_eq!(
        report.to_json(0),
        "{\"applied\":[\"landlock\"],\"skipped\":[{\"layer\":\"resource limits\",\"reason\":\"cannot write \\\"cpu.max\\\" \\\\ here\\n\\u0001\"}],\"exit_code\":0}"
    );
    let parsed: serde_json::Value = serde_json::from_str(&report.to_json(0)).expect("machine-readable");
    assert_eq!(parsed["skipped"][0]["reason"], "cannot write \"cpu.max\" \\ here\n\u{1}");
}

#[test]
fn a_path_spelled_with_dots_normalizes_to_one_key() {
    assert_eq!(PathBuf::parse("/a/./b/../c").normalize().display(), "/a/c");
    assert_eq!(PathBuf::parse("/..").normalize().display(), "/");
    assert_eq!(PathBuf::parse("/../../etc").normalize().display(), "/etc");
    assert_eq!(PathBuf::parse("../../x").normalize().display(), "../../x");
    assert_eq!(PathBuf::parse("a/../../x").normalize().display(), "../x");
}

#[test]
fn a_truncated_trace_is_refused_before_anything_else() {
    assert_eq!(
        bailey::review::truncation_check(3, false),
        Some("this trace is missing 3 access(es), so a profile generated from it would grant less than the target needs; pass --accept-truncated to proceed anyway".to_string())
    );
    assert_eq!(bailey::review::truncation_check(3, true), None);
    assert_eq!(bailey::review::truncation_check(0, false), None);
}

#[test]
fn only_a_link_or_an_empty_file_gives_way_to_a_link() {
    assert!(bailey::isolation::replaceable_at_link(true, false, 0));
    assert!(bailey::isolation::replaceable_at_link(false, true, 0));
    assert!(!bailey::isolation::replaceable_at_link(false, true, 12));
    assert!(!bailey::isolation::replaceable_at_link(false, false, 0), "a directory stays");
}
