use bailey::seccomp::{build_seccomp_filter, denied_syscalls, Arch, Syscall};
use bailey::cgroup::{needed_controllers, own_from, search_order};
use bailey::network::{select, NetworkMode};
use bailey::policy::{Egress, EgressRule, NetworkPolicy, Policy, ResourceLimits};
use bailey::probe::{doctor_report, probe, Capabilities, HelperStatus, Readings};

fn policy_with(network: NetworkPolicy) -> Policy {
    let mut policy = Policy::empty();
    policy.network = network;
    policy
}

#[test]
fn controllers_follow_the_limits_that_are_set() {
    let mut limits = ResourceLimits::none();
    limits.memory_bytes = Some(1);
    assert_eq!(needed_controllers(&limits), vec!["memory"]);

    let mut all = ResourceLimits::none();
    all.memory_bytes = Some(1);
    all.pids_max = Some(2);
    all.cpu_percent = Some(3);
    assert_eq!(needed_controllers(&all), vec!["memory", "pids", "cpu"]);
    assert!(needed_controllers(&ResourceLimits::none()).is_empty());
}

#[test]
fn denied_egress_selects_the_namespace() {
    let policy = policy_with(NetworkPolicy::deny_all());
    assert_eq!(select(&policy, true), NetworkMode::Isolated);
}

#[test]
fn without_user_namespaces_it_falls_back() {
    let policy = policy_with(NetworkPolicy::deny_all());
    assert_eq!(select(&policy, false), NetworkMode::LandlockOnly);
}

#[test]
fn allowed_egress_stays_on_landlock() {
    let policy = policy_with(NetworkPolicy {
        egress: Egress::Allow(vec![EgressRule { host: "*".into(), port: Some(443) }]),
        bind_ports: Vec::new(),
    });
    assert_eq!(select(&policy, true), NetworkMode::LandlockOnly);
}

#[test]
fn a_bound_port_stays_on_landlock() {
    let policy = policy_with(NetworkPolicy { egress: Egress::DenyAll, bind_ports: vec![27015] });
    assert_eq!(select(&policy, true), NetworkMode::LandlockOnly);
}

#[test]
fn probe_does_not_panic() {
    let _ = probe(Readings {
        landlock_version: -1,
        unprivileged_userns: false,
        btf: false,
        cgroup_delegated: false,
        kmsg_readable: false,
        helper: None,
    });
}

#[test]
fn abi_thresholds_follow_the_reported_level() {
    let with = |abi| Capabilities {
        landlock_abi: abi,
        unprivileged_userns: false,
        btf: false,
        cgroup_delegated: false,
        denial_log_readable: true,
        helper: HelperStatus::Missing,
    };

    assert!(!with(None).landlock_network());
    assert!(!with(Some(3)).landlock_network());
    assert!(with(Some(4)).landlock_network());
    assert!(!with(Some(5)).landlock_scope());
    assert!(with(Some(6)).landlock_scope());
    assert!(!with(Some(6)).violation_hooks_possible());
    assert!(with(Some(7)).violation_hooks_possible());
}

#[test]
fn probe_reads_the_landlock_version_as_the_abi() {
    let caps = probe(Readings {
        landlock_version: 6,
        unprivileged_userns: true,
        btf: true,
        cgroup_delegated: false,
        kmsg_readable: false,
        helper: None,
    });
    assert_eq!(caps.landlock_abi, Some(6));
    assert!(caps.unprivileged_userns);
    assert_eq!(caps.helper, HelperStatus::Missing);
    let none = probe(Readings {
        landlock_version: -38,
        unprivileged_userns: false,
        btf: false,
        cgroup_delegated: false,
        kmsg_readable: false,
        helper: None,
    });
    assert_eq!(none.landlock_abi, None);
}

#[test]
fn connectivity_never_gets_the_isolated_namespace() {
    let open = policy_with(NetworkPolicy { egress: Egress::AllowAll, bind_ports: Vec::new() });
    assert_eq!(select(&open, true), NetworkMode::LandlockOnly);
    assert_eq!(select(&open, false), NetworkMode::LandlockOnly);
}

#[test]
fn the_own_cgroup_is_read_from_the_unified_entry() {
    let content = "12:memory:/legacy\n0::/user.slice/user-1000.slice/session-2.scope\n";
    let own = own_from(content).expect("a unified entry");
    assert_eq!(own.display(), "/sys/fs/cgroup/user.slice/user-1000.slice/session-2.scope");
    assert_eq!(own_from("0::/\n").unwrap().display(), "/sys/fs/cgroup");
    assert!(own_from("1:name=systemd:/x\n").is_none());
}

#[test]
fn the_search_does_not_escape_the_hierarchy() {
    let own = own_from("0::/user.slice/user-1000.slice/app.scope\n").unwrap();
    let order: Vec<String> = search_order(&own).iter().map(|p| p.display()).collect();
    assert_eq!(
        order,
        vec!["/sys/fs/cgroup/user.slice/user-1000.slice", "/sys/fs/cgroup/user.slice", "/sys/fs/cgroup"]
    );
    assert!(order.iter().all(|p| p.starts_with("/sys/fs/cgroup")));
    assert!(search_order(&bailey::path::PathBuf::parse("/tmp/elsewhere/x")).is_empty());
}

fn capabilities(abi: Option<u32>, healthy: bool, helper: HelperStatus) -> Capabilities {
    Capabilities {
        landlock_abi: abi,
        unprivileged_userns: healthy,
        btf: healthy,
        cgroup_delegated: healthy,
        denial_log_readable: healthy,
        helper,
    }
}

#[test]
fn doctor_reports_every_mechanism_with_its_consequence() {
    let hosts = [
        capabilities(Some(6), true, HelperStatus::Ready(bailey::path::PathBuf::parse("/usr/libexec/bailey-helper"))),
        capabilities(None, false, HelperStatus::Missing),
        capabilities(Some(3), false, HelperStatus::NotPermitted(bailey::path::PathBuf::parse("/opt/helper"))),
    ];
    for caps in hosts {
        let report = doctor_report(&caps).join("\n");
        for mechanism in ["landlock", "user namespaces", "cgroup delegation", "kernel BTF", "helper"] {
            assert!(report.contains(mechanism), "doctor must report {mechanism}: {report}");
        }
    }
}

#[test]
fn doctor_explains_what_a_missing_feature_costs() {
    let caps = capabilities(Some(3), false, HelperStatus::Missing);
    let report = doctor_report(&caps).join("\n");
    let mut gaps = 0;
    for (line, next) in report.lines().zip(report.lines().skip(1)) {
        if line.trim_end().ends_with(": no") {
            gaps += 1;
            assert!(next.starts_with("    "), "`{}` reports a gap without saying what it costs", line.trim());
        }
    }
    assert_eq!(gaps, 3);
    assert!(report.contains("network policy is NOT enforced (needs ABI 4, Linux 6.7)"));
    assert!(!report.contains("Everything bailey uses"));
}

#[test]
fn a_healthy_host_is_told_so() {
    let caps = capabilities(Some(7), true, HelperStatus::Ready(bailey::path::PathBuf::parse("/usr/libexec/h")));
    let report = doctor_report(&caps);
    assert_eq!(report[0], "kernel:");
    assert_eq!(report[1], "  landlock: ABI 7");
    assert_eq!(report[2], "  user namespaces: yes");
    assert_eq!(report.last().unwrap(), "\nEverything bailey uses is available on this host.");
    assert!(report.contains(&"  helper: ready (/usr/libexec/h)".to_string()));
}

#[test]
fn the_helper_is_looked_for_in_the_documented_order() {
    let env = bailey::config::HostEnv {
        vars: vec![
            ("BAILEY_BPF_HELPER".to_string(), "/opt/h/helper".to_string()),
            ("PATH".to_string(), "/usr/local/bin:/usr/bin".to_string()),
        ],
        cwd: None,
    };
    let found: Vec<String> = bailey::probe::helper_candidates(&env, Some(bailey::path::PathBuf::parse("/usr/lib/bailey")))
        .iter()
        .map(|p| p.display())
        .collect();
    assert_eq!(
        found,
        vec![
            "/opt/h/helper",
            "/usr/lib/bailey/bailey-bpf-helper",
            "/usr/local/bin/bailey-bpf-helper",
            "/usr/bin/bailey-bpf-helper"
        ]
    );
    let bare = bailey::config::HostEnv { vars: Vec::new(), cwd: None };
    assert_eq!(bailey::probe::helper_candidates(&bare, None).len(), 1, "an unset PATH is one empty entry");
}

#[test]
fn seccomp_filter_builds() {
    let denied = denied_syscalls();
    assert_eq!(denied.len(), 24);
    assert_eq!(denied[0], Syscall::Ptrace);
    assert_eq!(denied[23], Syscall::Acct);
    let numbers: Vec<i64> = (0..denied.len() as i64).map(|i| 100 + i).collect();
    let program = build_seccomp_filter(&numbers, Arch::X86_64).expect("the filter compiles");
    assert!(program.len() > numbers.len(), "a check and a verdict for each refused call");
    assert!(program.iter().any(|&(_, _, _, k)| k == 100), "each refused number is compared against");
}

#[test]
fn a_filter_compiles_for_each_architecture() {
    let numbers = vec![101i64, 102];
    let x86 = build_seccomp_filter(&numbers, Arch::X86_64).unwrap();
    let arm = build_seccomp_filter(&numbers, Arch::Aarch64).unwrap();
    assert_ne!(x86, arm, "the architecture check differs");
}
