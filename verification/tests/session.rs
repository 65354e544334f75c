use bailey::hook::{display_relative, snippet, Notice, Shell};
use bailey::hooks::{HookError, Hooks};
use bailey::path::PathBuf;
use bailey::policy::{Egress, EgressRule, Policy};
use bailey::session::{
    host_uid_of_root, ipv6_global_present, nothing_observed, parse_egress_proxy, parse_ipv4, pasta_arguments,
    permit_broker_port, EgressProxyError, PROXY_ADDRESS_V6,
    helper_error, judge_helper, namespace_lack, wants_private_namespace, HelperCandidate, NamespaceLack, HELPER_DIRS,
};
use bailey::size::parse_size;
use bailey::world::SANDBOX_PATH;

#[test]
fn a_private_network_forwards_no_port_in_either_direction() {
    let args = pasta_arguments(Some("169.254.169.1"), true);

    for forwarding in ["-t", "-u", "-T", "-U"] {
        let at = args
            .iter()
            .position(|arg| arg == forwarding)
            .unwrap_or_else(|| panic!("{forwarding} must be named, or it defaults to auto"));
        assert_eq!(args[at + 1], "none", "{forwarding} must forward nothing");
    }

    let at = args
        .iter()
        .position(|arg| arg == "--map-host-loopback")
        .expect("the broker's address is mapped");
    assert_eq!(args[at + 1], "169.254.169.1");
}

#[test]
fn a_plain_private_network_maps_no_host_and_no_absent_route() {
    let args = pasta_arguments(None, false);

    assert!(!args.iter().any(|arg| arg == "--map-host-loopback"));
    assert!(args.iter().any(|arg| arg == "-4"));
    assert!(!args.iter().any(|arg| arg == PROXY_ADDRESS_V6));
}

#[test]
fn permitting_the_broker_port_widens_only_that_port() {
    let mut policy = Policy::empty();
    policy.network.egress = Egress::Allow(vec![EgressRule { host: "*".into(), port: Some(443) }]);
    permit_broker_port(&mut policy, 8443);
    match &policy.network.egress {
        Egress::Allow(rules) => {
            assert!(rules.iter().any(|r| r.port == Some(443)));
            assert!(rules.iter().any(|r| r.port == Some(8443)));
        }
        _ => panic!("expected Allow"),
    }

    let mut open = Policy::empty();
    open.network.egress = Egress::AllowAll;
    permit_broker_port(&mut open, 8443);
    assert_eq!(open.network.egress, Egress::AllowAll);
}

#[test]
fn a_global_v6_address_is_what_marks_the_host_as_reachable() {
    let with_global = "\
fe80000000000000869e56fffe032b71 04 40 20 80    wlan0
00000000000000000000000000000001 01 80 10 80       lo
24001a005b2bdc94869e56fffe032b71 04 80 00 00    wlan0
";
    assert!(ipv6_global_present(with_global));

    let no_global = "\
fe80000000000000869e56fffe032b71 04 40 20 80    wlan0
00000000000000000000000000000001 01 80 10 80       lo
";
    assert!(!ipv6_global_present(no_global));
    assert!(!ipv6_global_present(""));
}

#[test]
fn a_clean_trace_from_a_failed_run_is_not_a_clean_bill_of_health() {
    let worked = nothing_observed(0);
    assert_eq!(worked, "audit: no ungranted access observed");

    let failed = nothing_observed(1);
    assert!(failed.contains("did not do its work"), "{failed}");
    assert!(
        !failed.contains("127 is what a shell returns"),
        "the interpreter hint belongs to 127 alone: {failed}"
    );

    let missing = nothing_observed(127);
    assert!(missing.contains("did not do its work"), "{missing}");
    assert!(missing.contains(SANDBOX_PATH), "{missing}");
}

#[test]
fn a_mapped_root_is_not_real_root() {
    assert_eq!(host_uid_of_root("         0          0 4294967295\n"), Some(0));
    assert_eq!(host_uid_of_root("         0       1000          1\n"), Some(1000));
    assert_eq!(host_uid_of_root("      1000       1000          1\n"), None);
    assert_eq!(host_uid_of_root(""), None);
}

#[test]
fn size_parsing() {
    assert_eq!(parse_size(&"512".to_string()).unwrap(), 512);
    assert_eq!(parse_size(&"2GiB".to_string()).unwrap(), 2 * 1024 * 1024 * 1024);
    assert_eq!(parse_size(&"1 MB".to_string()).unwrap(), 1_000_000);
    assert!(parse_size(&"2Gigs".to_string()).is_err());
}

#[test]
fn the_snippets_carry_what_the_flags_asked_for() {
    let none: Vec<String> = Vec::new();
    let plain = snippet(Shell::Fish, false, false, &none);
    assert!(plain.contains("__bailey_hook"));
    assert!(!plain.contains("__bailey_hook_ask 1"), "asking is opt-in: {plain}");

    let asking = snippet(Shell::Fish, true, false, &none);
    assert!(asking.contains("set -g __bailey_hook_ask 1"));

    let bash = snippet(Shell::Bash, true, false, &none);
    assert!(bash.contains("__bailey_hook_ask=1"));
    assert!(bash.contains("PROMPT_COMMAND"));
}

#[test]
fn asking_is_opt_in() {
    let none: Vec<String> = Vec::new();
    let plain = snippet(Shell::Fish, false, false, &none);
    assert!(!plain.contains("__bailey_hook_ask 1"), "a cd is not a decision point: {plain}");
    let asking = snippet(Shell::Fish, true, false, &none);
    assert!(asking.contains("set -g __bailey_hook_ask 1"));
}

#[test]
fn porcelain_carries_the_state_and_the_message() {
    assert_eq!(Notice::Silent.porcelain(), "");
    assert_eq!(Notice::Ready("hi".into()).porcelain(), "ready\thi");
    assert_eq!(Notice::Info("hi".into()).porcelain(), "info\thi");
}

#[test]
fn a_config_path_is_shown_the_way_it_would_be_typed() {
    assert_eq!(
        display_relative(&PathBuf::parse("/work/bailey.toml"), &PathBuf::parse("/work")),
        "./bailey.toml"
    );
    assert_eq!(
        display_relative(&PathBuf::parse("/other/bailey.toml"), &PathBuf::parse("/work")),
        "/other/bailey.toml"
    );
}

/// Stands in for `sh -c` for the commands these tests run: `true`, and
/// `exit N`.
fn shell(command: &String, _env: &Vec<(String, String)>) -> Result<i32, String> {
    if command == "true" {
        Ok(0)
    } else if let Some(code) = command.strip_prefix("exit ") {
        code.trim().parse::<i32>().map_err(|err| err.to_string())
    } else {
        Ok(127)
    }
}

#[test]
fn pre_launch_aborts_on_failure() {
    let mut hooks = Hooks::none();
    hooks.pre_launch = vec!["exit 1".into()];
    assert!(matches!(hooks.run_pre_launch(&shell), Err(HookError::Failed { code: 1, .. })));
}

#[test]
fn pre_launch_succeeds_when_all_pass() {
    let mut hooks = Hooks::none();
    hooks.pre_launch = vec!["true".into(), "true".into()];
    assert!(hooks.run_pre_launch(&shell).is_ok());
}

#[test]
fn hooks_stop_at_the_first_failure_and_carry_their_variables() {
    let ran = std::cell::RefCell::new(Vec::<(String, Vec<(String, String)>)>::new());
    let record = |command: &String, env: &Vec<(String, String)>| -> Result<i32, String> {
        ran.borrow_mut().push((command.clone(), env.clone()));
        if command == "fail" { Ok(3) } else { Ok(0) }
    };
    let mut hooks = Hooks::none();
    hooks.post_exit = vec!["one".into(), "fail".into(), "never".into()];
    match hooks.run_post_exit(-2, &record) {
        Err(HookError::Failed { command, code }) => {
            assert_eq!(command, "fail");
            assert_eq!(code, 3);
        }
        other => panic!("expected the second command to fail: {other:?}"),
    }
    let seen = ran.borrow().clone();
    assert_eq!(seen.len(), 2, "nothing runs after a failure");
    assert_eq!(seen[0].1, vec![("BAILEY_EXIT_CODE".to_string(), "-2".to_string())]);

    ran.borrow_mut().clear();
    hooks.on_violation = vec!["report".into()];
    assert!(hooks.run_on_violation("read /secret", &record).is_ok());
    assert_eq!(ran.borrow()[0].1, vec![("BAILEY_VIOLATION".to_string(), "read /secret".to_string())]);

    let refuse = |_: &String, _: &Vec<(String, String)>| -> Result<i32, String> { Err("no sh".to_string()) };
    match hooks.run_on_violation("x", &refuse) {
        Err(HookError::Spawn { command, reason }) => {
            assert_eq!(command, "report");
            assert_eq!(reason, "no sh");
        }
        other => panic!("expected a spawn failure: {other:?}"),
    }
}

#[test]
fn an_egress_proxy_value_parses_into_an_address_and_port() {
    assert!(matches!(parse_egress_proxy("169.254.169.1:8443"), Ok(((169, 254, 169, 1), 8443))));
    assert!(parse_egress_proxy("169.254.169.1").is_err()); // no port
    assert!(parse_egress_proxy("not-an-addr:443").is_err()); // not IPv4
    // A Landlock rule on port 0 reads as any port, so a broker named that
    // way would widen egress instead of bounding it.
    assert!(parse_egress_proxy("169.254.169.1:0").is_err());
    assert!(parse_egress_proxy("169.254.169.1:70000").is_err()); // out of range
}

#[test]
fn each_refused_egress_proxy_value_names_its_fault() {
    let message = |value: &str| match parse_egress_proxy(value) {
        Ok(_) => panic!("{value} should be refused"),
        Err(error) => error.message(),
    };
    assert_eq!(message("169.254.169.1"), "--egress-proxy must be ADDR:PORT, got \"169.254.169.1\"");
    assert_eq!(message("not-an-addr:443"), "--egress-proxy address is not IPv4: \"not-an-addr\"");
    assert_eq!(message("10.0.0.1:http"), "--egress-proxy port is not a port: \"http\"");
    assert_eq!(message("10.0.0.1:0"), "--egress-proxy port 0 is not a port a broker listens on");
    assert!(matches!(parse_egress_proxy("10.0.0.1:"), Err(EgressProxyError::NotAPort(_))));
    // The split is at the last colon, so an IPv6-looking address is no IPv4.
    assert!(matches!(parse_egress_proxy("::1:80"), Err(EgressProxyError::NotIpv4(_))));
    assert!(matches!(parse_egress_proxy("10.0.0.1:+80"), Ok(((10, 0, 0, 1), 80))));
    assert!(matches!(parse_egress_proxy("10.0.0.1:65535"), Ok(((10, 0, 0, 1), 65535))));
}

#[test]
fn a_dotted_quad_is_four_plain_octets() {
    let ipv4 = |s: &str| parse_ipv4(&s.chars().collect());
    assert_eq!(ipv4("0.0.0.0"), Some((0, 0, 0, 0)));
    assert_eq!(ipv4("255.255.255.255"), Some((255, 255, 255, 255)));
    assert_eq!(ipv4("256.0.0.1"), None);
    assert_eq!(ipv4("01.0.0.1"), None, "a leading zero is refused");
    assert_eq!(ipv4("1.2.3"), None);
    assert_eq!(ipv4("1.2.3.4.5"), None);
    assert_eq!(ipv4("1..3.4"), None);
    assert_eq!(ipv4("+1.2.3.4"), None);
    assert_eq!(ipv4("1000.2.3.4"), None);
}

#[test]
fn a_helper_is_taken_only_from_trusted_owners_and_modes() {
    assert!(HELPER_DIRS.iter().all(|dir| dir.starts_with('/')), "never a relative directory, never PATH");
    assert_eq!(judge_helper(true, 0o755, 0, 1000, 65534), HelperCandidate::Accept);
    assert_eq!(judge_helper(true, 0o700, 1000, 1000, 65534), HelperCandidate::Accept);
    assert_eq!(judge_helper(true, 0o755, 65534, 1000, 65534), HelperCandidate::Accept);
    assert_eq!(judge_helper(true, 0o755, 42, 1000, 65534), HelperCandidate::Reject);
    assert_eq!(judge_helper(true, 0o775, 0, 1000, 65534), HelperCandidate::Reject, "group-writable");
    assert_eq!(judge_helper(true, 0o757, 0, 1000, 65534), HelperCandidate::Reject, "world-writable");
    assert_eq!(judge_helper(true, 0o644, 0, 1000, 65534), HelperCandidate::Skip, "not executable");
    assert_eq!(judge_helper(false, 0o755, 0, 1000, 65534), HelperCandidate::Skip, "not a file");
}

#[test]
fn a_missing_helper_is_explained() {
    assert_eq!(helper_error("pasta", &Vec::new()), "`pasta` was not found in a trusted location");
    assert_eq!(
        helper_error("nft", &vec!["/usr/sbin/nft".to_string(), "/sbin/nft".to_string()]),
        "`nft` was found at /usr/sbin/nft, /sbin/nft but is writable by someone other than its owner; refusing to run it"
    );
}

#[test]
fn a_hook_error_names_the_command_and_what_went_wrong() {
    let failed = HookError::Failed { command: "make check".to_string(), code: -1 };
    assert_eq!(failed.message(), "hook `make check` exited with status -1");
    let spawn = HookError::Spawn { command: "notify".to_string(), reason: "no sh".to_string() };
    assert_eq!(spawn.message(), "failed to spawn hook `notify`: no sh");
}

#[test]
fn an_egress_proxy_implies_the_private_namespace() {
    let open = Egress::AllowAll;
    let closed = Egress::DenyAll;
    assert!(wants_private_namespace(true, false, false, &open));
    assert!(wants_private_namespace(false, true, false, &open), "an egress proxy implies --proxy-net");
    assert!(!wants_private_namespace(false, false, false, &open), "nothing asked for");
    assert!(!wants_private_namespace(true, true, true, &open), "--no-proxy-net wins");
    assert!(!wants_private_namespace(true, false, false, &closed), "nothing to hide when egress is denied");
    assert!(wants_private_namespace(false, true, false, &closed), "but a broker still needs the namespace");
}

#[test]
fn a_missing_namespace_piece_refuses_only_a_proxied_run() {
    assert_eq!(
        namespace_lack(NamespaceLack::Pasta, true),
        Err("--egress-proxy needs pasta, which is not in a trusted location; the run is refused".to_string())
    );
    assert!(namespace_lack(NamespaceLack::Pasta, false).unwrap().starts_with("bailey: warning: --proxy-net"));
    assert_eq!(
        namespace_lack(NamespaceLack::UserNamespaces, true),
        Err("--egress-proxy needs user namespaces, which are unavailable; the run is refused".to_string())
    );
    assert_eq!(
        namespace_lack(NamespaceLack::UserNamespaces, false),
        Ok("bailey: warning: --proxy-net needs user namespaces, which are unavailable, so the host address stays visible"
            .to_string())
    );
}

#[test]
fn a_shell_session_runs_the_callers_shell() {
    let with = |vars: Vec<(&str, &str)>| bailey::config::HostEnv {
        vars: vars.into_iter().map(|(k, v)| (k.to_string(), v.to_string())).collect(),
        cwd: None,
    };
    let fish = with(vec![("SHELL", "/usr/bin/fish")]);
    assert_eq!(bailey::session::shell_name(Some("zsh"), &fish), "zsh");
    assert_eq!(bailey::session::shell_name(None, &fish), "/usr/bin/fish");
    assert_eq!(bailey::session::shell_name(None, &with(vec![("SHELL", "")])), "/bin/sh");
    assert_eq!(bailey::session::shell_name(None, &with(Vec::new())), "/bin/sh");
}
