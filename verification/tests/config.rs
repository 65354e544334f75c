use bailey::config::HostEnv;
use bailey::merge::{merge, ConfigError, Layer};
use bailey::path::PathBuf;
use bailey::policy::{Access, Egress, EgressRule};
use bailey::profiles::{all, base_layers};
use bailey::resolve::{resolve_found, Origin, Source};
use bailey::trust::Rejected;
use bailey::resolve::{candidate_fits, load_layer, resolve, resolve_with_bases, target_candidates, target_error};

fn env() -> HostEnv {
    HostEnv {
        vars: vec![
            ("HOME".to_string(), "/home/you".to_string()),
            ("BAILEY_TEST_DIR".to_string(), "/run/user/4242".to_string()),
            ("BAILEY_TEST_BIN".to_string(), "/opt/toolchain/bin".to_string()),
        ],
        cwd: Some(PathBuf::parse("/work/here")),
    }
}

fn layer(base: &str, toml_src: &str) -> Layer {
    let path = PathBuf::parse(base).join(&PathBuf::parse("bailey.toml"));
    match load_layer(&path, toml_src) {
        Ok(layer) => layer,
        Err(err) => panic!("valid test config: {}", err.message()),
    }
}

fn merged(layers: Vec<Layer>) -> bailey::merge::Resolved {
    match merge(&layers, &env()) {
        Ok(resolved) => resolved,
        Err(err) => panic!("the layers merge: {}", err.message()),
    }
}

fn p(s: &str) -> PathBuf {
    PathBuf::parse(s)
}

#[test]
fn additive_merge_across_layers() {
    let resolved = merged(vec![
        layer("/base", "[filesystem]\nread = [\"/a\"]"),
        layer("/base", "[filesystem]\nread = [\"/b\"]"),
    ]);
    let paths: Vec<_> = resolved.policy.filesystem.iter().map(|rule| rule.path.clone()).collect();
    assert_eq!(paths, vec![p("/a"), p("/b")]);
}

#[test]
fn later_layer_deny_removes_earlier_grant() {
    let resolved = merged(vec![
        layer("/base", "[filesystem]\nread = [\"/a\"]"),
        layer("/base", "[filesystem]\ndeny = [\"/a\"]"),
    ]);
    assert!(resolved.policy.filesystem.is_empty());
    assert_eq!(resolved.policy.denied, vec![p("/a")]);
}

#[test]
fn nested_deny_survives_a_granted_parent() {
    let resolved = merged(vec![
        layer("/base", "[filesystem]\nread = [\"/a\"]"),
        layer("/base", "[filesystem]\ndeny = [\"/a/secret\"]"),
    ]);
    assert_eq!(resolved.policy.filesystem.len(), 1);
    assert_eq!(resolved.policy.filesystem[0].path, p("/a"));
    assert_eq!(resolved.policy.denied, vec![p("/a/secret")]);
}

#[test]
fn later_grant_overrides_an_earlier_denial() {
    let resolved = merged(vec![
        layer("/base", "[filesystem]\ndeny = [\"/a\"]"),
        layer("/base", "[filesystem]\nread = [\"/a\"]"),
    ]);
    assert!(resolved.policy.denied.is_empty());
    assert_eq!(resolved.policy.filesystem[0].path, p("/a"));
}

#[test]
fn reset_clears_denials_too() {
    let resolved = merged(vec![
        layer("/base", "[filesystem]\ndeny = [\"/a/secret\"]"),
        layer("/base", "[filesystem]\nreset = true\nread = [\"/a\"]"),
    ]);
    assert!(resolved.policy.denied.is_empty());
}

#[test]
fn reset_clears_prior_grants() {
    let resolved = merged(vec![
        layer("/base", "[filesystem]\nread = [\"/a\"]"),
        layer("/base", "[filesystem]\nreset = true\nread = [\"/b\"]"),
    ]);
    let paths: Vec<_> = resolved.policy.filesystem.iter().map(|rule| rule.path.clone()).collect();
    assert_eq!(paths, vec![p("/b")]);
}

#[test]
fn same_layer_grant_and_deny_conflicts() {
    let layers = vec![layer("/base", "[filesystem]\nread = [\"/a\"]\ndeny = [\"/a\"]")];
    assert!(matches!(merge(&layers, &env()), Err(ConfigError::Conflict { .. })));
}

#[test]
fn combined_access_flags_merge() {
    let resolved = merged(vec![
        layer("/base", "[filesystem]\nread = [\"/a\"]"),
        layer("/base", "[filesystem]\nwrite = [\"/a\"]"),
    ]);
    assert_eq!(resolved.policy.filesystem.len(), 1);
    assert_eq!(resolved.policy.filesystem[0].access, Access::read_only().union(Access::write_only()));
}

#[test]
fn relative_paths_resolve_against_layer_base() {
    let resolved = merged(vec![layer("/base", "[filesystem]\nread = [\"assets\"]")]);
    assert_eq!(resolved.policy.filesystem[0].path, p("/base/assets"));
}

#[test]
fn egress_override_and_bind_ports_accumulate() {
    let resolved = merged(vec![
        layer("/base", "[network]\negress = \"deny\"\nbind_ports = [1]"),
        layer("/base", "[network]\negress = \"allow\"\nbind_ports = [2]"),
    ]);
    assert_eq!(resolved.policy.network.egress, Egress::AllowAll);
    assert_eq!(resolved.policy.network.bind_ports, vec![1, 2]);
}

#[test]
fn portless_egress_rule_is_rejected() {
    let layers = vec![layer("/base", "[network]\negress_allow = [{ host = \"example.com\" }]")];
    let err = match merge(&layers, &env()) {
        Err(err) => err,
        Ok(_) => panic!("a rule without a port must be refused"),
    };
    assert!(matches!(err, ConfigError::Invalid { .. }));
    assert!(err.message().contains("example.com"));
}

#[test]
fn egress_rule_with_port_resolves() {
    let resolved = merged(vec![layer("/base", "[network]\negress_allow = [{ host = \"*\", port = 443 }]")]);
    assert_eq!(
        resolved.policy.network.egress,
        Egress::Allow(vec![EgressRule { host: "*".into(), port: Some(443) }])
    );
}

#[test]
fn variables_expand_in_paths() {
    let resolved = merged(vec![layer("/base", "[filesystem]\nread = [\"${BAILEY_TEST_DIR}/wayland-0\"]")]);
    assert_eq!(resolved.policy.filesystem[0].path, p("/run/user/4242/wayland-0"));
}

#[test]
fn pwd_expands_to_the_invocation_directory() {
    let resolved = merged(vec![layer("/base", "[filesystem]\nread = [\"${PWD}\"]")]);
    assert_eq!(resolved.policy.filesystem[0].path, p("/work/here"));
}

#[test]
fn a_read_only_path_is_carried_into_the_policy() {
    let resolved = merged(vec![layer("/base", "[filesystem]\nwrite = [\"/work\"]\nread_only = [\"/work/keep\"]")]);
    assert_eq!(resolved.policy.read_only, vec![p("/work/keep")]);
    assert_eq!(resolved.policy.nested_read_only().len(), 1);
}

#[test]
fn an_unset_variable_expands_to_nothing() {
    let resolved = merged(vec![layer("/base", "[filesystem]\nread = [\"${BAILEY_TEST_UNSET}/thing\"]")]);
    assert_eq!(resolved.policy.filesystem[0].path, p("/thing"));
}

#[test]
fn env_values_expand_like_paths_do() {
    let resolved = merged(vec![layer(
        "/base",
        "[env]\nset = { PATH = \"${BAILEY_TEST_BIN}:/usr/bin\", PLAIN = \"literal\" }",
    )]);
    assert_eq!(
        resolved.policy.env.set.get(&"PATH".to_string()).map(String::as_str),
        Some("/opt/toolchain/bin:/usr/bin"),
        "a path written in env is a path"
    );
    assert_eq!(
        resolved.policy.env.set.get(&"PLAIN".to_string()).map(String::as_str),
        Some("literal"),
        "and a value with nothing to expand is left alone"
    );
}

#[test]
fn every_bundled_profile_parses_and_layers() {
    let no_files: Vec<(PathBuf, Result<String, String>)> = Vec::new();
    for profile in all() {
        let layers = base_layers(profile.name).expect("a known profile");
        if let Err(err) = resolve_with_bases(&layers, &p("/bin/true"), &no_files, &env()) {
            panic!("profile `{}` does not resolve: {}", profile.name, err.message());
        }
    }
}

#[test]
fn the_working_directory_profile_grants_no_home_or_network() {
    let no_files: Vec<(PathBuf, Result<String, String>)> = Vec::new();
    let layers = base_layers("ai-agent").unwrap();
    let resolved = match resolve_with_bases(&layers, &p("/bin/true"), &no_files, &env()) {
        Ok(resolved) => resolved,
        Err(err) => panic!("{}", err.message()),
    };
    let home = p("/home/you");
    assert!(
        !resolved.policy.filesystem.iter().any(|rule| rule.path.starts_with(&home)),
        "the profile must not reach the home directory"
    );
    assert_eq!(resolved.policy.network.egress, Egress::DenyAll);
}

#[test]
fn an_unreadable_discovered_file_is_a_read_error() {
    let files = vec![(p("/work/bailey.toml"), Err("permission denied".to_string()))];
    match resolve(&p("/bin/true"), &files, &env()) {
        Err(ConfigError::Read { path, reason }) => {
            assert_eq!(path, p("/work/bailey.toml"));
            assert_eq!(reason, "permission denied");
        }
        _ => panic!("an unreadable layer must be reported"),
    }
}

#[test]
fn a_discovered_file_layers_over_the_bases() {
    let files = vec![(p("/work/bailey.toml"), Ok("[filesystem]\nread = [\"data\"]".to_string()))];
    let resolved = match resolve(&p("/bin/true"), &files, &env()) {
        Ok(resolved) => resolved,
        Err(err) => panic!("{}", err.message()),
    };
    assert_eq!(resolved.policy.filesystem[0].path, p("/work/data"));
}

#[test]
fn a_file_that_is_not_toml_is_a_parse_error() {
    let files = vec![(p("/work/bailey.toml"), Ok("[filesystem\n".to_string()))];
    assert!(matches!(resolve(&p("/bin/true"), &files, &env()), Err(ConfigError::Parse { .. })));
}

#[test]
fn a_bare_name_is_looked_for_on_path_in_order() {
    let env = HostEnv {
        vars: vec![("PATH".to_string(), "/usr/local/bin:/usr/bin::bin".to_string())],
        cwd: Some(PathBuf::parse("/work")),
    };
    let found: Vec<String> = target_candidates("game", &env).iter().map(|p| p.display()).collect();
    assert_eq!(found, vec!["/usr/local/bin/game", "/usr/bin/game", "game", "bin/game"]);
    let given: Vec<String> = target_candidates("./game", &env).iter().map(|p| p.display()).collect();
    assert_eq!(given.len(), 1, "a name with a slash is a path, not a search");
    let unset = HostEnv { vars: Vec::new(), cwd: None };
    assert_eq!(target_candidates("game", &unset).len(), 1);
}

#[test]
fn a_target_that_cannot_be_found_is_named() {
    assert_eq!(target_error("/opt/missing/game"), "`/opt/missing/game` does not exist");
    assert_eq!(target_error("game"), "`game` was not found on PATH");
    assert!(candidate_fits("game", true, 0o755));
    assert!(!candidate_fits("game", true, 0o644), "a file found on PATH must be executable");
    assert!(candidate_fits("./game", true, 0o644), "a path given is taken as it is");
    assert!(!candidate_fits("./game", false, 0o755));
}

#[test]
fn a_rejected_source_contributes_nothing() {
    let bases: Vec<(String, String)> = Vec::new();
    let trusted = Source { path: p("/work/bailey.toml"), origin: Origin::Target, rejected: None };
    let untrusted = Source { path: p("/work/sub/bailey.toml"), origin: Origin::Target, rejected: Some(Rejected::Untrusted) };
    let found = vec![
        (trusted, Ok("[filesystem]\nread = [\"/a\"]\n".to_string())),
        (untrusted, Ok("[filesystem]\nread = [\"/\"]\n".to_string())),
    ];
    let resolved = match resolve_found(&bases, &p("/work/game"), found, &env()) {
        Ok(resolved) => resolved,
        Err(err) => panic!("{}", err.message()),
    };
    let granted: Vec<String> = resolved.policy.filesystem.iter().map(|rule| rule.path.display()).collect();
    assert_eq!(granted, vec!["/a"]);

    let broken = Source { path: p("/work/x/bailey.toml"), origin: Origin::Target, rejected: Some(Rejected::Untrusted) };
    let found = vec![(broken, Ok("not toml [[[".to_string()))];
    assert!(resolve_found(&bases, &p("/work/game"), found, &env()).is_ok(), "an untrusted file is not even parsed");
}

#[test]
fn an_ignored_violation_hook_is_warned_about() {
    let bases: Vec<(String, String)> = Vec::new();
    let source = Source { path: p("/work/bailey.toml"), origin: Origin::Explicit, rejected: None };
    let found = vec![(source, Ok("[hooks]\non_violation = [\"notify\"]\n".to_string()))];
    let resolved = match resolve_found(&bases, &p("/work/game"), found, &env()) {
        Ok(resolved) => resolved,
        Err(err) => panic!("{}", err.message()),
    };
    assert_eq!(
        resolved.ignored_hook_warnings(),
        vec!["bailey: warning: `hooks.on_violation` in /work/bailey.toml is ignored; it was removed because Landlock denies silently and no signal reaches bailey to trigger it. Use `bailey audit` to see what a program wanted.".to_string()]
    );
}

#[test]
fn a_refused_layer_changes_nothing_before_it() {
    let conflicting = "[filesystem]\nread = [\"/a\"]\ndeny = [\"/a\"]\n[network]\negress = \"allow\"\n";
    let bases = vec![("first".to_string(), "[network]\nbind_ports = [80]\n".to_string()), ("second".to_string(), conflicting.to_string())];
    let no_files: Vec<(PathBuf, Result<String, String>)> = Vec::new();
    assert!(matches!(resolve_with_bases(&bases, &p("/work/game"), &no_files, &env()), Err(ConfigError::Conflict { .. })));
}

#[test]
fn the_first_unreadable_input_is_the_error() {
    let bases = vec![("profile:base".to_string(), "[filesystem]\nread = [\"/usr\"]\n".to_string())];
    let files: Vec<(PathBuf, Result<String, String>)> = vec![
        (p("/work/a.toml"), Ok("[filesystem]\nread = [\"/a\"]\n".to_string())),
        (p("/work/b.toml"), Err("permission denied".to_string())),
        (p("/work/c.toml"), Ok("not toml [[[".to_string())),
    ];
    match resolve_with_bases(&bases, &p("/work/game"), &files, &env()) {
        Err(ConfigError::Read { path, reason }) => {
            assert_eq!(path, p("/work/b.toml"));
            assert_eq!(reason, "permission denied");
        }
        Err(other) => panic!("the first failing input must be reported: {}", other.message()),
        Ok(_) => panic!("an unreadable file must fail the resolution"),
    }
    let bad_base = vec![
        ("profile:one".to_string(), "not toml [[[".to_string()),
        ("profile:two".to_string(), "[filesystem]\nread = 5\n".to_string()),
    ];
    match resolve_with_bases(&bad_base, &p("/work/game"), &files, &env()) {
        Err(ConfigError::Parse { path, .. }) => assert_eq!(path.display(), "profile:one"),
        _ => panic!("a failing base comes before any file"),
    }
}
