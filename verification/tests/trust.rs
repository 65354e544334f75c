use bailey::config::HostEnv;
use bailey::path::PathBuf;
use bailey::pathmap::PathMap;
use bailey::resolve::Origin;
use bailey::trust::{digest, sha256_of, FileFacts, Rejected, Store};
use bailey::discover::{files_to_examine, sources};
use bailey::hook::notice;
use bailey::resolve::resolve_found;
use bailey::review::{sources_text, untrusted_report};

fn mine(mode: u32) -> Result<FileFacts, String> {
    Ok(FileFacts {
        is_file: true,
        uid: 1000,
        gid: 1000,
        mode,
        euid: 1000,
        owner_name: Some("you".to_string()),
        group_name: Some("you".to_string()),
    })
}

fn text(s: &str) -> Result<Vec<u8>, String> {
    Ok(s.as_bytes().to_vec())
}

fn here() -> HostEnv {
    HostEnv { vars: Vec::new(), cwd: Some(PathBuf::parse("/work")) }
}

const ORIGINAL: &str = "[filesystem]\nread = [\"/a\"]\n";
const EDITED: &str = "[filesystem]\nread = [\"/\"]\n";

#[test]
fn a_recorded_file_verifies_and_an_edited_one_does_not() {
    let path = PathBuf::parse("/work/bailey.toml");
    let mut store = Store::new();
    assert_eq!(store.check(&path, &here(), &mine(0o644), &text(ORIGINAL)), Some(Rejected::Untrusted));

    store.record(&path, &here(), &mine(0o644), &text(ORIGINAL)).unwrap();
    assert_eq!(store.check(&path, &here(), &mine(0o644), &text(ORIGINAL)), None);

    assert_eq!(store.check(&path, &here(), &mine(0o644), &text(EDITED)), Some(Rejected::Changed));

    assert_eq!(
        store.check(&path, &here(), &mine(0o644), &text(ORIGINAL)),
        None,
        "restoring the trusted contents restores trust"
    );
}

#[test]
fn the_store_round_trips_through_a_file() {
    let path = PathBuf::parse("/work/bailey.toml");
    let mut store = Store::new();
    store.record(&path, &here(), &mine(0o644), &text(ORIGINAL)).unwrap();
    let env = HostEnv { vars: vec![("XDG_DATA_HOME".to_string(), "/data".to_string())], cwd: None };
    let (at, records) = store.save(&env).unwrap();
    assert_eq!(at, PathBuf::parse("/data/bailey/trusted.toml"));

    let mut file = String::from("[trusted]\n");
    for (p, d) in &records {
        file.push_str(&format!("\"{p}\" = \"{d}\"\n"));
    }
    let (reloaded, warning) = Store::load(Some((at, Ok(file))), false);
    assert!(warning.is_none());
    assert_eq!(reloaded.check(&path, &here(), &mine(0o644), &text(ORIGINAL)), None);
    assert_eq!(reloaded.trusted().len(), 1);
}

#[test]
fn a_missing_store_is_empty() {
    let (store, warning) = Store::load(None, false);
    assert!(store.trusted().is_empty());
    assert!(warning.is_none());
    let path = PathBuf::parse("/work/bailey.toml");
    assert_eq!(store.check(&path, &here(), &mine(0o644), &text(ORIGINAL)), Some(Rejected::Untrusted));
}

#[test]
fn forgetting_revokes_trust() {
    let path = PathBuf::parse("/work/bailey.toml");
    let mut store = Store::new();
    store.record(&path, &here(), &mine(0o644), &text(ORIGINAL)).unwrap();
    assert!(store.forget(&path, &here()));
    assert_eq!(store.check(&path, &here(), &mine(0o644), &text(ORIGINAL)), Some(Rejected::Untrusted));
    assert!(!store.forget(&path, &here()), "revoking twice reports nothing to do");
}

#[test]
fn a_world_writable_config_is_refused() {
    let path = PathBuf::parse("/work/bailey.toml");
    let mut store = Store::new();
    store.record(&path, &here(), &mine(0o644), &text(ORIGINAL)).unwrap();
    assert_eq!(store.check(&path, &here(), &mine(0o644), &text(ORIGINAL)), None);

    let rejected = store.check(&path, &here(), &mine(0o666), &text(ORIGINAL)).expect("a world-writable config");
    assert!(matches!(rejected, Rejected::Writable(_)), "{rejected:?}");
    assert!(rejected.reason().contains("any user"));
    assert!(
        store.record(&path, &here(), &mine(0o666), &text(ORIGINAL)).is_err(),
        "and it cannot be trusted again while it stays that way"
    );
}

#[test]
fn a_group_writable_config_is_refused() {
    let path = PathBuf::parse("/work/bailey.toml");
    let mut store = Store::new();
    let err = store.record(&path, &here(), &mine(0o664), &text(ORIGINAL)).expect_err("a group-writable config");
    assert!(err.contains("group"), "{err}");
    assert!(err.contains("chmod go-w"), "the fix is named: {err}");
}

#[test]
fn a_config_owned_by_another_user_is_refused() {
    let facts = Ok(FileFacts {
        is_file: true,
        uid: 0,
        gid: 0,
        mode: 0o644,
        euid: 1000,
        owner_name: Some("root".to_string()),
        group_name: Some("root".to_string()),
    });
    let mut store = Store::new();
    let err = store.record(&PathBuf::parse("/etc/passwd"), &here(), &facts, &text("root:x:0:0")).expect_err("a file owned by root");
    assert!(err.contains("root") || err.contains("uid 0"), "{err}");
}

#[test]
fn a_missing_file_is_unreadable_rather_than_untrusted() {
    let path = PathBuf::parse("/work/bailey.toml");
    let mut store = Store::new();
    store.record(&path, &here(), &mine(0o644), &text(ORIGINAL)).unwrap();
    let gone: Result<FileFacts, String> = Err("No such file or directory (os error 2)".to_string());
    let rejected = store.check(&path, &here(), &gone, &Err("gone".to_string())).expect("a deleted config");
    assert_eq!(rejected.word(), "unreadable");
}

#[test]
fn inside_a_sandbox_the_store_is_unreachable_not_empty() {
    let (store, _) = Store::load(None, true);
    let path = PathBuf::parse("/work/bailey.toml");
    assert_eq!(store.check(&path, &here(), &mine(0o644), &text(ORIGINAL)), Some(Rejected::StoreUnreachable));
}

#[test]
fn an_unparseable_store_is_read_as_empty_with_a_warning() {
    let (store, warning) = Store::load(Some((PathBuf::parse("/data/t.toml"), Ok("not = [valid".to_string()))), false);
    assert!(store.trusted().is_empty());
    let warning = warning.expect("a warning");
    assert!(warning.starts_with("bailey: warning: ignoring the trust store `/data/t.toml`: "), "{warning}");
}

#[test]
fn nowhere_to_save_is_an_error() {
    let env = HostEnv { vars: Vec::new(), cwd: None };
    let err = Store::new().save(&env).unwrap_err();
    assert_eq!(err, "no data directory: set XDG_DATA_HOME or HOME to record trust");
}

#[test]
fn the_digest_is_the_sha256_of_the_contents() {
    assert_eq!(
        digest(&b"abc".to_vec()),
        "ba7816bf8f01cfea414140de5dae2223b00361a396177a9cb410ff61f20015ad"
    );
    assert_eq!(sha256_of(&Vec::new()).len(), 32);
}

fn walk_env() -> HostEnv {
    HostEnv {
        vars: vec![("HOME".to_string(), "/home/you".to_string())],
        cwd: Some(PathBuf::parse("/work/project")),
    }
}

#[test]
fn discovered_layers_are_ordered_outermost_first_and_checked_for_trust() {
    let env = walk_env();
    let target = PathBuf::parse("/work/tools/prog");
    let mut seen: PathMap<(Result<FileFacts, String>, Result<Vec<u8>, String>)> = PathMap::new();
    seen.insert(PathBuf::parse("/work/bailey.toml"), (mine(0o644), text(ORIGINAL)));
    seen.insert(PathBuf::parse("/work/tools/bailey.toml"), (mine(0o644), text(ORIGINAL)));
    seen.insert(PathBuf::parse("/work/project/bailey.toml"), (mine(0o644), text(EDITED)));
    seen.insert(PathBuf::parse("/home/you/.config/bailey/config.toml"), (mine(0o644), text("")));
    let mut store = Store::new();
    store.record(&PathBuf::parse("/work/project/bailey.toml"), &here(), &mine(0o644), &text(ORIGINAL)).unwrap();
    store.record(&PathBuf::parse("/work/tools/bailey.toml"), &here(), &mine(0o644), &text(ORIGINAL)).unwrap();
    let explicit = PathBuf::parse("extra.toml");
    let found = sources(&target, Some(&explicit), &env, &seen, &store);
    let listed: Vec<(String, Origin, Option<Rejected>)> =
        found.iter().map(|s| (s.path.display(), s.origin, s.rejected.clone())).collect();
    assert_eq!(
        listed,
        vec![
            ("/home/you/.config/bailey/config.toml".to_string(), Origin::Global, None),
            ("/work/bailey.toml".to_string(), Origin::Target, Some(Rejected::Untrusted)),
            ("/work/tools/bailey.toml".to_string(), Origin::Target, None),
            ("/work/project/bailey.toml".to_string(), Origin::WorkingDir, Some(Rejected::Changed)),
            ("/work/project/extra.toml".to_string(), Origin::Explicit, None),
        ]
    );
    assert!(!found[1].applies());
    assert!(found[2].applies());
}

#[test]
fn the_files_to_examine_cover_both_walks() {
    let env = walk_env();
    let files: Vec<String> =
        files_to_examine(&PathBuf::parse("/work/tools/prog"), &env).iter().map(|p| p.display()).collect();
    assert_eq!(
        files,
        vec![
            "/home/you/.config/bailey/config.toml",
            "/bailey.toml",
            "/work/bailey.toml",
            "/work/tools/bailey.toml",
            "/bailey.toml",
            "/work/bailey.toml",
            "/work/project/bailey.toml",
        ]
    );
}

#[test]
fn a_relative_path_is_trusted_and_revoked_by_its_absolute_form() {
    let mut store = Store::new();
    let recorded = store.record(&PathBuf::parse("bailey.toml"), &here(), &mine(0o644), &text(ORIGINAL)).unwrap();
    assert_eq!(recorded, PathBuf::parse("/work/bailey.toml"));
    assert_eq!(store.check(&PathBuf::parse("/work/bailey.toml"), &here(), &mine(0o644), &text(ORIGINAL)), None);
    assert!(store.forget(&PathBuf::parse("./bailey.toml"), &here()));
    assert!(!store.forget(&PathBuf::parse("/work/bailey.toml"), &here()));
}

const PROJECT: &str = "[filesystem]\nread = [\"/opt/marker\"]\n";

fn project_seen() -> PathMap<(Result<FileFacts, String>, Result<Vec<u8>, String>)> {
    let mut seen = PathMap::new();
    seen.insert(PathBuf::parse("/work/project/bailey.toml"), (mine(0o644), text(PROJECT)));
    seen
}

fn project_env() -> HostEnv {
    HostEnv { vars: vec![("HOME".to_string(), "/home/you".to_string())], cwd: Some(PathBuf::parse("/work/project")) }
}

/// The grants a resolution over the discovered sources makes, as texts.
fn granted(found: Vec<bailey::resolve::Source>, env: &HostEnv) -> Vec<String> {
    let with_texts = found
        .into_iter()
        .map(|source| {
            let t = if source.path == PathBuf::parse("/work/project/bailey.toml") { PROJECT } else { "" };
            (source, Ok(t.to_string()))
        })
        .collect();
    match resolve_found(&Vec::new(), &PathBuf::parse("/usr/bin/true"), with_texts, env) {
        Ok(resolved) => resolved.policy.filesystem.iter().map(|rule| rule.path.display()).collect(),
        Err(err) => panic!("{}", err.message()),
    }
}

#[test]
fn an_empty_store_lists_nothing() {
    let store = Store::new();
    assert!(store.trusted().is_empty());
    assert!(store.listing(&Vec::new()).is_empty());
}

#[test]
fn a_discovered_config_applies_only_once_trusted() {
    let env = project_env();
    let seen = project_seen();
    let mut store = Store::new();
    let config = PathBuf::parse("/work/project/bailey.toml");

    let before = sources(&PathBuf::parse("/usr/bin/true"), None, &env, &seen, &store);
    let shown = sources_text("untrusted", &before).join("\n");
    assert!(shown.contains("not applied"), "an untrusted config must be reported: {shown}");
    assert!(!granted(before, &env).contains(&"/opt/marker".to_string()), "and must grant nothing");

    store.record(&config, &env, &mine(0o644), &text(PROJECT)).expect("trusting must succeed");

    let after = sources(&PathBuf::parse("/usr/bin/true"), None, &env, &seen, &store);
    let shown = sources_text("untrusted", &after).join("\n");
    assert!(!shown.contains("not applied"), "and must not be reported as skipped: {shown}");
    assert!(granted(after, &env).contains(&"/opt/marker".to_string()), "a trusted config must contribute its grants");
}

#[test]
fn trust_can_be_withdrawn() {
    let env = project_env();
    let seen = project_seen();
    let mut store = Store::new();
    let config = PathBuf::parse("/work/project/bailey.toml");
    store.record(&config, &env, &mine(0o644), &text(PROJECT)).unwrap();
    let listed = store.listing(&vec![(mine(0o644), text(PROJECT))]);
    assert_eq!(listed, vec![(config.clone(), None)], "listed as ok");

    assert!(store.forget(&config, &env), "untrust must succeed");
    let found = sources(&PathBuf::parse("/usr/bin/true"), None, &env, &seen, &store);
    assert!(!granted(found, &env).contains(&"/opt/marker".to_string()), "a withdrawn config must stop contributing");

    assert!(!store.forget(&config, &env), "withdrawing what was never trusted must say so rather than pass silently");
}

#[test]
fn an_explicitly_named_config_needs_no_trust() {
    let env = HostEnv { vars: vec![("HOME".to_string(), "/home/you".to_string())], cwd: Some(PathBuf::parse("/elsewhere")) };
    let seen = project_seen();
    let store = Store::new();
    let config = PathBuf::parse("/work/project/bailey.toml");
    let found = sources(&PathBuf::parse("/usr/bin/true"), Some(&config), &env, &seen, &store);
    assert!(found.iter().all(|source| source.applies()));
    assert!(granted(found, &env).contains(&"/opt/marker".to_string()), "a config the user named on the command line applies as given");
}

#[test]
fn an_unreachable_trust_store_is_not_reported_as_untrusted() {
    let env = project_env();
    let seen = project_seen();
    let (store, _) = Store::load(None, true);
    let found = sources(&PathBuf::parse("/usr/bin/true"), None, &env, &seen, &store);
    let stderr = untrusted_report(&found).join("\n");
    assert!(stderr.contains("not reachable"), "the store cannot be read from inside: {stderr}");
    assert!(!stderr.contains("you have not trusted it"), "the file is trusted; bailey simply cannot see the record: {stderr}");
    assert!(!stderr.contains("bailey trust /"), "and it must not suggest a command that would write into a discarded home: {stderr}");
}

#[test]
fn trusting_from_inside_a_sandbox_is_refused() {
    let env = project_env();
    let (mut store, _) = Store::load(None, true);
    let err = store
        .record(&PathBuf::parse("./bailey.toml"), &env, &mine(0o644), &text(PROJECT))
        .expect_err("recording trust into a home that is discarded must fail rather than appear to work");
    assert!(err.contains("not reachable"), "and it must say why: {err}");
    assert!(store.trusted().is_empty());
}

#[test]
fn a_directory_with_no_config_says_nothing() {
    let shown = notice(&Some(PathBuf::parse("/work/empty")), false, &None, false, &None).porcelain();
    assert!(shown.trim().is_empty(), "expected silence, got: {shown}");
}
