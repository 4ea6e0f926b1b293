//! Tokens of the keychain.

use cx::cli::PatAddArgs;
use cx::envfile::parse_value;
use cx::envfile::quote_double;
use cx::envfile::read_env_file;
use cx::envfile::set_env;
use cx::envfile::write_env_file;
use cx::envfile::EnvMap;
use cx::keychain::bound_conf;
use cx::keychain::bound_token;
use cx::keychain::check_added_token;
use cx::keychain::check_bound_token;
use cx::keychain::check_pat_add;
use cx::keychain::inject_pat_env_from_conf;
use cx::keychain::inject_pat_env_from_keychain;
use cx::keychain::keychain_conf_text;
use cx::keychain::pat_add_report;
use cx::keychain::pat_check_report;
use cx::keychain::pat_fingerprint;
use cx::keychain::pat_refresh_report;
use cx::keychain::pat_remove_report;
use cx::keychain::read_keychain_conf;
use cx::keychain::whoami_endpoint;
use cx::keychain::KeychainConf;
use cx::keychain::SlotAuthMetadata;
use cx::paths::ManagerPaths;

fn conf() -> KeychainConf {
    KeychainConf { service: "codex-pat".to_string(), account: "test@example.com".to_string() }
}

fn token(envs: &EnvMap) -> Option<&str> {
    envs.get("CODEX_ACCESS_TOKEN").map(|value| value.as_str())
}

#[test]
fn quoted_env_round_trips() {
    let value = "sk-with $ dollars \"quotes\" and \\ slash";
    let quoted: Vec<char> = quote_double(value).chars().collect();
    let read: String = parse_value(&quoted).into_iter().collect();
    assert_eq!(read, value);
}

#[test]
fn env_files_are_read_as_they_were_written() {
    let entries = vec!["A=1".to_string(), "B=two $words".to_string(), "A=3".to_string()];
    let text = write_env_file(&entries).expect("written");
    assert_eq!(text, "export A=\"1\"\nexport B=\"two \\$words\"\nexport A=\"3\"\n");
    let vars = read_env_file(&text);
    assert_eq!(vars.get("A").map(|v| v.as_str()), Some("3"));
    assert_eq!(vars.get("B").map(|v| v.as_str()), Some("two $words"));
    assert_eq!(
        write_env_file(&vec!["nothing".to_string()]),
        Err("--env requires KEY=value, got nothing".to_string())
    );
    assert_eq!(
        write_env_file(&vec!["1A=x".to_string()]),
        Err("invalid environment variable name: 1A".to_string())
    );
}

#[test]
fn env_files_may_hold_other_lines() {
    let vars = read_env_file("# note\n\nexport X='a'\\''b'\nnot a setting\n9Z=1\nY = plain \n");
    assert_eq!(vars.get("X").map(|v| v.as_str()), Some("a'b"));
    assert_eq!(vars.get("Y").map(|v| v.as_str()), Some("plain"));
    assert_eq!(vars.len(), 2);
}

#[test]
fn inject_pat_env_from_conf_inserts_codex_access_token() {
    let mut envs = EnvMap::new();

    inject_pat_env_from_conf("dia4", &mut envs, &conf(), &Vec::new(), |service, account| {
        assert_eq!(service, "codex-pat");
        assert_eq!(account, "test@example.com");
        Ok(Some("at-test".to_string()))
    })
    .unwrap();

    assert_eq!(token(&envs), Some("at-test"));
}

#[test]
fn inject_pat_env_from_conf_rejects_existing_auth_env() {
    let mut envs = EnvMap::new();
    set_env(&mut envs, "OPENAI_API_KEY", "sk-test");

    let err = inject_pat_env_from_conf("dia4", &mut envs, &conf(), &Vec::new(), |_, _| {
        panic!("conflicting env should be rejected before keychain fetch")
    })
    .unwrap_err();

    assert!(err.contains("OPENAI_API_KEY"));
    assert!(!envs.contains_key("CODEX_ACCESS_TOKEN"));
}

#[test]
fn inject_pat_env_from_conf_rejects_existing_codex_access_token_env() {
    let mut envs = EnvMap::new();
    set_env(&mut envs, "CODEX_ACCESS_TOKEN", "at-existing");

    let err = inject_pat_env_from_conf("dia4", &mut envs, &conf(), &Vec::new(), |_, _| {
        panic!("conflicting env should be rejected before keychain fetch")
    })
    .unwrap_err();

    assert!(err.contains("CODEX_ACCESS_TOKEN"));
    assert_eq!(token(&envs), Some("at-existing"));
}

#[test]
fn inject_pat_env_from_conf_rejects_parent_auth_env() {
    let mut envs = EnvMap::new();
    let parent = vec!["OPENAI_API_KEY".to_string()];

    let err = inject_pat_env_from_conf("dia4", &mut envs, &conf(), &parent, |_, _| {
        panic!("conflicting parent env should be rejected before keychain fetch")
    })
    .unwrap_err();

    assert!(err.contains("parent environment"));
    assert!(!envs.contains_key("CODEX_ACCESS_TOKEN"));
}

#[test]
fn inject_pat_env_from_conf_allows_parent_codex_access_token() {
    let mut envs = EnvMap::new();
    let parent = vec!["CODEX_ACCESS_TOKEN".to_string()];

    inject_pat_env_from_conf("dia4", &mut envs, &conf(), &parent, |_, _| {
        Ok(Some("at-slot".to_string()))
    })
    .unwrap();

    assert_eq!(token(&envs), Some("at-slot"));
}

#[test]
fn inject_pat_env_from_conf_rejects_non_pat_token() {
    let mut envs = EnvMap::new();

    let err = inject_pat_env_from_conf("dia4", &mut envs, &conf(), &Vec::new(), |_, _| {
        Ok(Some("sk-test".to_string()))
    })
    .unwrap_err();

    assert!(err.contains("does not contain a PAT"));
    assert!(!envs.contains_key("CODEX_ACCESS_TOKEN"));
}

#[test]
fn inject_pat_env_from_conf_errors_when_keychain_entry_is_missing() {
    let mut envs = EnvMap::new();

    let err =
        inject_pat_env_from_conf("dia4", &mut envs, &conf(), &Vec::new(), |_, _| Ok(None))
            .unwrap_err();

    assert!(err.contains("Keychain entry codex-pat/test@example.com not found"));
    assert!(err.contains("keychain-secret set codex-pat test@example.com"));
    assert!(!envs.contains_key("CODEX_ACCESS_TOKEN"));
}

#[test]
fn inject_pat_env_from_conf_propagates_keychain_fetch_errors() {
    let mut envs = EnvMap::new();

    let err = inject_pat_env_from_conf("dia4", &mut envs, &conf(), &Vec::new(), |_, _| {
        Err("security wait failed".to_string())
    })
    .unwrap_err();

    assert!(err.contains("security wait failed"));
    assert!(!envs.contains_key("CODEX_ACCESS_TOKEN"));
}

#[test]
fn keychain_settings_are_read_as_they_were_written() {
    let text = keychain_conf_text("codex-pat", "me");
    let read = read_keychain_conf(&Some(text)).expect("read").expect("there");
    assert_eq!(read.service, "codex-pat");
    assert_eq!(read.account, "me");
    assert!(read_keychain_conf(&None).expect("read").is_none());
    let half = read_keychain_conf(&Some("service=codex-pat\n".to_string()));
    assert_eq!(half.err(), Some("keychain.conf missing `account`".to_string()));
}

#[test]
fn slots_without_keychain_settings_get_no_token() {
    let mut envs = EnvMap::new();
    inject_pat_env_from_keychain(&None, "dia4", &mut envs, &Vec::new(), |_, _| {
        panic!("nothing to fetch")
    })
    .unwrap();
    assert_eq!(envs.len(), 0);
}

#[test]
fn fingerprints_are_digests() {
    assert_eq!(pat_fingerprint("abc"), "sha256:ba7816bf8f01cfea");
    assert_ne!(pat_fingerprint("abc"), pat_fingerprint("abd"));
}

#[test]
fn the_owner_of_a_token_is_asked_for_at_one_place() {
    assert_eq!(
        whoami_endpoint("https://auth.example//"),
        "https://auth.example/v1/user-auth-credential/whoami"
    );
}

fn owner(email: Option<&str>) -> SlotAuthMetadata {
    SlotAuthMetadata {
        email: email.map(str::to_string),
        account_id: "acct-1".to_string(),
        fedramp: false,
        authapi_base_url: "https://auth.example".to_string(),
        pat_fingerprint: pat_fingerprint("at-1"),
        cached_at: "2026-01-01T00:00:00Z".to_string(),
    }
}

fn binding(slot: &str) -> PatAddArgs {
    PatAddArgs {
        manager_dir: None,
        slot: slot.to_string(),
        service: "codex-pat".to_string(),
        account: "me".to_string(),
        force: false,
    }
}

#[test]
fn tokens_are_bound_to_slots_that_are_there() {
    let paths = ManagerPaths::from_roots("/c", "/m");
    assert_eq!(check_pat_add(&paths, &binding("dia1"), true), Ok(()));
    assert_eq!(check_pat_add(&paths, &binding("default"), false), Ok(()));
    assert_eq!(
        check_pat_add(&paths, &binding("dia1"), false),
        Err("slot directory does not exist: /m/slots/dia1".to_string())
    );
    assert_eq!(
        check_pat_add(&paths, &binding("a b"), true),
        Err("invalid slot name: a b".to_string())
    );
    assert_eq!(
        check_added_token(&binding("dia1"), Ok(Some("at-1".to_string()))),
        Ok("at-1".to_string())
    );
    assert_eq!(
        check_added_token(&binding("dia1"), Ok(None)),
        Err(
            "Keychain entry codex-pat not found; run `keychain-secret set codex-pat me` first"
                .to_string()
        )
    );
    assert_eq!(
        pat_add_report(&binding("dia1"), &owner(Some("me@example.com"))),
        vec![
            "pat bound: slot dia1 -> codex-pat/me",
            "  priority: usable auth.json first, PAT fallback second",
            "  email: me@example.com",
            "  account_id: acct-1",
            "  fedramp: false",
        ]
    );
}

#[test]
fn bound_tokens_are_checked() {
    let text = Some(keychain_conf_text("codex-pat", "me"));
    let found = bound_conf("dia1", &text).expect("bound");
    assert_eq!(found.account, "me");
    assert_eq!(
        bound_conf("dia1", &None).err(),
        Some("no keychain.conf for slot dia1".to_string())
    );
    assert_eq!(bound_conf("", &text).err(), Some("invalid slot name: ".to_string()));
    assert_eq!(
        check_bound_token(&found, Ok(None)),
        Err("Keychain entry codex-pat/me not found".to_string())
    );
    assert_eq!(
        check_bound_token(&found, Ok(Some("sk-1".to_string()))),
        Err(
            "Keychain entry codex-pat/me does not contain a PAT (expected `at-` prefix)"
                .to_string()
        )
    );
    assert_eq!(bound_token(&found, Ok(Some("sk-1".to_string()))), Ok("sk-1".to_string()));
    assert_eq!(bound_token(&found, Err("locked".to_string())), Err("locked".to_string()));
    assert_eq!(
        pat_check_report("dia1", &owner(None)),
        vec!["slot dia1 PAT: ok", "  email: (none)", "  account_id: acct-1", "  fedramp: false"]
    );
    assert_eq!(
        pat_refresh_report("dia1", &owner(None)),
        vec!["refreshed metadata for slot dia1", "  email: (none)", "  account_id: acct-1"]
    );
    assert_eq!(
        pat_remove_report("dia1", &Some(found)),
        vec![
            "removed keychain.conf and keychain-meta.json from slot dia1",
            "Keychain entry not removed; run `keychain-secret delete codex-pat me` to remove it from Keychain",
        ]
    );
}
