#![allow(unused_imports)]
use nerve::config::{
    db_path, config_path, is_denied, nerve_dir, pattern_matches, Config, IndexSettings,
    SecuritySettings, SECRET_DENY_PATTERNS,
};

#[test]
fn builtin_patterns_deny_the_documented_names() {
    let patterns: Vec<String> = SECRET_DENY_PATTERNS.iter().map(|p| p.to_string()).collect();
    for name in [
        ".env",
        ".env.local",
        ".env.production",
        "server.pem",
        "private.key",
        "cert.p12",
        "cert.pfx",
        "release.keystore",
        "debug.jks",
        "id_rsa",
        "id_rsa.pub",
        "id_ed25519",
        "id_ed25519.pub",
        ".npmrc",
        ".netrc",
        ".pgpass",
        "credentials",
        "secrets.ts",
        "secrets.json",
    ] {
        assert!(is_denied(name, &patterns), "{name} should be denied");
    }
}

#[test]
fn builtin_patterns_allow_ordinary_source_files() {
    let patterns: Vec<String> = SECRET_DENY_PATTERNS.iter().map(|p| p.to_string()).collect();
    for name in [
        "math.ts",
        "index.tsx",
        "legacy.cjs",
        "environment.ts",
        "keyboard.ts",
        "credentials.service.ts",
        "monkey.ts",
    ] {
        assert!(!is_denied(name, &patterns), "{name} should be allowed");
    }
}

#[test]
fn wildcard_matching_handles_edges() {
    assert!(pattern_matches("*", ""));
    assert!(pattern_matches("*.pem", "a.pem"));
    assert!(!pattern_matches("*.pem", "pem"));
    assert!(pattern_matches("a*b*c", "abc"));
    assert!(pattern_matches("a*b*c", "axxbyyc"));
    assert!(!pattern_matches("a*b*c", "acb"));
    assert!(pattern_matches(".env.*", ".env."));
    assert!(!pattern_matches(".env.*", ".env"));
}

#[test]
fn user_patterns_extend_the_builtin_list() {
    let config = Config {
        schema_version: 1,
        project_id: "p".into(),
        created_at: "t".into(),
        index: IndexSettings::default(),
        security: SecuritySettings {
            extra_deny_patterns: vec!["*.secret.ts".into()],
        },
    };
    let patterns = config.deny_patterns();
    assert!(is_denied("tokens.secret.ts", &patterns));
    assert!(is_denied(".env", &patterns));
    assert!(!is_denied("tokens.ts", &patterns));
}

#[test]
fn index_paths_live_under_the_nerve_directory() {
    assert_eq!(nerve_dir("/repo"), "/repo/.nerve");
    assert_eq!(nerve_dir("/repo/"), "/repo/.nerve");
    assert_eq!(config_path("/repo"), "/repo/.nerve/config.toml");
    assert_eq!(db_path("/repo"), "/repo/.nerve/nerve.db");
}

#[test]
fn a_star_in_the_name_is_matched_by_a_star_in_the_pattern() {
    assert!(pattern_matches("*", "**"));
    assert!(pattern_matches("a*", "a*b"));
    assert!(!pattern_matches("a", "*"));
}

#[test]
fn default_index_settings_use_the_documented_ceiling() {
    assert_eq!(IndexSettings::default().max_file_bytes, 2 * 1024 * 1024);
    assert!(SecuritySettings::default().extra_deny_patterns.is_empty());
}
