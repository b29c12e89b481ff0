//! The filename glob used by gitignored-file discovery.

use herdr_worktree_sync::bootstrap::{default_env_patterns, glob_match};

#[test]
fn glob_matches_literal_names() {
    assert!(glob_match(".env", ".env"));
    assert!(!glob_match(".env", ".env.local"));
    assert!(!glob_match(".env", "env"));
    assert!(!glob_match(".env", ""));
}

#[test]
fn glob_star_matches_any_run_including_empty() {
    assert!(glob_match("*", ""));
    assert!(glob_match("*", ".env.production.local"));
    assert!(glob_match("*.csproj", "App.csproj"));
    assert!(glob_match("a*c", "ac"));
    assert!(glob_match("a*c", "abbbc"));
    assert!(!glob_match("a*c", "ab"));
}

/// The reason the default env patterns need *both* `.env` and `.env.*`:
/// the star can match empty, but the literal dot before it cannot, so
/// `.env.*` alone would silently miss a plain `.env`.
#[test]
fn dotted_glob_does_not_match_the_bare_name() {
    assert!(glob_match(".env.*", ".env.local"));
    assert!(glob_match(".env.*", ".env."));
    assert!(!glob_match(".env.*", ".env"));

    let defaults: Vec<String> = default_env_patterns();
    for name in [".env", ".env.local", ".env.production.local"] {
        assert!(
            defaults.iter().any(|pat| glob_match(pat, name)),
            "{name} should match the default env patterns"
        );
    }
    assert!(
        !defaults.iter().any(|pat| glob_match(pat, "envrc")),
        "unrelated names should not match the defaults"
    );
}

#[test]
fn several_stars_and_non_ascii_names() {
    assert!(glob_match("*.*", "a.b"));
    assert!(!glob_match("*.*", "ab"));
    assert!(glob_match("é*", "été"));
    assert!(glob_match("**", ""));
    assert!(!glob_match("", "x"));
}
