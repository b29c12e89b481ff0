//! Configuration values, defaults, and the checks on a configured path.

use herdr_worktree_sync::config::{
    config_format, default_repo_config_path, validate_repo_config_path, Config, Format, NotifyWhen,
    OnFailure, PluginConfig, DEFAULT_REPO_CONFIG_PATH,
};

#[test]
fn an_empty_config_is_all_defaults() {
    let config = Config::default();
    assert!(!config.git.update);
    assert!(!config.copy.enabled);
    assert!(!config.clone.enabled);
    assert!(!config.symlink.enabled);
    assert!(!config.install.enabled);
    assert!(config.hooks.pre.is_empty());
    assert!(config.hooks.post.is_empty());
    assert_eq!(config.notify.when, NotifyWhen::Always);
    assert_eq!(config.failure.action, OnFailure::Keep);
}

#[test]
fn the_default_repo_config_path_is_worktree_sync_toml() {
    assert_eq!(DEFAULT_REPO_CONFIG_PATH, ".worktree-sync.toml");
    assert_eq!(default_repo_config_path(), ".worktree-sync.toml");
    assert_eq!(PluginConfig::default().repo_config_path, ".worktree-sync.toml");
}

#[test]
fn a_custom_repo_config_path_must_stay_inside_the_repo() {
    for path in ["/tmp/bootstrap.toml", "../bootstrap.toml", "a/../../bootstrap.toml", ""] {
        let err = validate_repo_config_path(path).expect_err("an escaping config path should be rejected");
        assert!(err.message().contains("repo_config_path"), "got: {}", err.message());
        assert!(err.message().contains("relative path inside the repository"), "got: {}", err.message());
    }
}

#[test]
fn a_custom_repo_config_path_needs_a_config_extension() {
    for path in ["config/worktree.yaml", "config/worktree.yml", "./sync.toml", "a/b.c.toml", "config.toml/."] {
        assert!(validate_repo_config_path(path).is_ok(), "{path} should be accepted");
    }
    for path in ["config/worktree.json", ".toml", "config/toml", "."] {
        let err = validate_repo_config_path(path).expect_err("not a TOML or YAML file");
        assert_eq!(err.message(), "repo_config_path must end in .toml, .yaml, or .yml", "for {path}");
    }
}

#[test]
fn a_custom_repo_config_path_uses_its_extension_to_choose_the_parser() {
    assert_eq!(config_format("config/bootstrap.yaml"), Format::Yaml);
    assert_eq!(config_format("config/bootstrap.yml"), Format::Yaml);
    assert_eq!(config_format(".worktree-sync.toml"), Format::Toml);
    assert_eq!(config_format("config/noext"), Format::Toml);
}
