use agpod::config::{Config, DiffConfig, KiroConfig, KiroTemplateConfig};
use std::collections::HashMap;

#[test]
fn config_test_default_config() {
    let config = Config::default();
    assert_eq!(config.version, "1");
    assert!(config.kiro.is_none());
    assert!(config.diff.is_none());
}

#[test]
fn test_config_version_validation() {
    let config = Config {
        version: "1".to_string(),
        kiro: None,
        diff: None,
    };
    assert!(config.is_version_supported());
    assert!(config.version_warning().is_none());

    let unsupported_config = Config {
        version: "999".to_string(),
        kiro: None,
        diff: None,
    };
    assert!(!unsupported_config.is_version_supported());
    assert!(unsupported_config.version_warning().is_some());
}

#[test]
fn test_diff_config_defaults() {
    let diff_config = DiffConfig::default();
    assert_eq!(diff_config.output_dir, "llm/diff");
    assert_eq!(diff_config.large_file_changes_threshold, 100);
    assert_eq!(diff_config.large_file_lines_threshold, 500);
    assert_eq!(diff_config.max_consecutive_empty_lines, 2);
}

#[test]
fn test_kiro_config_defaults() {
    let kiro_config = KiroConfig::default();
    assert_eq!(kiro_config.base_dir, "llm/kiro");
    assert_eq!(kiro_config.template, "default");
    assert_eq!(kiro_config.summary_lines, 3);
}

#[test]
fn test_template_config_overrides_rendering() {
    let mut config = KiroConfig::default();
    config.rendering.files = vec!["DESIGN.md.j2".to_string(), "TASK.md.j2".to_string()];

    let mut template_config = HashMap::new();
    template_config.insert(
        "custom".to_string(),
        KiroTemplateConfig {
            description: "Custom template".to_string(),
            files: vec!["design.md.j2".to_string(), "tasks.md.j2".to_string()],
            missing_policy: "error".to_string(),
        },
    );
    config.templates = template_config;

    let custom = config.templates.get("custom").unwrap();
    assert_eq!(custom.files[0], "design.md.j2");
    assert_eq!(custom.files[1], "tasks.md.j2");
}

#[test]
fn version_warning_names_the_version() {
    let config = Config {
        version: "7".to_string(),
        kiro: None,
        diff: None,
    };
    assert_eq!(
        config.version_warning().unwrap(),
        "Warning: Configuration version '7' is not supported. Supported versions: 1. Using defaults where needed."
    );
}

#[test]
fn merge_prefers_the_later_sections() {
    let base = Config {
        version: "1".to_string(),
        kiro: Some(KiroConfig::default()),
        diff: None,
    };
    let mut diff = DiffConfig::default();
    diff.output_dir = "custom/diff".to_string();
    let top = Config {
        version: "2".to_string(),
        kiro: None,
        diff: Some(diff),
    };
    let merged = base.merge(top);
    assert_eq!(merged.version, "2");
    assert!(merged.kiro.is_some());
    assert_eq!(merged.diff.unwrap().output_dir, "custom/diff");
}

#[test]
fn load_layers_global_then_repo() {
    let global = Config {
        version: "1".to_string(),
        kiro: Some(KiroConfig::default()),
        diff: Some(DiffConfig::default()),
    };
    let mut repo_diff = DiffConfig::default();
    repo_diff.large_file_changes_threshold = 200;
    let repo = Config {
        version: "1".to_string(),
        kiro: None,
        diff: Some(repo_diff),
    };
    let loaded = Config::load(Some(global), Some(repo));
    assert!(loaded.kiro.is_some());
    assert_eq!(loaded.diff.unwrap().large_file_changes_threshold, 200);
    let none = Config::load(None, None);
    assert_eq!(none.version, "1");
    assert!(none.kiro.is_none());
}

#[test]
fn empty_version_becomes_current() {
    let config = Config {
        version: String::new(),
        kiro: None,
        diff: None,
    }
    .with_version_default();
    assert_eq!(config.version, "1");
}

#[test]
fn config_dirs_follow_the_home_directory() {
    assert_eq!(
        agpod::config::templates_dir_for(Some("/home/u".to_string())),
        "/home/u/.config/agpod/templates"
    );
    assert_eq!(
        agpod::config::plugins_dir_for(Some("/home/u/".to_string())),
        "/home/u/.config/agpod/plugins"
    );
    assert_eq!(agpod::config::templates_dir_for(None), "~/.config/agpod/templates");
}

#[test]
fn config_dir_under_home() {
    assert_eq!(
        agpod::config::config_dir_for(Some("/home/u".to_string())),
        Some("/home/u/.config/agpod".to_string())
    );
    assert_eq!(agpod::config::config_dir_for(None), None);
}
