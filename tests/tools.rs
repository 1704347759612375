use agpod::config::KiroConfig;
use agpod::kiro::git::GitHelper;
use agpod::kiro::plugin::PluginExecutor;
use agpod::vcs_path::{render_line, CliOptions, VcsInfo, VcsPathInfoArgs};

#[test]
fn test_plugin_executor_with_disabled_plugin() {
    let mut config = KiroConfig::default();
    config.plugins.name.enabled = false;

    let executor = PluginExecutor::new(config);
    assert_eq!(executor.plugin_path(), None);
    let result = executor.branch_name_from("Test Description", None);
    assert_eq!(result, "test-description");
}

#[test]
fn test_plugin_executor_with_nonexistent_plugin() {
    let mut config = KiroConfig::default();
    config.plugins_dir = "/nonexistent/path".to_string();
    config.plugins.name.enabled = true;
    config.plugins.name.command = "nonexistent.sh".to_string();

    let executor = PluginExecutor::new(config);
    assert_eq!(
        executor.plugin_path(),
        Some("/nonexistent/path/nonexistent.sh".to_string())
    );
    let result = executor.branch_name_from("Test Description", None);
    assert_eq!(result, "test-description");
}

#[test]
fn plugin_path_absolute_and_disabled() {
    let mut config = KiroConfig::default();
    config.plugins.name.command = "/opt/name.sh".to_string();
    let executor = PluginExecutor::new(config);
    assert_eq!(executor.plugin_path(), Some("/opt/name.sh".to_string()));

    let mut config = KiroConfig::default();
    config.plugins.name.enabled = false;
    let executor = PluginExecutor::new(config);
    assert_eq!(executor.plugin_path(), None);
}

#[test]
fn branch_name_falls_back_to_slug() {
    let executor = PluginExecutor::new(KiroConfig::default());
    assert_eq!(
        executor.branch_name_from("Test Description", None),
        "test-description"
    );
    assert_eq!(
        executor.branch_name_from("Test Description", Some("  !!! \n".to_string())),
        "test-description"
    );
    assert_eq!(
        executor.branch_name_from("Test Description", Some("feat/login page\n".to_string())),
        "featlogin-page"
    );
}

#[test]
fn git_info_needs_a_root() {
    let info = GitHelper::get_git_info(
        Some("/home/user/project\n".to_string()),
        Some("main\n".to_string()),
        None,
    )
    .unwrap();
    assert_eq!(info.repo_root, "/home/user/project");
    assert_eq!(info.current_branch.as_deref(), Some("main"));
    assert!(info.short_sha.is_none());
    assert!(GitHelper::get_git_info(None, Some("main".to_string()), None).is_none());
}

#[test]
fn vcs_line_rendering() {
    let mut info = VcsInfo::from_line("  12 /home/user/project  ", 1);
    assert_eq!(info.segments, vec!["12".to_string(), "/home/user/project".to_string()]);
    assert_eq!(info.path_str(), Some(&"/home/user/project".to_string()));
    assert_eq!(render_line(&info, true, None), None);
    assert_eq!(
        render_line(&info, false, None),
        Some("/home/user/project".to_string())
    );
    info.branch = Some("main".to_string());
    assert_eq!(
        render_line(&info, false, None),
        Some("/home/user/project main".to_string())
    );
    assert_eq!(
        render_line(&info, true, Some("{path} [{branch}]")),
        Some("/home/user/project [main]".to_string())
    );
    let missing = VcsInfo::from_line("only", 3);
    assert_eq!(missing.path_str(), None);
}

#[test]
fn cli_options_default_to_first_segment() {
    let opts = CliOptions::from_args(VcsPathInfoArgs {
        format: None,
        nth: None,
        filter: true,
        no_bare: false,
    });
    assert_eq!(opts.nth, 0);
    assert!(opts.filter);
}

#[test]
fn plugin_environment_follows_pass_env() {
    let mut config = KiroConfig::default();
    config.base_dir = "llm/kiro".to_string();
    let executor = PluginExecutor::new(config);
    let env = vec![
        ("GIT_AUTHOR".to_string(), "me".to_string()),
        ("PATH".to_string(), "/bin".to_string()),
        ("HOME".to_string(), "/home/me".to_string()),
        ("AGPOD_X".to_string(), "1".to_string()),
    ];
    let vars = executor.plugin_env(
        "Add login",
        "default",
        "2024-01-01T00:00:00+00:00",
        Some("me".to_string()),
        Some("/repo\n".to_string()),
        &env,
    );
    let expected: Vec<(String, String)> = vec![
        ("AGPOD_DESC", "Add login"),
        ("AGPOD_TEMPLATE", "default"),
        ("AGPOD_TIME_ISO", "2024-01-01T00:00:00+00:00"),
        ("AGPOD_BASE_DIR", "llm/kiro"),
        ("AGPOD_USER", "me"),
        ("AGPOD_REPO_ROOT", "/repo"),
        ("AGPOD_X", "1"),
        ("GIT_AUTHOR", "me"),
        ("HOME", "/home/me"),
    ]
    .into_iter()
    .map(|(k, v)| (k.to_string(), v.to_string()))
    .collect();
    assert_eq!(vars, expected);
}
