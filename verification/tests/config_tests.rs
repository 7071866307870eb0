use shellshelf::config::{resolve_active_shelf, resolve_target_shelf, validate_default_shelf};
use shellshelf::config::{
    get_team_data_file_path, get_team_shelf_file_path, resolve_teams_dir, shared_repo_source,
    team_data_file, teams_in_listing, validate_no_legacy_flat_shared_repo_keys,
    validate_relative_directory, DefaultSharedReadTarget, GithubSharedRepoConfig,
    PathSharedRepoConfig, RawReqbibConfig, RawSharedRepoConfig, ReqbibConfig, SharedRepoConfig,
    SharedRepoSource, SharedStorageContext,
};
use shellshelf::github::DEFAULT_GITHUB_REPO_AUTO_UPDATE_INTERVAL_MINUTES;

fn raw(mode: &str) -> RawSharedRepoConfig {
    RawSharedRepoConfig {
        mode: mode.to_string(),
        path: None,
        github_repo: None,
        teams_dir: None,
        auto_update_repo: None,
        auto_update_interval_minutes: None,
        default_team: None,
        default_all_teams: None,
    }
}

fn load(shared_repo: Option<RawSharedRepoConfig>, default_list_limit: Option<usize>) -> Result<ReqbibConfig, String> {
    ReqbibConfig::try_from(RawReqbibConfig {
        shared_repo,
        default_list_limit,
    })
}

fn path_config(teams_dir: Option<&str>) -> ReqbibConfig {
    ReqbibConfig {
        shared_repo: Some(SharedRepoConfig::Path(PathSharedRepoConfig {
            path: "/tmp/shared-reqbib".to_string(),
            teams_dir: teams_dir.map(str::to_string),
            default_team: None,
            default_all_teams: false,
        })),
        default_list_limit: None,
    }
}

#[test]
fn test_get_team_data_file_path() {
    let team_path = get_team_data_file_path("/tmp/shared-reqbib", "teams", "platform").unwrap();
    assert_eq!(team_path, "/tmp/shared-reqbib/teams/platform/commands.json");
}

#[test]
fn test_get_team_data_file_path_with_custom_teams_dir() {
    let team_path =
        get_team_data_file_path("/tmp/shared-reqbib", "company-teams", "platform").unwrap();
    assert_eq!(team_path, "/tmp/shared-reqbib/company-teams/platform/commands.json");
}

#[test]
fn test_get_team_data_file_path_rejects_invalid_team_name() {
    let error = get_team_data_file_path("/tmp/shared-reqbib", "teams", "../platform")
        .expect_err("invalid team names should be rejected");
    assert_eq!(
        error,
        "Team names may only contain letters, numbers, dots, underscores, and hyphens."
    );
}

#[test]
fn test_load_config_from_missing_file_returns_default() {
    let config = ReqbibConfig::default();
    assert_eq!(config, load(None, None).unwrap());
    assert_eq!(config.shared_repo, None);
    assert_eq!(config.default_list_limit, None);
}

#[test]
fn test_load_config_with_path_shared_repo() {
    let mut section = raw("path");
    section.path = Some("/tmp/shared-reqbib".to_string());
    section.teams_dir = Some("company-teams".to_string());
    let config = load(Some(section), None).unwrap();
    assert_eq!(
        config,
        ReqbibConfig {
            shared_repo: Some(SharedRepoConfig::Path(PathSharedRepoConfig {
                path: "/tmp/shared-reqbib".to_string(),
                teams_dir: Some("company-teams".to_string()),
                default_team: None,
                default_all_teams: false,
            })),
            default_list_limit: None,
        }
    );
}

#[test]
fn test_load_config_with_github_shared_repo_and_defaults() {
    let mut section = raw("github");
    section.github_repo = Some("acme/shared-reqbib".to_string());
    let config = load(Some(section), None).unwrap();
    assert_eq!(
        config,
        ReqbibConfig {
            shared_repo: Some(SharedRepoConfig::Github(GithubSharedRepoConfig {
                github_repo: "acme/shared-reqbib".to_string(),
                teams_dir: None,
                auto_update_repo: true,
                auto_update_interval_minutes: DEFAULT_GITHUB_REPO_AUTO_UPDATE_INTERVAL_MINUTES,
                default_team: None,
                default_all_teams: false,
            })),
            default_list_limit: None,
        }
    );
}

#[test]
fn test_load_config_with_default_team() {
    let mut section = raw("path");
    section.path = Some("/tmp/shared-reqbib".to_string());
    section.default_team = Some("platform".to_string());
    let config = load(Some(section), None).unwrap();
    assert_eq!(
        config.default_shared_read_target(),
        Some(DefaultSharedReadTarget::Team("platform".to_string()))
    );
}

#[test]
fn test_load_config_with_default_all_teams() {
    let mut section = raw("path");
    section.path = Some("/tmp/shared-reqbib".to_string());
    section.default_all_teams = Some(true);
    let config = load(Some(section), None).unwrap();
    assert_eq!(
        config.default_shared_read_target(),
        Some(DefaultSharedReadTarget::AllTeams)
    );
}

#[test]
fn test_load_config_with_default_list_limit() {
    let config = load(None, Some(12)).unwrap();
    assert_eq!(config.default_list_limit, Some(12));
}

#[test]
fn test_load_config_rejects_flat_legacy_shared_repo_keys() {
    let keys = vec!["github_repo".to_string(), "teams_dir".to_string()];
    let error = validate_no_legacy_flat_shared_repo_keys(Some(&keys))
        .expect_err("legacy flat config should be rejected");
    assert!(error.contains("Legacy flat shared repository config is no longer supported."));
    assert_eq!(
        error,
        "Legacy flat shared repository config is no longer supported. Move github_repo, teams_dir under 'shared_repo'."
    );
    let modern = vec!["shared_repo".to_string()];
    assert_eq!(validate_no_legacy_flat_shared_repo_keys(Some(&modern)), Ok(()));
    assert_eq!(validate_no_legacy_flat_shared_repo_keys(None), Ok(()));
}

#[test]
fn test_load_config_rejects_missing_path_for_path_mode() {
    let error = load(Some(raw("path")), None).expect_err("path mode requires a path");
    assert_eq!(error, "shared_repo.mode 'path' requires shared_repo.path.");
}

#[test]
fn test_load_config_rejects_missing_github_repo_for_github_mode() {
    let error = load(Some(raw("github")), None).expect_err("github mode requires a repo");
    assert_eq!(error, "shared_repo.mode 'github' requires shared_repo.github_repo.");
}

#[test]
fn test_load_config_rejects_mixed_path_and_github_fields() {
    let mut section = raw("github");
    section.github_repo = Some("acme/shared-reqbib".to_string());
    section.path = Some("/tmp/shared-reqbib".to_string());
    let error = load(Some(section), None).expect_err("mixed config should be rejected");
    assert_eq!(error, "shared_repo.mode 'github' cannot be combined with shared_repo.path.");
}

#[test]
fn test_load_config_rejects_auto_update_fields_in_path_mode() {
    let mut section = raw("path");
    section.path = Some("/tmp/shared-reqbib".to_string());
    section.auto_update_repo = Some(true);
    let error = load(Some(section), None).expect_err("path mode should reject github-only fields");
    assert_eq!(
        error,
        "shared_repo.auto_update_repo is only valid when shared_repo.mode is 'github'."
    );
}

#[test]
fn test_load_config_rejects_zero_auto_update_interval() {
    let mut section = raw("github");
    section.github_repo = Some("acme/shared-reqbib".to_string());
    section.auto_update_interval_minutes = Some(0);
    let error = load(Some(section), None).expect_err("zero interval should be rejected");
    assert_eq!(error, "shared_repo.auto_update_interval_minutes must be greater than 0.");
}

#[test]
fn test_load_config_rejects_default_team_with_default_all_teams() {
    let mut section = raw("path");
    section.path = Some("/tmp/shared-reqbib".to_string());
    section.default_team = Some("platform".to_string());
    section.default_all_teams = Some(true);
    let error = load(Some(section), None)
        .expect_err("conflicting default shared read selectors should be rejected");
    assert_eq!(
        error,
        "shared_repo.default_team cannot be combined with shared_repo.default_all_teams."
    );
}

#[test]
fn test_load_config_rejects_invalid_default_team() {
    let mut section = raw("path");
    section.path = Some("/tmp/shared-reqbib".to_string());
    section.default_team = Some("../platform".to_string());
    let error = load(Some(section), None).expect_err("invalid team names should be rejected");
    assert_eq!(
        error,
        "Team names may only contain letters, numbers, dots, underscores, and hyphens."
    );
}

#[test]
fn test_config_teams_dir_defaults_to_teams() {
    let config = ReqbibConfig::default();
    assert_eq!(config.teams_dir().unwrap(), "teams");
}

#[test]
fn test_config_teams_dir_rejects_parent_directory() {
    let config = path_config(Some("../teams"));
    let error = config.teams_dir().expect_err("invalid teams dir should be rejected");
    assert_eq!(
        error,
        "Teams directory must be a relative path without '.' or '..' components."
    );
}

#[test]
fn test_validate_relative_directory_rejects_absolute_paths() {
    let error = validate_relative_directory("/tmp/teams")
        .expect_err("absolute paths should be rejected");
    assert_eq!(
        error,
        "Teams directory must be a relative path without '.' or '..' components."
    );
}

#[test]
fn test_validate_relative_directory_accepts_nested_relative_paths() {
    validate_relative_directory("company/teams").unwrap();
}

#[test]
fn test_get_team_data_file_path_rejects_invalid_teams_dir() {
    let error = get_team_data_file_path("/tmp/shared-reqbib", "../teams", "platform")
        .expect_err("invalid teams dir should be rejected");
    assert_eq!(
        error,
        "Teams directory must be a relative path without '.' or '..' components."
    );
}

fn context_for(
    explicit_repo: Option<&str>,
    explicit_teams_dir: Option<&str>,
    config: &ReqbibConfig,
    team: bool,
    all_teams: bool,
) -> Result<Option<SharedStorageContext>, String> {
    match shared_repo_source(explicit_repo, config, team, all_teams)? {
        None => Ok(None),
        Some(SharedRepoSource::Directory(root)) => Ok(Some(SharedStorageContext {
            repository_root: root,
            teams_dir: resolve_teams_dir(explicit_teams_dir, config)?,
        })),
        Some(SharedRepoSource::Github { .. }) => Err("checkout needed".to_string()),
    }
}

#[test]
fn test_resolve_data_file_path_uses_configured_repository_settings() {
    let config = path_config(Some("company-teams"));
    let shared_context = context_for(None, None, &config, true, false).unwrap();
    let path = team_data_file(shared_context.as_ref(), "platform").unwrap();
    assert_eq!(path, "/tmp/shared-reqbib/company-teams/platform/commands.json");
}

#[test]
fn test_resolve_data_file_path_prefers_cli_over_config() {
    let config = path_config(Some("company-teams"));
    let shared_context = context_for(
        Some("/tmp/override-repo"),
        Some("override-teams"),
        &config,
        true,
        false,
    )
    .unwrap();
    let path = team_data_file(shared_context.as_ref(), "platform").unwrap();
    assert_eq!(path, "/tmp/override-repo/override-teams/platform/commands.json");
}

#[test]
fn shared_repo_source_rejects_team_with_all_teams_and_missing_repo() {
    let config = ReqbibConfig::default();
    assert_eq!(
        shared_repo_source(None, &config, true, true),
        Err("--team cannot be used together with --all-teams.".to_string())
    );
    assert_eq!(
        shared_repo_source(None, &config, true, false),
        Err("No shared repository configured. Use --repo or configure shared_repo in config.".to_string())
    );
    assert_eq!(shared_repo_source(None, &config, false, false), Ok(None));
    assert_eq!(
        team_data_file(None, "platform"),
        Err("No shared repository configured. Use --repo or configure shared_repo in config.".to_string())
    );
}

#[test]
fn shared_repo_source_uses_github_checkout_settings() {
    let mut section = raw("github");
    section.github_repo = Some("acme/shared".to_string());
    section.auto_update_interval_minutes = Some(2);
    let config = load(Some(section), None).unwrap();
    assert_eq!(
        shared_repo_source(None, &config, false, true),
        Ok(Some(SharedRepoSource::Github {
            repo: "acme/shared".to_string(),
            auto_update: true,
            interval_seconds: 120,
        }))
    );
}

#[test]
fn team_shelf_file_lives_under_shelves() {
    assert_eq!(
        get_team_shelf_file_path("/repo", "teams", "platform", "curl"),
        Ok("/repo/teams/platform/shelves/curl.json".to_string())
    );
    assert_eq!(
        get_team_shelf_file_path("/repo", "teams", "platform", "bad name"),
        Err("Shelf names may only contain letters, numbers, dots, underscores, and hyphens.".to_string())
    );
}

#[test]
fn teams_listing_keeps_valid_directories_sorted() {
    let entries = vec![
        ("search".to_string(), true),
        ("notes.txt".to_string(), false),
        ("bad name".to_string(), true),
        ("platform".to_string(), true),
    ];
    assert_eq!(
        teams_in_listing(&entries),
        vec!["platform".to_string(), "search".to_string()]
    );
}

#[test]
fn active_shelf_prefers_flag_then_default_shelf_then_builtin() {
    assert_eq!(resolve_active_shelf(Some("git"), Some("curl")), Ok("git".to_string()));
    assert_eq!(resolve_active_shelf(None, Some("curl")), Ok("curl".to_string()));
    assert_eq!(resolve_active_shelf(None, None), Ok("default".to_string()));
    assert_eq!(
        resolve_active_shelf(Some("bad/name"), None),
        Err("Shelf names may only contain letters, numbers, dots, underscores, and hyphens.".to_string())
    );
    assert_eq!(resolve_target_shelf(Some("aws"), Some("git"), Some("curl")), Ok("aws".to_string()));
    assert_eq!(resolve_target_shelf(None, None, Some("curl")), Ok("curl".to_string()));
    assert!(validate_default_shelf(Some("..")).is_err());
    assert!(validate_default_shelf(None).is_ok());
}
