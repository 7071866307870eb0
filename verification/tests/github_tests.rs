use shellshelf::github::{
    get_github_repo_checkout_path, get_github_repo_sync_stamp_path, normalize_github_repo_input,
    update_stamp_to_check, validate_github_repo_name,
};
use shellshelf::repo_sync::auto_update_due;

#[test]
fn test_validate_github_repo_name_accepts_owner_repo() {
    validate_github_repo_name("acme/shared-shellshelf").unwrap();
}

#[test]
fn test_normalize_github_repo_input_accepts_common_url_forms() {
    assert_eq!(
        normalize_github_repo_input("https://github.com/acme/shared-shellshelf.git").unwrap(),
        "acme/shared-shellshelf"
    );
    assert_eq!(
        normalize_github_repo_input("git@github.com:acme/shared-shellshelf.git").unwrap(),
        "acme/shared-shellshelf"
    );
    assert_eq!(
        normalize_github_repo_input("github.com/acme/shared-shellshelf/").unwrap(),
        "acme/shared-shellshelf"
    );
}

#[test]
fn test_normalize_github_repo_input_rejects_empty_input() {
    let error = normalize_github_repo_input("   ").expect_err("empty repo should fail");
    assert_eq!(error, "GitHub repository cannot be empty.");
}

#[test]
fn test_validate_github_repo_name_rejects_invalid_format() {
    let error = validate_github_repo_name("acme").expect_err("missing repo name should be rejected");
    assert_eq!(error, "GitHub repository must be in the format <owner>/<repo>.");
}

#[test]
fn test_get_github_repo_checkout_path() {
    let checkout_path =
        get_github_repo_checkout_path("/tmp/shellshelf-repos", "acme/shared-shellshelf").unwrap();
    assert_eq!(checkout_path, "/tmp/shellshelf-repos/acme__shared-shellshelf");
}

#[test]
fn test_get_github_repo_sync_stamp_path() {
    let sync_stamp_path =
        get_github_repo_sync_stamp_path("/tmp/shellshelf-state", "acme/shared-shellshelf").unwrap();
    assert_eq!(sync_stamp_path, "/tmp/shellshelf-state/acme__shared-shellshelf.sync");
}

#[test]
fn update_plan_respects_disable_flag_and_due_time() {
    assert_eq!(update_stamp_to_check("acme/shared", false, "/state"), Ok(None));
    assert_eq!(
        update_stamp_to_check("acme/shared", true, "/state"),
        Ok(Some("/state/acme__shared.sync".to_string()))
    );
    assert!(update_stamp_to_check("acme", true, "/state").is_err());
    assert!(auto_update_due(None, 10));
    assert!(auto_update_due(Some(10), 10));
    assert!(!auto_update_due(Some(9), 10));
}
