use shellshelf::publish::{
    base_branch_from_symbolic_ref, ensure_clean_worktree, paths_have_changes,
    sanitize_branch_component,
};

#[test]
fn test_sanitize_branch_component_normalizes_text() {
    assert_eq!(sanitize_branch_component("Platform Uploads"), "platform-uploads");
    assert_eq!(sanitize_branch_component("curl.aws"), "curl.aws");
}

#[test]
fn test_sanitize_branch_component_falls_back_when_empty() {
    assert_eq!(sanitize_branch_component("!!!"), "update");
}

#[test]
fn worktree_status_decisions() {
    assert!(ensure_clean_worktree("  \n").is_ok());
    assert!(ensure_clean_worktree(" M shelves/curl.json\n").is_err());
    assert!(paths_have_changes("?? shelves/new.json\n"));
    assert!(!paths_have_changes("\n"));
    assert_eq!(
        base_branch_from_symbolic_ref("refs/remotes/origin/main\n").as_deref(),
        Some("main")
    );
}

#[test]
fn sanitized_components_are_settled_on_examples() {
    for value in ["Platform Uploads", "curl.aws", "!!!", "--A_b--", "x"] {
        let once = sanitize_branch_component(value);
        assert!(!once.is_empty());
        assert!(once
            .chars()
            .all(|c| c.is_ascii_lowercase() || c.is_ascii_digit() || "-_.".contains(c)));
        assert!(!once.starts_with(['-', '_', '.']) && !once.ends_with(['-', '_', '.']));
        assert_eq!(sanitize_branch_component(&once), once);
    }
}
