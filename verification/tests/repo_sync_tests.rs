use shellshelf::database::{CommandDatabase, MergeDatabaseOutcome, StoredCommand};
use shellshelf::repo_sync::{
    accumulate_merge_outcome, bootstrap_action, bootstrap_branch_name, bootstrap_outcome,
    ensure_clean_checkout, json_shelf_name, merge_shelf, merged_shelf_names,
    parse_personal_repo_bootstrap_mode, personal_shelf_path, switch_branch_args, backup_shelf_path, collect_shelf_names, detect_default_base_branch, BaseBranch,
    sync_warning_from_counts, sync_warning_message, BootstrapAction, MergeShelvesOutcome,
    PersonalRepoBootstrapMode, PersonalRepoBootstrapOutcome, PersonalRepoSyncWarning,
    SyncRepository,
};

fn strings(values: &[&str]) -> Vec<String> {
    values.iter().map(|value| value.to_string()).collect()
}

#[test]
fn shelf_files_and_names() {
    assert_eq!(personal_shelf_path("/repo", "curl"), "/repo/shelves/curl.json");
    assert_eq!(backup_shelf_path("/backup/", "git"), "/backup/shelves/git.json");
    assert_eq!(
        collect_shelf_names(&vec![
            ("aws".to_string(), "/r/shelves/aws.json".to_string()),
            ("git".to_string(), "/r/shelves/git.json".to_string()),
        ]),
        strings(&["aws", "git"])
    );
    assert_eq!(json_shelf_name("curl.json").as_deref(), Some("curl"));
    assert_eq!(json_shelf_name("curl.txt"), None);
    assert_eq!(json_shelf_name(".json"), None);
    assert_eq!(json_shelf_name("a b.json"), None);
}

#[test]
fn clean_checkout_is_required() {
    assert!(ensure_clean_checkout("", SyncRepository::Personal).is_ok());
    assert_eq!(
        ensure_clean_checkout(" M shelves/x.json", SyncRepository::Backup),
        Err("Backup repository checkout has uncommitted changes. Commit, stash, or discard them before syncing local shelves.".to_string())
    );
}

#[test]
fn switching_branches() {
    assert_eq!(switch_branch_args("main", "main", true, true), None);
    assert_eq!(
        switch_branch_args("work", "main", true, false),
        Some(strings(&["switch", "main"]))
    );
    assert_eq!(
        switch_branch_args("work", "main", false, true),
        Some(strings(&["switch", "-c", "main", "--track", "origin/main"]))
    );
    assert_eq!(
        switch_branch_args("work", "main", false, false),
        Some(strings(&["switch", "-c", "main"]))
    );
    assert_eq!(bootstrap_branch_name("master").as_deref(), Some("main"));
    assert_eq!(bootstrap_branch_name("dev").as_deref(), Some("dev"));
    assert_eq!(bootstrap_branch_name(""), None);
}

#[test]
fn bootstrap_decisions() {
    assert_eq!(
        parse_personal_repo_bootstrap_mode("merge"),
        Ok(PersonalRepoBootstrapMode::Merge)
    );
    assert_eq!(
        parse_personal_repo_bootstrap_mode("sideways"),
        Err("personal repo bootstrap mode must be one of: auto, merge, push, pull, skip.".to_string())
    );
    let auto = PersonalRepoBootstrapMode::Auto;
    assert_eq!(bootstrap_action(auto, true, true, true), BootstrapAction::Skip);
    assert_eq!(bootstrap_action(auto, false, true, false), BootstrapAction::Push);
    assert_eq!(bootstrap_action(auto, true, false, false), BootstrapAction::Pull);
    assert_eq!(bootstrap_action(auto, false, false, true), BootstrapAction::NothingToDo);
    assert_eq!(bootstrap_action(auto, false, false, false), BootstrapAction::Merge);
    assert_eq!(
        bootstrap_outcome(BootstrapAction::Merge, false),
        PersonalRepoBootstrapOutcome::AlreadyInSync
    );
    assert_eq!(
        bootstrap_outcome(BootstrapAction::Pull, true),
        PersonalRepoBootstrapOutcome::Pulled
    );
}

#[test]
fn sync_warnings_from_commit_counts() {
    assert_eq!(sync_warning_from_counts("0\t0\n", "/repo", "main"), Ok(None));
    let ahead = sync_warning_from_counts("2\t0\n", "/repo", "main").unwrap().unwrap();
    match &ahead {
        PersonalRepoSyncWarning::Ahead {
            local_commits,
            push_command,
            ..
        } => {
            assert_eq!(*local_commits, 2);
            assert_eq!(push_command, "git -C /repo push origin main");
        }
        other => panic!("unexpected warning {other:?}"),
    }
    assert!(sync_warning_message(&ahead).contains("ahead of origin by 2 commit(s)"));
    assert!(sync_warning_from_counts("", "/repo", "main").is_err());
    assert!(sync_warning_from_counts("x 1", "/repo", "main").is_err());
    let diverged = sync_warning_from_counts("1 3", "/my repo", "main").unwrap().unwrap();
    match diverged {
        PersonalRepoSyncWarning::Diverged { pull_command, .. } => {
            assert_eq!(pull_command, "git -C '/my repo' pull --rebase origin main");
        }
        other => panic!("unexpected warning {other:?}"),
    }
}

#[test]
fn merged_shelf_names_are_sorted_and_distinct() {
    assert_eq!(
        merged_shelf_names(&strings(&["curl", "git"]), &strings(&["aws", "curl"])),
        strings(&["aws", "curl", "git"])
    );
}

#[test]
fn merging_a_shelf_counts_changed_sides() {
    let local = CommandDatabase {
        commands: vec![StoredCommand::new("git status".to_string(), None)],
    };
    let personal = CommandDatabase {
        commands: vec![StoredCommand::new("git status".to_string(), Some("Status".to_string()))],
    };
    let mut total = MergeShelvesOutcome::default();
    let (merged, local_changed, personal_changed) = merge_shelf(&local, &personal, &mut total);
    assert_eq!(merged.commands.len(), 1);
    assert_eq!(merged.commands[0].description.as_deref(), Some("Status"));
    assert!(local_changed);
    assert!(!personal_changed);
    assert_eq!(total.local_shelves_changed, 1);
    assert_eq!(total.personal_shelves_changed, 0);
    assert_eq!(total.duplicate_commands_removed, 1);
    assert_eq!(total.descriptions_upgraded, 1);
    assert!(!total.is_unchanged());

    let mut sum = MergeShelvesOutcome::default();
    accumulate_merge_outcome(
        &mut sum,
        MergeDatabaseOutcome {
            duplicate_commands_removed: 2,
            descriptions_upgraded: 1,
        },
    );
    assert_eq!(sum.duplicate_commands_removed, 2);
    assert_eq!(sum.descriptions_upgraded, 1);
}

#[test]
fn base_branch_detection() {
    let personal = SyncRepository::Personal;
    assert_eq!(
        detect_default_base_branch(personal, Some("refs/remotes/origin/trunk\n"), true, false, "x", false),
        Ok(BaseBranch { name: "trunk".to_string(), exists_on_origin: true })
    );
    assert_eq!(
        detect_default_base_branch(personal, None, false, true, "x", false),
        Ok(BaseBranch { name: "master".to_string(), exists_on_origin: true })
    );
    assert_eq!(
        detect_default_base_branch(personal, None, false, false, "master", false),
        Ok(BaseBranch { name: "main".to_string(), exists_on_origin: false })
    );
    assert_eq!(
        detect_default_base_branch(personal, None, false, false, "", false),
        Err("Could not determine the personal repository base branch.".to_string())
    );
    assert_eq!(
        detect_default_base_branch(SyncRepository::Backup, None, false, false, "dev", true),
        Err("Could not determine the backup repository base branch.".to_string())
    );
}

#[test]
fn sync_warning_variant_follows_counts() {
    assert!(matches!(
        sync_warning_from_counts("2\t0", "/r", "main").unwrap(),
        Some(PersonalRepoSyncWarning::Ahead { local_commits: 2, .. })
    ));
    assert!(matches!(
        sync_warning_from_counts("0\t3", "/r", "main").unwrap(),
        Some(PersonalRepoSyncWarning::Behind { remote_commits: 3, .. })
    ));
    assert!(matches!(
        sync_warning_from_counts("1\t1", "/r", "main").unwrap(),
        Some(PersonalRepoSyncWarning::Diverged { local_commits: 1, remote_commits: 1, .. })
    ));
}

#[test]
fn shared_repository_base_branch_and_dirty_checkout() {
    assert_eq!(
        detect_default_base_branch(SyncRepository::Shared, None, false, false, "dev", true).unwrap_err(),
        "Could not determine the shared repository base branch. Use --base-branch <BRANCH>."
    );
    assert_eq!(
        detect_default_base_branch(SyncRepository::Shared, None, false, true, "dev", true).unwrap().name,
        "master"
    );
    assert_eq!(
        ensure_clean_checkout(" M a", SyncRepository::Shared).unwrap_err(),
        "Shared repository checkout has uncommitted changes. Commit, stash, or discard them before using --open-pr."
    );
}

#[test]
fn sync_warning_reports_count_parse_errors() {
    assert_eq!(
        sync_warning_from_counts("x\t0", "/r", "main").unwrap_err(),
        "invalid digit found in string"
    );
    assert_eq!(
        sync_warning_from_counts("1\t99999999999999999999999", "/r", "main").unwrap_err(),
        "number too large to fit in target type"
    );
}
