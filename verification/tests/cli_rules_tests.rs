use shellshelf::cli_rules::{validate_flags, CliFlags};

fn none() -> CliFlags {
    CliFlags {
        add_repo: false,
        add_personal_repo: false,
        personal_repo_bootstrap: false,
        all_teams: false,
        force_sync: false,
        force_sync_personal: false,
        sync_personal: false,
        local_only: false,
        shared_only: false,
        import_postman: false,
        open_pr: false,
        web: false,
        web_port: false,
        add: false,
        description: false,
        target_shelf: false,
        shelf: None,
        create_shelf: None,
        list: false,
        list_shelves: false,
        limit: false,
        repo: false,
        teams_dir: false,
        team: false,
        base_branch: false,
        pr_branch: false,
        has_keywords: false,
        get: false,
        render: false,
        name: false,
        json: false,
        raw: false,
        has_args: false,
    }
}

#[test]
fn ordinary_reads_and_writes_are_accepted() {
    assert_eq!(validate_flags(&none()), Ok(()));
    let mut add = none();
    add.add = true;
    add.description = true;
    add.shelf = Some("curl".to_string());
    assert_eq!(validate_flags(&add), Ok(()));
    let mut search = none();
    search.has_keywords = true;
    search.all_teams = true;
    assert_eq!(validate_flags(&search), Ok(()));
}

#[test]
fn conflicting_options_are_refused_with_their_rule() {
    let mut both = none();
    both.local_only = true;
    both.shared_only = true;
    assert_eq!(
        validate_flags(&both),
        Err("--local-only cannot be used together with --shared-only.".to_string())
    );
    let mut port = none();
    port.web_port = true;
    assert_eq!(
        validate_flags(&port),
        Err("--web-port can only be used with --web.".to_string())
    );
    let mut web = none();
    web.web = true;
    web.list = true;
    assert_eq!(
        validate_flags(&web),
        Err("--web cannot be combined with --add, --list, --list-shelves, --create-shelf, or --import-postman.".to_string())
    );
    let mut description = none();
    description.description = true;
    assert_eq!(
        validate_flags(&description),
        Err("--description can only be used with --add.".to_string())
    );
    let mut mismatch = none();
    mismatch.create_shelf = Some("git".to_string());
    mismatch.shelf = Some("curl".to_string());
    assert_eq!(
        validate_flags(&mismatch),
        Err("--shelf must match --create-shelf when both are provided.".to_string())
    );
    let mut matching = none();
    matching.create_shelf = Some("git".to_string());
    matching.shelf = Some("git".to_string());
    assert_eq!(validate_flags(&matching), Ok(()));
    let mut pr = none();
    pr.add = true;
    pr.open_pr = true;
    assert_eq!(
        validate_flags(&pr),
        Err("--open-pr requires --team so the change targets shared storage.".to_string())
    );
    let mut repo = none();
    repo.add_repo = true;
    repo.list = true;
    assert_eq!(
        validate_flags(&repo),
        Err("--add-repo must be used on its own.".to_string())
    );
}
