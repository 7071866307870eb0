use shellshelf::database::{
    add_status, same_database, AddCommandOutcome, CommandDatabase, MergeDatabaseOutcome, SaveCommandOutcome, StoredCommand,
};

fn strings(values: &[&str]) -> Vec<String> {
    values.iter().map(|value| value.to_string()).collect()
}

#[test]
fn test_stored_command_new_includes_description_keywords() {
    let command = "curl https://example.com/releases".to_string();
    let stored = StoredCommand::new(command.clone(), Some("Upload release build".to_string()));

    assert_eq!(stored.command, command);
    assert_eq!(stored.description.as_deref(), Some("Upload release build"));
    assert!(stored.keywords.contains(&"upload".to_string()));
    assert!(stored.keywords.contains(&"release".to_string()));
    assert!(stored.keywords.contains(&"build".to_string()));
    assert!(stored.keywords.contains(&"example".to_string()));
}

#[test]
fn test_command_database_new() {
    let db = CommandDatabase::new();
    assert!(db.commands.is_empty());
}

#[test]
fn test_command_database_add_command() {
    let mut db = CommandDatabase::new();
    let command = "git log --oneline -20".to_string();

    db.add_command(command.clone(), Some("Recent history".to_string()));
    assert_eq!(db.commands.len(), 1);
    assert_eq!(db.commands[0].command, command);
    assert_eq!(db.commands[0].description.as_deref(), Some("Recent history"));
}

#[test]
fn test_command_database_add_duplicate_command() {
    let mut db = CommandDatabase::new();
    let command = "git status".to_string();

    assert!(db.add_command(command.clone(), Some("First description".to_string())));
    assert!(!db.add_command(command, Some("Second description".to_string())));

    assert_eq!(db.commands.len(), 1);
    assert_eq!(db.commands[0].description.as_deref(), Some("First description"));
}

#[test]
fn test_command_database_save_command_updates_existing_entry() {
    let mut db = CommandDatabase::new();
    db.add_command("curl https://example.com/old".to_string(), Some("Old".to_string()));

    let outcome = db.save_command(
        Some("curl https://example.com/old"),
        "curl https://example.com/new".to_string(),
        Some("Updated".to_string()),
    );

    assert_eq!(outcome, SaveCommandOutcome::Updated);
    assert_eq!(db.commands.len(), 1);
    assert_eq!(db.commands[0].command, "curl https://example.com/new");
    assert_eq!(db.commands[0].description.as_deref(), Some("Updated"));
}

#[test]
fn test_command_database_save_command_rejects_collision_when_updating() {
    let mut db = CommandDatabase::new();
    db.add_command("curl https://example.com/one".to_string(), None);
    db.add_command("curl https://example.com/two".to_string(), None);

    let outcome = db.save_command(
        Some("curl https://example.com/one"),
        "curl https://example.com/two".to_string(),
        None,
    );

    assert_eq!(outcome, SaveCommandOutcome::Duplicate);
    assert_eq!(db.commands.len(), 2);
}

#[test]
fn save_command_without_original_adds_once() {
    let mut db = CommandDatabase::new();
    assert_eq!(
        db.save_command(None, "git status".to_string(), None),
        SaveCommandOutcome::Added
    );
    assert_eq!(
        db.save_command(None, "git status".to_string(), None),
        SaveCommandOutcome::Duplicate
    );
    assert_eq!(db.commands.len(), 1);
}

#[test]
fn test_command_database_search() {
    let mut db = CommandDatabase::new();

    db.add_command("git log --oneline --graph".to_string(), None);
    db.add_command("aws s3 ls s3://example-bucket".to_string(), None);
    db.add_command(
        "curl -X POST https://api.github.com/repos".to_string(),
        Some("Create repository".to_string()),
    );

    assert_eq!(db.search_in_shelf(&strings(&["graph"]), "default").len(), 1);
    assert_eq!(db.search_in_shelf(&strings(&["bucket"]), "default").len(), 1);
    assert_eq!(db.search_in_shelf(&strings(&["github"]), "default").len(), 1);
    assert_eq!(db.search_in_shelf(&strings(&["repository"]), "default").len(), 1);
    assert_eq!(db.search_in_shelf(&strings(&["nonexistent"]), "default").len(), 0);
}

#[test]
fn test_command_database_search_case_insensitive() {
    let mut db = CommandDatabase::new();
    db.add_command(
        "AWS S3 LS s3://Example-Bucket".to_string(),
        Some("List artifacts".to_string()),
    );

    assert_eq!(db.search_in_shelf(&strings(&["aws"]), "default").len(), 1);
    assert_eq!(db.search_in_shelf(&strings(&["bucket"]), "default").len(), 1);
    assert_eq!(db.search_in_shelf(&strings(&["ARTIFACTS"]), "default").len(), 1);
}

#[test]
fn test_command_database_search_matches_shelf_name_context() {
    let mut db = CommandDatabase::new();
    db.add_command("curl https://example.com/upload".to_string(), None);

    assert_eq!(db.search_in_shelf(&strings(&["media", "upload"]), "media").len(), 1);
    assert_eq!(db.search_in_shelf(&strings(&["media"]), "media").len(), 1);
    assert_eq!(db.search_in_shelf(&strings(&["payments", "upload"]), "media").len(), 0);
}

#[test]
fn test_command_database_search_matches_separator_heavy_shelf_names() {
    let mut db = CommandDatabase::new();
    db.add_command("curl https://example.com/health".to_string(), None);

    assert_eq!(db.search_in_shelf(&strings(&["media"]), "media-tools").len(), 1);
    assert_eq!(db.search_in_shelf(&strings(&["tools"]), "media_tools").len(), 1);
    assert_eq!(db.search_in_shelf(&strings(&["api"]), "media.api").len(), 1);
}

#[test]
fn database_test_search_partial_keyword_match() {
    let mut db = CommandDatabase::new();
    db.add_command("curl https://api.github.com/repositories".to_string(), None);

    assert_eq!(db.search_in_shelf(&strings(&["repo"]), "default").len(), 1);
    assert_eq!(db.search_in_shelf(&strings(&["hub"]), "default").len(), 1);
}

#[test]
fn test_command_database_merged_with_deduplicates_and_upgrades_description() {
    let local = CommandDatabase {
        commands: vec![
            StoredCommand::new("curl https://example.com".to_string(), Some("Short".to_string())),
            StoredCommand::new("git status".to_string(), None),
        ],
    };
    let remote = CommandDatabase {
        commands: vec![
            StoredCommand::new(
                "curl https://example.com".to_string(),
                Some("Longer curl description".to_string()),
            ),
            StoredCommand::new("aws s3 ls".to_string(), Some("List buckets".to_string())),
        ],
    };

    let (merged, outcome) = local.merged_with(&remote);

    assert_eq!(
        merged.commands,
        vec![
            StoredCommand::new(
                "curl https://example.com".to_string(),
                Some("Longer curl description".to_string()),
            ),
            StoredCommand::new("git status".to_string(), None),
            StoredCommand::new("aws s3 ls".to_string(), Some("List buckets".to_string())),
        ]
    );
    assert_eq!(
        outcome,
        MergeDatabaseOutcome {
            duplicate_commands_removed: 1,
            descriptions_upgraded: 1,
        }
    );
}

#[test]
fn test_command_database_merged_with_prefers_first_description_when_lengths_match() {
    let local = CommandDatabase {
        commands: vec![StoredCommand::new(
            "curl https://example.com".to_string(),
            Some("Local text".to_string()),
        )],
    };
    let remote = CommandDatabase {
        commands: vec![StoredCommand::new(
            "curl https://example.com".to_string(),
            Some("Remote txt".to_string()),
        )],
    };

    let (merged, outcome) = local.merged_with(&remote);

    assert_eq!(merged.commands.len(), 1);
    assert_eq!(merged.commands[0].description.as_deref(), Some("Local text"));
    assert_eq!(
        outcome,
        MergeDatabaseOutcome {
            duplicate_commands_removed: 1,
            descriptions_upgraded: 0,
        }
    );
}

#[test]
fn merging_is_idempotent_on_its_result() {
    let local = CommandDatabase {
        commands: vec![
            StoredCommand::new("git status".to_string(), Some("Status".to_string())),
            StoredCommand::new("git status".to_string(), None),
        ],
    };
    let (merged, outcome) = local.merged_with(&CommandDatabase::new());
    assert_eq!(merged.commands.len(), 1);
    assert_eq!(outcome.duplicate_commands_removed, 1);
    let (again, second) = merged.merged_with(&merged);
    assert!(same_database(&again, &merged));
    assert_eq!(second.duplicate_commands_removed, 1);
    assert_eq!(second.descriptions_upgraded, 0);
    assert!(!same_database(&local, &merged));
}

#[test]
fn add_status_words_for_each_outcome() {
    assert_eq!(add_status(AddCommandOutcome::Added), "added");
    assert_eq!(add_status(AddCommandOutcome::NamedExisting), "named_existing");
    assert_eq!(add_status(AddCommandOutcome::Unchanged), "unchanged");
}
