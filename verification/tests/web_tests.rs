use shellshelf::web::{resolve_web_port, WebTheme};
use shellshelf::browse::{
    group_team_shelves, shelf_data, shelves_in_listing, BrowseData, CommandEntry, ShelfData,
};
use shellshelf::config::SharedStorageContext;
use shellshelf::database::{SaveCommandOutcome, StoredCommand};
use shellshelf::web::{
    created_shelf_message, fallback_command_preview, format_command_preview, local_data_file_path,
    map_browse_response, map_command, preview_option, resolve_data_file_path, run_refusal,
    saved_command_message, shelf_exists_message, themed_index, ShelfScope,
};

fn entry(command: &str, description: Option<&str>) -> CommandEntry {
    CommandEntry {
        command: command.to_string(),
        description: description.map(str::to_string),
    }
}

#[test]
fn test_format_command_preview_breaks_flags_into_lines() {
    let preview = format_command_preview(
        "curl --request POST https://example.com -H'X-API-Key: 123' --form 'file=@cat.gif'",
    );

    assert!(preview.starts_with("curl"));
    assert!(preview.contains("\n  --request 'POST'") || preview.contains("\n  --request POST"));
    assert!(preview.contains("\n  -H 'X-API-Key: 123'"));
    assert!(preview.contains("\n  --form 'file=@cat.gif'"));
}

#[test]
fn preview_lines_exactly() {
    assert_eq!(
        format_command_preview("curl -X GET --url=https://a.example -v 'two words'"),
        "curl\n  -X GET\n  --url https://a.example\n  -v\n  'two words'"
    );
    assert_eq!(format_command_preview(""), "");
    assert_eq!(format_command_preview("curl -H"), "curl\n  -H");
}

#[test]
fn preview_falls_back_when_quotes_do_not_close() {
    assert_eq!(
        format_command_preview("curl 'oops --data x"),
        fallback_command_preview("curl 'oops --data x")
    );
    assert_eq!(fallback_command_preview("a -b"), "a\n  -b");
    assert_eq!(fallback_command_preview("a --b"), "a\n \n  --b");
}

#[test]
fn preview_option_reads_inline_and_separate_values() {
    let tokens: Vec<String> = vec!["curl", "-d", "x", "--json={}", "-Fa=b", "-F"]
        .into_iter()
        .map(str::to_string)
        .collect();
    assert_eq!(
        preview_option("-d", &tokens, 1),
        Some(("-d".to_string(), "x".to_string(), true))
    );
    assert_eq!(
        preview_option("--json={}", &tokens, 3),
        Some(("--json".to_string(), "{}".to_string(), false))
    );
    assert_eq!(
        preview_option("-Fa=b", &tokens, 4),
        Some(("-F".to_string(), "a=b".to_string(), false))
    );
    assert_eq!(preview_option("-F", &tokens, 5), None);
    assert_eq!(preview_option("curl", &tokens, 0), None);
}

#[test]
fn map_command_reports_runnability() {
    let mapped = map_command(entry("git status", Some("Status")));
    assert_eq!(mapped.command, "git status");
    assert_eq!(mapped.description.as_deref(), Some("Status"));
    assert!(!mapped.runnable);
    assert_eq!(
        mapped.unsupported_reason.as_deref(),
        Some("Only curl commands can run in the web interface.")
    );
    let runnable = map_command(entry("curl https://example.com", None));
    assert!(runnable.runnable);
    assert_eq!(runnable.preview_command, "curl\n  https://example.com");
}

#[test]
fn browse_response_counts_runnable_commands() {
    let data = BrowseData {
        local: vec![ShelfData {
            shelf: "curl".to_string(),
            commands: vec![
                entry("curl https://a.example", None),
                entry("ls", None),
                entry("curl -o out https://b.example", None),
            ],
        }],
        shared: group_team_shelves(vec![
            (
                "platform".to_string(),
                ShelfData {
                    shelf: "one".to_string(),
                    commands: vec![entry("curl https://c.example", None)],
                },
            ),
            (
                "platform".to_string(),
                ShelfData {
                    shelf: "two".to_string(),
                    commands: Vec::new(),
                },
            ),
            (
                "search".to_string(),
                ShelfData {
                    shelf: "one".to_string(),
                    commands: Vec::new(),
                },
            ),
        ]),
    };
    let response = map_browse_response(data);
    assert_eq!(response.local[0].runnable_command_count, 1);
    assert_eq!(response.local[0].commands.len(), 3);
    assert_eq!(response.shared.len(), 2);
    assert_eq!(response.shared[0].team, "platform");
    assert_eq!(response.shared[0].shelves.len(), 2);
    assert_eq!(response.shared[0].shelves[0].runnable_command_count, 1);
    assert_eq!(response.shared[1].team, "search");
}

#[test]
fn shelf_data_keeps_commands_in_order() {
    let shelf = shelf_data(
        "curl".to_string(),
        vec![
            StoredCommand::new("curl https://a.example".to_string(), Some("A".to_string())),
            StoredCommand::new("curl https://b.example".to_string(), None),
        ],
    );
    assert_eq!(
        shelf,
        ShelfData {
            shelf: "curl".to_string(),
            commands: vec![
                entry("curl https://a.example", Some("A")),
                entry("curl https://b.example", None),
            ],
        }
    );
    assert_eq!(
        CommandEntry::from_stored(StoredCommand::new("ls".to_string(), None)),
        entry("ls", None)
    );
}

#[test]
fn shelves_listing_keeps_json_files_with_valid_names_sorted() {
    let entries = vec![
        ("images.json".to_string(), true),
        ("curl.json".to_string(), true),
        ("notes.txt".to_string(), true),
        ("bad name.json".to_string(), true),
        ("dir.json".to_string(), false),
        (".json".to_string(), true),
    ];
    assert_eq!(
        shelves_in_listing(&entries),
        vec!["curl".to_string(), "images".to_string()]
    );
}

#[test]
fn data_file_resolution_for_browser_requests() {
    assert_eq!(
        resolve_data_file_path("/home/u/.shellshelf/shelves", None, ShelfScope::Local, None, "curl"),
        Ok("/home/u/.shellshelf/shelves/curl.json".to_string())
    );
    assert_eq!(
        local_data_file_path("/root", "media"),
        "/root/media.json".to_string()
    );
    assert_eq!(
        resolve_data_file_path("/l", None, ShelfScope::Shared, Some("platform"), "curl"),
        Err("Shared repository is not configured for the web interface.".to_string())
    );
    let context = SharedStorageContext {
        repository_root: "/shared".to_string(),
        teams_dir: "teams".to_string(),
    };
    assert_eq!(
        resolve_data_file_path("/l", Some(&context), ShelfScope::Shared, None, "curl"),
        Err("Shared shelf operations require a team name.".to_string())
    );
    assert_eq!(
        resolve_data_file_path("/l", Some(&context), ShelfScope::Shared, Some("platform"), "media"),
        Ok("/shared/teams/platform/shelves/media.json".to_string())
    );
    assert_eq!(
        resolve_data_file_path("/l", Some(&context), ShelfScope::Local, None, "bad/name"),
        Err("Shelf names may only contain letters, numbers, dots, underscores, and hyphens.".to_string())
    );
}

#[test]
fn browser_messages() {
    assert_eq!(shelf_exists_message("curl"), "Shelf 'curl' already exists.");
    assert_eq!(
        created_shelf_message(ShelfScope::Local, "curl", None),
        "Created shelf 'curl'."
    );
    assert_eq!(
        created_shelf_message(ShelfScope::Shared, "media", Some("platform")),
        "Created shelf 'media' for team 'platform'."
    );
    assert_eq!(
        saved_command_message(SaveCommandOutcome::Added, "curl"),
        Ok("Saved command to shelf 'curl'.".to_string())
    );
    assert_eq!(
        saved_command_message(SaveCommandOutcome::Updated, "curl"),
        Ok("Updated command in shelf 'curl'.".to_string())
    );
    assert_eq!(
        saved_command_message(SaveCommandOutcome::Duplicate, "curl"),
        Err("Command already exists in shelf 'curl'.".to_string())
    );
    assert_eq!(run_refusal(true, None), None);
    assert_eq!(
        run_refusal(false, None).as_deref(),
        Some("Only curl commands can run in the web interface.")
    );
    assert_eq!(
        run_refusal(false, Some("Command is empty.".to_string())).as_deref(),
        Some("Command is empty.")
    );
    assert_eq!(
        themed_index("<html data-theme=\"__WEB_THEME__\">", "dark"),
        "<html data-theme=\"dark\">"
    );
}

#[test]
fn web_port_and_theme_defaults() {
    assert_eq!(resolve_web_port(Some(5000), Some(4920)), 5000);
    assert_eq!(resolve_web_port(None, Some(4920)), 4920);
    assert_eq!(resolve_web_port(None, None), 4812);
    assert_eq!(WebTheme::default().as_str(), "dracula");
    assert_eq!(WebTheme::SolarizedDark.as_str(), "solarized-dark");
    assert_eq!(
        themed_index("<html data-theme=\"__WEB_THEME__\">", WebTheme::Giphy.as_str()),
        "<html data-theme=\"giphy\">"
    );
}
