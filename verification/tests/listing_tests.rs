use shellshelf::listing::{
    apply_list_limit, format_duplicate_hidden_message, format_limit_hidden_message,
    format_section_header, hide_local_duplicates, normalize_limit, resolve_list_limit,
    section_lines, OutputEntry, OutputSection, OutputSummary,
};

fn entry(command: &str, description: Option<&str>) -> OutputEntry {
    OutputEntry {
        name: None,
        command: command.to_string(),
        description: description.map(str::to_string),
        template: None,
    }
}

#[test]
fn test_format_section_header_for_local() {
    assert_eq!(format_section_header("Local / curl"), "=== LOCAL / CURL ===");
}

#[test]
fn test_format_section_header_for_shared_team() {
    assert_eq!(
        format_section_header("Shared / platform / curl"),
        "=== SHARED / PLATFORM / CURL ==="
    );
}

#[test]
fn test_hide_local_duplicates_against_shared_sections() {
    let mut local_commands = vec![
        entry("curl https://shared.example.com/health", Some("Shared health")),
        entry("curl https://local.example.com/health", Some("Local health")),
    ];
    let shared_sections = vec![OutputSection::shared_team(
        "platform".to_string(),
        "curl".to_string(),
        vec![entry("curl https://shared.example.com/health", Some("Shared health"))],
    )];

    let hidden = hide_local_duplicates(&mut local_commands, &shared_sections);

    assert_eq!(hidden, 1);
    assert_eq!(
        local_commands,
        vec![entry("curl https://local.example.com/health", Some("Local health"))]
    );
}

#[test]
fn test_apply_list_limit_across_sections() {
    let mut sections = vec![
        OutputSection::local(
            "curl".to_string(),
            vec![
                entry("curl https://local.example.com/one", None),
                entry("curl https://local.example.com/two", Some("Second")),
            ],
        ),
        OutputSection::shared_team(
            "platform".to_string(),
            "curl".to_string(),
            vec![entry("curl https://shared.example.com/one", None)],
        ),
    ];

    let hidden = apply_list_limit(&mut sections, Some(2));

    assert_eq!(hidden, 1);
    assert_eq!(sections[0].entries.len(), 2);
    assert!(sections[1].entries.is_empty());
}

#[test]
fn test_normalize_limit_zero_means_unlimited() {
    assert_eq!(normalize_limit(0), None);
    assert_eq!(normalize_limit(5), Some(5));
}

#[test]
fn test_duplicate_hidden_message_pluralization() {
    assert_eq!(
        format_duplicate_hidden_message(1),
        Some("1 local command was hidden because it duplicates shared storage.".to_string())
    );
    assert_eq!(
        format_duplicate_hidden_message(2),
        Some("2 local commands were hidden because they duplicate shared storage.".to_string())
    );
}

#[test]
fn test_limit_hidden_message_pluralization() {
    assert_eq!(
        format_limit_hidden_message(1, Some(20), false),
        Some(
            "Showing first 20 commands. 1 additional command was hidden by the active list limit."
                .to_string()
        )
    );
    assert_eq!(
        format_limit_hidden_message(3, Some(10), false),
        Some(
            "Showing first 10 commands. 3 additional commands were hidden by the active list limit."
                .to_string()
        )
    );
}

#[test]
fn duplicate_hidden_message_absent_when_nothing_hidden() {
    assert_eq!(format_duplicate_hidden_message(0), None);
    assert_eq!(format_limit_hidden_message(0, Some(5), true), None);
    assert_eq!(format_limit_hidden_message(4, None, true), None);
    assert_eq!(
        format_limit_hidden_message(2, Some(5), true),
        Some(
            "Showing first 5 commands. 2 additional commands were hidden by the active search limit."
                .to_string()
        )
    );
}

#[test]
fn list_limit_prefers_flag_then_config_then_default() {
    assert_eq!(resolve_list_limit(Some(3), Some(7)), Some(3));
    assert_eq!(resolve_list_limit(None, Some(7)), Some(7));
    assert_eq!(resolve_list_limit(None, None), Some(20));
    assert_eq!(resolve_list_limit(Some(0), Some(7)), None);
}

#[test]
fn limit_keeps_first_entries_in_order() {
    let mut sections = vec![OutputSection::local(
        "curl".to_string(),
        vec![
            entry("curl a", None),
            entry("curl b", None),
            entry("curl c", None),
        ],
    )];
    let hidden = apply_list_limit(&mut sections, Some(2));
    assert_eq!(hidden, 1);
    assert_eq!(
        sections[0].entries,
        vec![entry("curl a", None), entry("curl b", None)]
    );
    let mut unlimited = sections.clone();
    assert_eq!(apply_list_limit(&mut unlimited, None), 0);
    assert_eq!(unlimited, sections);
}

#[test]
fn section_lines_number_entries_and_append_summary() {
    let sections = vec![
        OutputSection::local("curl".to_string(), vec![entry("curl a", Some("First"))]),
        OutputSection::local("empty".to_string(), Vec::new()),
    ];
    let mut summary = OutputSummary::default();
    summary.hidden_local_duplicates = 1;
    let lines = section_lines(&sections, "Nothing.", &summary);
    assert_eq!(
        lines,
        vec![
            "=== LOCAL / CURL ===".to_string(),
            "".to_string(),
            "[1] First".to_string(),
            "curl a".to_string(),
            "".to_string(),
            "1 local command was hidden because it duplicates shared storage.".to_string(),
        ]
    );
    let none = section_lines(&Vec::new(), "Nothing.", &OutputSummary::default());
    assert_eq!(none, vec!["Nothing.".to_string()]);
}
