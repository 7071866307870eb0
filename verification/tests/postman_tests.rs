use shellshelf::postman::{
    import_collection, import_summary, import_target_exists_message, shell_quote,
    PostmanBody, PostmanCollection, PostmanCollectionInfo, PostmanHeader, PostmanImportWarning,
    PostmanItem, PostmanRequest, PostmanUrl,
};

const SCHEMA_V21: &str = "https://schema.getpostman.com/json/collection/v2.1.0/collection.json";

fn collection(name: &str, schema: &str, item: Vec<PostmanItem>) -> PostmanCollection {
    PostmanCollection {
        info: PostmanCollectionInfo {
            name: Some(name.to_string()),
            schema: Some(schema.to_string()),
        },
        item,
        has_auth: false,
        has_events: false,
    }
}

fn request(method: &str, url: PostmanUrl) -> PostmanRequest {
    PostmanRequest {
        method: Some(method.to_string()),
        header: Vec::new(),
        body: None,
        url: Some(url),
        has_auth: false,
        has_events: false,
    }
}

fn request_item(name: &str, request: PostmanRequest) -> PostmanItem {
    PostmanItem {
        name: Some(name.to_string()),
        item: Vec::new(),
        request: Some(request),
        has_auth: false,
        has_events: false,
    }
}

fn header(key: &str, value: &str) -> PostmanHeader {
    PostmanHeader {
        key: Some(key.to_string()),
        value: Some(value.to_string()),
        disabled: None,
    }
}

fn text_url(url: &str) -> PostmanUrl {
    PostmanUrl::Raw(url.to_string())
}

fn detailed_url(url: &str) -> PostmanUrl {
    PostmanUrl::Detailed {
        raw: Some(url.to_string()),
    }
}

#[test]
fn test_imports_v21_collection_and_generates_curl() {
    let mut create = request("POST", detailed_url("https://api.getpostman.com/workspaces"));
    create.header = vec![
        header("Content-Type", "application/json"),
        header("X-Trace", "{{traceId}}"),
    ];
    create.body = Some(PostmanBody {
        mode: Some("raw".to_string()),
        raw: Some("{\"name\":\"demo\"}".to_string()),
    });
    let source = collection(
        "postman-api",
        SCHEMA_V21,
        vec![request_item("Create workspace", create)],
    );

    let outcome = import_collection(&source, None).expect("import should succeed");

    assert_eq!(outcome.shelf_name, "postman-api");
    assert!(outcome.warnings.is_empty());
    assert_eq!(outcome.database.commands.len(), 1);
    assert_eq!(
        outcome.database.commands[0].command,
        "curl -X 'POST' -H 'Content-Type: application/json' -H 'X-Trace: {{traceId}}' --data-raw '{\"name\":\"demo\"}' 'https://api.getpostman.com/workspaces'"
    );
    assert_eq!(
        outcome.database.commands[0].description.as_deref(),
        Some("Create workspace")
    );
}

#[test]
fn test_recursively_flattens_folder_items() {
    let folder = PostmanItem {
        name: Some("Admin".to_string()),
        item: vec![
            request_item("Health", request("GET", text_url("https://example.com/health"))),
            request_item(
                "Versions",
                request("GET", detailed_url("https://example.com/versions")),
            ),
        ],
        request: None,
        has_auth: false,
        has_events: false,
    };
    let outcome =
        import_collection(&collection("curl", SCHEMA_V21, vec![folder]), None).expect("import should succeed");

    let commands: Vec<&str> = outcome
        .database
        .commands
        .iter()
        .map(|command| command.command.as_str())
        .collect();
    assert_eq!(
        commands,
        vec![
            "curl 'https://example.com/health'",
            "curl 'https://example.com/versions'"
        ]
    );
}

#[test]
fn test_shelf_override_takes_precedence() {
    let source = collection(
        "ignored-name",
        SCHEMA_V21,
        vec![request_item("Ping", request("GET", text_url("https://example.com/ping")))],
    );
    let outcome = import_collection(&source, Some("curl")).expect("import should succeed");
    assert_eq!(outcome.shelf_name, "curl");
}

#[test]
fn test_unsupported_requests_return_warnings() {
    let mut upload = request("POST", text_url("https://example.com/upload"));
    upload.body = Some(PostmanBody {
        mode: Some("formdata".to_string()),
        raw: None,
    });
    let source = collection(
        "curl",
        SCHEMA_V21,
        vec![
            request_item("Supported", request("GET", text_url("https://example.com/supported"))),
            request_item("Upload file", upload),
        ],
    );
    let outcome = import_collection(&source, None).expect("import should succeed");

    assert_eq!(outcome.database.commands.len(), 1);
    assert_eq!(
        outcome.warnings,
        vec![PostmanImportWarning {
            request_name: "Upload file".to_string(),
            reason: "uses unsupported body mode 'formdata'".to_string(),
        }]
    );
}

#[test]
fn test_all_skipped_collections_fail() {
    let mut secured = request("GET", text_url("https://example.com/secure"));
    secured.has_auth = true;
    let source = collection("curl", SCHEMA_V21, vec![request_item("Secured request", secured)]);

    let error = import_collection(&source, None)
        .err()
        .expect("collection should fail when every request is skipped");

    assert!(error.contains("Postman import failed: no supported requests were found."));
    assert!(error.contains("Secured request: uses auth or auth inheritance, which is not supported yet"));
}

#[test]
fn test_invalid_schema_is_rejected() {
    let source = collection(
        "curl",
        "https://schema.getpostman.com/json/collection/v2.0.0/collection.json",
        Vec::new(),
    );
    let error = import_collection(&source, None).err().expect("schema should be rejected");
    assert_eq!(
        error,
        "Unsupported Postman collection schema 'https://schema.getpostman.com/json/collection/v2.0.0/collection.json'. Expected Collection v2.1 export."
    );
}

#[test]
fn test_invalid_collection_name_is_rejected() {
    let source = collection("curl/api", SCHEMA_V21, Vec::new());
    let error = import_collection(&source, None).err().expect("invalid shelf name should fail");
    assert_eq!(
        error,
        "Shelf names may only contain letters, numbers, dots, underscores, and hyphens."
    );
}

#[test]
fn test_shell_quote_escapes_single_quotes() {
    assert_eq!(shell_quote("it's"), "'it'\"'\"'s'");
}

#[test]
fn missing_schema_and_unusable_name_are_rejected() {
    let mut source = collection("curl", SCHEMA_V21, Vec::new());
    source.info.schema = None;
    assert_eq!(
        import_collection(&source, None).err().as_deref(),
        Some("Unsupported Postman collection schema: missing info.schema.")
    );
    let blank = collection("   ", SCHEMA_V21, Vec::new());
    assert_eq!(
        import_collection(&blank, None).err().as_deref(),
        Some("Postman collection is missing a usable info.name for shelf creation.")
    );
}

#[test]
fn folder_scripts_are_inherited() {
    let folder = PostmanItem {
        name: Some("Scripted".to_string()),
        item: vec![request_item("Inner", request("GET", text_url("https://example.com/a")))],
        request: None,
        has_auth: false,
        has_events: true,
    };
    let source = collection(
        "curl",
        SCHEMA_V21,
        vec![folder, request_item("Plain", request("GET", text_url("https://example.com/b")))],
    );
    let outcome = import_collection(&source, None).expect("import should succeed");
    assert_eq!(outcome.database.commands.len(), 1);
    assert_eq!(outcome.warnings.len(), 1);
    assert_eq!(outcome.warnings[0].request_name, "Inner");
}

#[test]
fn import_summary_reports_counts_and_warnings() {
    let warnings = vec![PostmanImportWarning {
        request_name: "Upload file".to_string(),
        reason: "uses unsupported body mode 'formdata'".to_string(),
    }];
    let (line, warning_lines) = import_summary(3, &warnings, "curl", Some("platform"));
    assert_eq!(
        line,
        "Imported 3 requests into shelf 'curl' for team 'platform'. Skipped 1 request."
    );
    assert_eq!(
        warning_lines,
        vec![
            "Warning: skipped 1 request during Postman import.".to_string(),
            "- Upload file: uses unsupported body mode 'formdata'".to_string(),
        ]
    );
    let (line, none) = import_summary(1, &Vec::new(), "curl", None);
    assert_eq!(line, "Imported 1 request into shelf 'curl'. Skipped 0 requests.");
    assert!(none.is_empty());
    assert_eq!(
        import_target_exists_message("curl"),
        "Shelf 'curl' already exists. Use --target-shelf <NAME> to choose a different shelf name for this import."
    );
}

#[test]
fn shell_quote_reads_back_as_one_word() {
    for value in ["it's", "", "a b", "'\"'", "$HOME `x` \\"] {
        assert_eq!(shell_words::split(&shell_quote(value)).unwrap(), vec![value.to_string()]);
    }
}
