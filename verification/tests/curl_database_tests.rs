use shellshelf::curl_database::{CurlCommand, CurlDatabase};
use shellshelf::history::{parse_curl_commands_from_history, parse_curl_commands_from_history_bytes};
use shellshelf::keywords::extract_keywords;

#[test]
fn test_curl_command_new() {
    let command =
        "curl -X POST https://api.example.com/users -H 'Content-Type: application/json'".to_string();
    let curl_cmd = CurlCommand::new(command.clone());

    assert_eq!(curl_cmd.command, command);
    assert!(!curl_cmd.keywords.is_empty());
    assert!(curl_cmd.keywords.contains(&"example".to_string()));
    assert!(curl_cmd.keywords.contains(&"api".to_string()));
}

#[test]
fn main_test_extract_keywords() {
    let command = "curl -X POST https://api.github.com/user/repos -H 'Authorization: token xyz' -d '{\"name\":\"test\"}'";
    let keywords = extract_keywords(command);

    assert!(keywords.contains(&"github".to_string()));
    assert!(keywords.contains(&"api".to_string()));
    assert!(keywords.contains(&"user".to_string()));
    assert!(keywords.contains(&"repos".to_string()));
    assert!(keywords.contains(&"authorization".to_string()));
    assert!(keywords.contains(&"post".to_string()));
    assert!(keywords.contains(&"token".to_string()));
    assert!(keywords.contains(&"name".to_string()));
    assert!(keywords.contains(&"test".to_string()));
}

#[test]
fn main_test_extract_keywords_with_domain_parts() {
    let command = "curl https://subdomain.example.com/api/v1/data";
    let keywords = extract_keywords(command);

    assert!(keywords.contains(&"subdomain.example.com".to_string()));
    assert!(keywords.contains(&"subdomain".to_string()));
    assert!(keywords.contains(&"example".to_string()));
    assert!(keywords.contains(&"com".to_string()));
    assert!(keywords.contains(&"api".to_string()));
    assert!(keywords.contains(&"data".to_string()));
}

#[test]
fn main_test_extract_keywords_with_headers() {
    let command = r#"curl -H "Content-Type: application/json" -H "Authorization: Bearer xyz" https://api.example.com"#;
    let keywords = extract_keywords(command);

    assert!(keywords.contains(&"content-type".to_string()));
    assert!(keywords.contains(&"authorization".to_string()));
    assert!(keywords.contains(&"application".to_string()));
    assert!(keywords.contains(&"bearer".to_string()));
    assert!(keywords.contains(&"example".to_string()));
    assert!(keywords.contains(&"api".to_string()));
}

#[test]
fn main_test_extract_keywords_filters_common_words() {
    let command = "curl https://www.example.com/api";
    let keywords = extract_keywords(command);

    assert!(keywords.contains(&"example".to_string()));
    assert!(keywords.contains(&"api".to_string()));
    assert!(!keywords.contains(&"curl".to_string()));
    assert!(!keywords.contains(&"http".to_string()));
    assert!(!keywords.contains(&"https".to_string()));
    assert!(!keywords.contains(&"www".to_string()));
}

#[test]
fn main_test_parse_curl_commands_from_bash_history() {
    let history_content = r#"ls -la
curl https://example.com
cd /home/user
curl -X POST https://api.github.com/repos
git status
  curl   https://httpbin.org/get  
echo "hello world"
curl -H "Authorization: Bearer token" https://api.example.com/data"#;

    let commands = parse_curl_commands_from_history(history_content);

    assert_eq!(commands.len(), 4);
    assert!(commands.contains(&"curl https://example.com".to_string()));
    assert!(commands.contains(&"curl -X POST https://api.github.com/repos".to_string()));
    assert!(commands.contains(&"curl   https://httpbin.org/get".to_string()));
    assert!(commands.contains(
        &"curl -H \"Authorization: Bearer token\" https://api.example.com/data".to_string()
    ));
}

#[test]
fn main_test_parse_curl_commands_from_zsh_history() {
    let history_content = r#": 1647875000:0;ls -la
: 1647875010:0;curl https://example.com
: 1647875020:0;cd /home/user
: 1647875030:0;curl -X POST https://api.github.com/repos
: 1647875040:0;git status
: 1647875050:0;curl   -H "Content-Type: application/json" https://httpbin.org/post"#;

    let commands = parse_curl_commands_from_history(history_content);

    assert_eq!(commands.len(), 3);
    assert!(commands.contains(&"curl https://example.com".to_string()));
    assert!(commands.contains(&"curl -X POST https://api.github.com/repos".to_string()));
    assert!(commands.contains(
        &"curl   -H \"Content-Type: application/json\" https://httpbin.org/post".to_string()
    ));
}

#[test]
fn main_test_parse_curl_commands_removes_duplicates() {
    let history_content = r#"curl https://example.com
curl https://github.com
curl https://example.com
curl https://example.com"#;

    let commands = parse_curl_commands_from_history(history_content);

    assert_eq!(commands.len(), 2);
    assert!(commands.contains(&"curl https://example.com".to_string()));
    assert!(commands.contains(&"curl https://github.com".to_string()));
}

#[test]
fn main_test_parse_curl_commands_mixed_history_formats() {
    let history_content = r#"curl https://example1.com
: 1647875000:0;curl https://example2.com
curl -X POST https://example3.com
: 1647875010:0;curl -H "Auth: token" https://example4.com"#;

    let commands = parse_curl_commands_from_history(history_content);

    assert_eq!(commands.len(), 4);
    assert!(commands.contains(&"curl https://example1.com".to_string()));
    assert!(commands.contains(&"curl https://example2.com".to_string()));
    assert!(commands.contains(&"curl -X POST https://example3.com".to_string()));
    assert!(commands.contains(&"curl -H \"Auth: token\" https://example4.com".to_string()));
}

#[test]
fn main_test_parse_curl_commands_from_non_utf8_history() {
    let history_bytes = b": 1647875000:0;curl https://example.com\n\x83\xffgarbage\n: 1647875001:0;curl -X POST https://api.github.com/repos\n";

    let commands = parse_curl_commands_from_history_bytes(history_bytes);

    assert_eq!(commands.len(), 2);
    assert!(commands.contains(&"curl https://example.com".to_string()));
    assert!(commands.contains(&"curl -X POST https://api.github.com/repos".to_string()));
}

#[test]
fn test_curl_database_new() {
    let db = CurlDatabase::new();
    assert!(db.commands.is_empty());
}

#[test]
fn test_curl_database_add_command() {
    let mut db = CurlDatabase::new();
    let command = "curl https://example.com".to_string();

    db.add_command(command.clone());
    assert_eq!(db.commands.len(), 1);
    assert_eq!(db.commands[0].command, command);
}

#[test]
fn test_curl_database_add_duplicate_command() {
    let mut db = CurlDatabase::new();
    let command = "curl https://example.com".to_string();

    db.add_command(command.clone());
    db.add_command(command.clone());

    assert_eq!(db.commands.len(), 1);
}

#[test]
fn test_curl_database_search() {
    let mut db = CurlDatabase::new();

    db.add_command("curl https://api.github.com/users".to_string());
    db.add_command("curl https://example.com/test".to_string());
    db.add_command("curl -X POST https://api.github.com/repos".to_string());

    let results = db.search(&["github".to_string()]);
    assert_eq!(results.len(), 2);

    let results = db.search(&["users".to_string()]);
    assert_eq!(results.len(), 1);

    let results = db.search(&["api".to_string(), "POST".to_string()]);
    assert_eq!(results.len(), 1);

    let results = db.search(&["nonexistent".to_string()]);
    assert_eq!(results.len(), 0);
}

#[test]
fn test_curl_database_search_case_insensitive() {
    let mut db = CurlDatabase::new();
    db.add_command("curl https://API.GitHub.com/Users".to_string());

    let results = db.search(&["github".to_string()]);
    assert_eq!(results.len(), 1);

    let results = db.search(&["USERS".to_string()]);
    assert_eq!(results.len(), 1);
}

#[test]
fn main_test_search_partial_keyword_match() {
    let mut db = CurlDatabase::new();
    db.add_command("curl https://api.github.com/repositories".to_string());

    let results = db.search(&["repo".to_string()]);
    assert_eq!(results.len(), 1);

    let results = db.search(&["hub".to_string()]);
    assert_eq!(results.len(), 1);
}

#[test]
fn test_curl_database_add_commands_counts_only_new_entries() {
    let mut db = CurlDatabase::new();
    db.add_command("curl https://example.com".to_string());

    let added_count = db.add_commands(vec![
        "curl https://example.com".to_string(),
        "curl https://github.com".to_string(),
        "curl https://httpbin.org/get".to_string(),
        "curl https://github.com".to_string(),
    ]);

    assert_eq!(added_count, 2);
    assert_eq!(db.commands.len(), 3);
}
