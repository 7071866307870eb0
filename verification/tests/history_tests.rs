use shellshelf::history::{parse_curl_commands_from_history, parse_curl_commands_from_history_bytes};

#[test]
fn history_test_parse_curl_commands_from_bash_history() {
    let history_content = r#"ls -la
curl https://example.com
cd /home/user
curl -X POST https://api.github.com/repos
git status
  curl   https://httpbin.org/get  
echo "hello world"
curl -H "Authorization: Bearer token" https://api.example.com/data"#;

    let commands = parse_curl_commands_from_history(history_content);

    assert_eq!(commands.len(), 4);
    assert!(commands.contains(&"curl https://example.com".to_string()));
    assert!(commands.contains(&"curl -X POST https://api.github.com/repos".to_string()));
    assert!(commands.contains(&"curl   https://httpbin.org/get".to_string()));
    assert!(commands.contains(
        &"curl -H \"Authorization: Bearer token\" https://api.example.com/data".to_string()
    ));
}

#[test]
fn history_test_parse_curl_commands_from_zsh_history() {
    let history_content = r#": 1647875000:0;ls -la
: 1647875010:0;curl https://example.com
: 1647875020:0;cd /home/user
: 1647875030:0;curl -X POST https://api.github.com/repos
: 1647875040:0;git status
: 1647875050:0;curl   -H "Content-Type: application/json" https://httpbin.org/post"#;

    let commands = parse_curl_commands_from_history(history_content);

    assert_eq!(commands.len(), 3);
    assert!(commands.contains(&"curl https://example.com".to_string()));
    assert!(commands.contains(&"curl -X POST https://api.github.com/repos".to_string()));
    assert!(commands.contains(
        &"curl   -H \"Content-Type: application/json\" https://httpbin.org/post".to_string()
    ));
}

#[test]
fn history_test_parse_curl_commands_removes_duplicates() {
    let history_content = r#"curl https://example.com
curl https://github.com
curl https://example.com
curl https://example.com"#;

    let commands = parse_curl_commands_from_history(history_content);

    assert_eq!(commands.len(), 2);
    assert!(commands.contains(&"curl https://example.com".to_string()));
    assert!(commands.contains(&"curl https://github.com".to_string()));
}

#[test]
fn history_test_parse_curl_commands_mixed_history_formats() {
    let history_content = r#"curl https://example1.com
: 1647875000:0;curl https://example2.com
curl -X POST https://example3.com
: 1647875010:0;curl -H "Auth: token" https://example4.com"#;

    let commands = parse_curl_commands_from_history(history_content);

    assert_eq!(commands.len(), 4);
    assert!(commands.contains(&"curl https://example1.com".to_string()));
    assert!(commands.contains(&"curl https://example2.com".to_string()));
    assert!(commands.contains(&"curl -X POST https://example3.com".to_string()));
    assert!(commands.contains(&"curl -H \"Auth: token\" https://example4.com".to_string()));
}

#[test]
fn history_test_parse_curl_commands_from_non_utf8_history() {
    let history_bytes = b": 1647875000:0;curl https://example.com\n\x83\xffgarbage\n: 1647875001:0;curl -X POST https://api.github.com/repos\n";

    let commands = parse_curl_commands_from_history_bytes(history_bytes);

    assert_eq!(commands.len(), 2);
    assert!(commands.contains(&"curl https://example.com".to_string()));
    assert!(commands.contains(&"curl -X POST https://api.github.com/repos".to_string()));
}
