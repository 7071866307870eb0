use shellshelf::keywords::{extract_keywords, keywords_from_matches};

#[test]
fn keywords_test_extract_keywords() {
    let command = "curl -X POST https://api.github.com/user/repos -H 'Authorization: token xyz' -d '{\"name\":\"test\"}'";
    let keywords = extract_keywords(command);

    assert!(keywords.contains(&"github".to_string()));
    assert!(keywords.contains(&"api".to_string()));
    assert!(keywords.contains(&"user".to_string()));
    assert!(keywords.contains(&"repos".to_string()));
    assert!(keywords.contains(&"authorization".to_string()));
    assert!(keywords.contains(&"post".to_string()));
    assert!(keywords.contains(&"token".to_string()));
    assert!(keywords.contains(&"name".to_string()));
    assert!(keywords.contains(&"test".to_string()));
}

#[test]
fn keywords_test_extract_keywords_with_domain_parts() {
    let command = "curl https://subdomain.example.com/api/v1/data";
    let keywords = extract_keywords(command);

    assert!(keywords.contains(&"subdomain.example.com".to_string()));
    assert!(keywords.contains(&"subdomain".to_string()));
    assert!(keywords.contains(&"example".to_string()));
    assert!(keywords.contains(&"com".to_string()));
    assert!(keywords.contains(&"api".to_string()));
    assert!(keywords.contains(&"data".to_string()));
}

#[test]
fn keywords_test_extract_keywords_with_headers() {
    let command = r#"curl -H "Content-Type: application/json" -H "Authorization: Bearer xyz" https://api.example.com"#;
    let keywords = extract_keywords(command);

    assert!(keywords.contains(&"content-type".to_string()));
    assert!(keywords.contains(&"authorization".to_string()));
    assert!(keywords.contains(&"application".to_string()));
    assert!(keywords.contains(&"bearer".to_string()));
    assert!(keywords.contains(&"example".to_string()));
    assert!(keywords.contains(&"api".to_string()));
}

#[test]
fn keywords_test_extract_keywords_filters_common_words() {
    let command = "curl https://www.example.com/api";
    let keywords = extract_keywords(command);

    assert!(keywords.contains(&"example".to_string()));
    assert!(keywords.contains(&"api".to_string()));
    assert!(!keywords.contains(&"curl".to_string()));
    assert!(!keywords.contains(&"http".to_string()));
    assert!(!keywords.contains(&"https".to_string()));
    assert!(!keywords.contains(&"www".to_string()));
}

#[test]
fn keywords_are_sorted_and_distinct() {
    let keywords = extract_keywords("curl https://api.example.com/api/items/items");
    let mut sorted = keywords.clone();
    sorted.sort();
    sorted.dedup();
    assert_eq!(keywords, sorted);
}

#[test]
fn keywords_from_matches_sorts_and_filters() {
    let urls = vec![Some("WWW.Example.com".to_string())];
    let paths = vec![Some("v1/Users".to_string()), None];
    let headers = vec![Some("Accept: application/json".to_string())];
    let methods = vec![Some("POST".to_string())];
    let words = vec!["curl".to_string(), "Users".to_string()];
    let keywords = keywords_from_matches(&urls, &paths, &headers, &methods, &words);
    assert_eq!(
        keywords,
        vec![
            "accept".to_string(),
            "application/json".to_string(),
            "com".to_string(),
            "example".to_string(),
            "post".to_string(),
            "users".to_string(),
            "www.example.com".to_string(),
        ]
    );
}
