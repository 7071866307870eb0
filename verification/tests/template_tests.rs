use shellshelf::template::{
    escape_double_quoted_fragment, escape_single_quoted_fragment, parameters, parse_arguments,
    render, scan_gets_stuck, validate_parameter_name, RenderArguments,
};

fn args(values: &[(&str, &str)]) -> RenderArguments {
    let mut arguments = RenderArguments::new();
    for (name, value) in values {
        arguments.insert((*name).to_string(), (*value).to_string());
    }
    arguments
}

#[test]
fn discovers_sorted_deduplicated_parameters() {
    assert_eq!(
        parameters("curl {{url}} --header '{{header}}' {{url}}").unwrap(),
        vec!["header".to_string(), "url".to_string()]
    );
}

#[test]
fn renders_values_safely_in_each_quote_context() {
    let rendered = render(
        "printf {{plain}} '{{single}}' \"{{double}}\"",
        &args(&[
            ("plain", "one; echo unsafe"),
            ("single", "O'Reilly"),
            ("double", "$(echo unsafe) `echo unsafe` \"quoted\""),
        ]),
    )
    .unwrap();

    assert_eq!(
        rendered,
        r#"printf 'one; echo unsafe' 'O'\''Reilly' "\$(echo unsafe) \`echo unsafe\` \"quoted\"""#
    );
}

#[test]
fn rejects_missing_unknown_and_duplicate_arguments() {
    assert!(render("echo {{value}}", &RenderArguments::new())
        .unwrap_err()
        .contains("Missing"));
    assert!(render("echo", &args(&[("value", "x")]))
        .unwrap_err()
        .contains("Unknown"));
    assert!(parse_arguments(&vec!["value=one".to_string(), "value=two".to_string()])
        .err()
        .unwrap()
        .contains("more than once"));
}

#[test]
fn preserves_equals_signs_in_argument_values() {
    let parsed = parse_arguments(&vec!["query=a=b=c".to_string()]).unwrap();
    assert_eq!(parsed.get("query").as_deref(), Some("a=b=c"));
}

#[test]
fn rejects_malformed_templates() {
    for template in ["echo {{value", "echo }}", "echo '{{value}}", "echo \\"] {
        assert!(!scan_gets_stuck(template));
        assert!(parameters(template).is_err(), "{template}");
    }
}

#[test]
fn render_fills_every_occurrence_and_plain_values_stay_bare() {
    let rendered = render("curl {{url}}/a {{url}}/b", &args(&[("url", "https://example.com")])).unwrap();
    assert_eq!(rendered, "curl https://example.com/a https://example.com/b");
    assert_eq!(render("echo plain", &RenderArguments::new()).unwrap(), "echo plain");
}

#[test]
fn argument_names_must_be_valid() {
    assert!(validate_parameter_name("user_id").is_ok());
    assert!(validate_parameter_name("9lives").is_err());
    assert!(parse_arguments(&vec!["novalue".to_string()]).is_err());
}

#[test]
fn escapes_for_quote_contexts() {
    assert_eq!(escape_single_quoted_fragment("it's"), "it'\\''s");
    assert_eq!(escape_double_quoted_fragment("a\"$b`\\"), "a\\\"\\$b\\`\\\\");
}
