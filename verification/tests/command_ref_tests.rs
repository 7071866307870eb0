use shellshelf::command_ref::CommandRef;

#[test]
fn parses_and_formats_local_and_shared_references() {
    for value in ["local/media/find-gif", "shared/search/runbooks/reindex"] {
        assert_eq!(CommandRef::parse(value).unwrap().to_string(), value);
    }
}

#[test]
fn rejects_ambiguous_references() {
    assert!(CommandRef::parse("media/find-gif").is_err());
    assert!(CommandRef::parse("local/media/FindGif").is_err());
    assert!(CommandRef::parse("shared/team/shelf/name/extra").is_err());
}

#[test]
fn reference_parts_and_not_found_message() {
    let local = CommandRef::parse("local/media/find-gif").unwrap();
    assert_eq!(local.name(), "find-gif");
    assert_eq!(
        local.not_found_message(),
        "Named command 'local/media/find-gif' was not found."
    );
}
