use shellshelf::text::{parse_usize_text, utf8_len_exceeds};

#[test]
fn parse_usize_text_agrees_with_str_parse() {
    let too_large = format!("{}0", usize::MAX);
    let cases = [
        "", "+", "-", "-1", "0", "+42", "007", "12a", "a12", "1 2", "١٢", too_large.as_str(),
        "99999999999999999999999x", "x99999999999999999999999",
    ];
    for case in cases {
        let expected = case.parse::<usize>().map_err(|error| error.to_string());
        assert_eq!(parse_usize_text(case), expected, "input {case:?}");
    }
    let max = usize::MAX.to_string();
    assert_eq!(parse_usize_text(&max), Ok(usize::MAX));
}

#[test]
fn utf8_len_exceeds_counts_bytes() {
    let chars: Vec<char> = "ab".chars().collect();
    assert!(!utf8_len_exceeds(&chars, 2));
    let chars: Vec<char> = "aé".chars().collect();
    assert!(utf8_len_exceeds(&chars, 2));
    assert!(!utf8_len_exceeds(&chars, usize::MAX));
}
