use daylight::query::extract_code;

#[test]
fn code_with_other_parameter_first_position() {
    let r = extract_code("http://127.0.0.1:8000/callback?code=abc123&state=xyz");
    assert_eq!(r, Some(String::from("abc123")));
}

#[test]
fn code_with_other_parameter_second_position() {
    let r = extract_code("http://127.0.0.1:8000/callback?state=xyz&code=abc123");
    assert_eq!(r, Some(String::from("abc123")));
}

#[test]
fn code_among_three_parameters() {
    let r = extract_code("/cb?a=1&b=2&code=xyz&d=4");
    assert_eq!(r, Some(String::from("xyz")));
}

#[test]
fn no_code_parameter_yields_nothing() {
    assert_eq!(extract_code("/cb?state=xyz&foo=bar"), None);
}

#[test]
fn no_query_yields_nothing() {
    assert_eq!(extract_code("http://127.0.0.1:8000/callback"), None);
}

#[test]
fn empty_query_yields_nothing() {
    assert_eq!(extract_code("/cb?"), None);
}

#[test]
fn code_as_key_prefix_does_not_match() {
    assert_eq!(extract_code("/cb?codex=1&xcode=2"), None);
}

#[test]
fn empty_code_value_is_an_empty_string() {
    assert_eq!(extract_code("/cb?code="), Some(String::new()));
}

#[test]
fn bare_code_key_without_equals_is_an_empty_string() {
    assert_eq!(extract_code("/cb?code"), Some(String::new()));
}

#[test]
fn percent_encoded_value_decodes() {
    let r = extract_code("/cb?code=abc%2Bdef");
    assert_eq!(r, Some(String::from("abc+def")));
}

#[test]
fn plus_decodes_to_space() {
    assert_eq!(extract_code("/cb?code=a+b"), Some(String::from("a b")));
}

#[test]
fn percent_encoded_letters_decode() {
    assert_eq!(extract_code("/cb?code=%41%62"), Some(String::from("Ab")));
}

#[test]
fn malformed_escape_stays_literal() {
    assert_eq!(extract_code("/cb?code=%zz"), Some(String::from("%zz")));
}

#[test]
fn percent_encoded_multibyte_decodes() {
    assert_eq!(extract_code("/cb?code=caf%C3%A9"), Some(String::from("caf\u{e9}")));
}

#[test]
fn invalid_utf8_escape_is_replaced() {
    assert_eq!(extract_code("/cb?code=%FF"), Some(String::from("\u{fffd}")));
}

#[test]
fn percent_encoded_key_matches_code() {
    assert_eq!(extract_code("/cb?c%6Fde=z"), Some(String::from("z")));
}

#[test]
fn query_stops_at_second_question_mark() {
    assert_eq!(extract_code("/cb?code=a?code=b"), Some(String::from("a")));
}

#[test]
fn empty_pairs_are_skipped() {
    assert_eq!(extract_code("/cb?&&code=ok&&"), Some(String::from("ok")));
}

#[test]
fn first_code_pair_wins() {
    assert_eq!(extract_code("/cb?code=first&code=second"), Some(String::from("first")));
}

#[test]
fn value_may_contain_equals() {
    assert_eq!(extract_code("/cb?code=a=b"), Some(String::from("a=b")));
}

#[test]
fn agrees_with_form_urlencoded_parser() {
    let queries = [
        "code=abc123&state=xyz",
        "state=xyz&code=a%2Bb",
        "a=1&b=2",
        "code=%C3%A9+%41",
        "&&code=x&&",
        "code",
    ];
    for q in queries {
        let url = format!("/cb?{}", q);
        let expected = url::form_urlencoded::parse(q.as_bytes())
            .find(|(k, _)| k == "code")
            .map(|(_, v)| v.into_owned());
        assert_eq!(extract_code(&url), expected, "query {:?}", q);
    }
}
