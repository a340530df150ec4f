use nordigen::http_cb::{
    confirmation_page, extract_ref, find_param, handle_request, parse_request, str_eq,
    ProtocolError,
};

fn lines(parts: &[&str]) -> Vec<String> {
    parts.iter().map(|p| String::from(*p)).collect()
}

#[test]
fn callback_with_ref_yields_it() {
    let req = lines(&["GET /?ref=abc123&other=1 HTTP/1.1", "Host: localhost"]);
    assert_eq!(extract_ref(&req), Ok(String::from("abc123")));
}

#[test]
fn parse_request_collects_the_pairs() {
    let req = lines(&["GET /?ref=abc123&other=1 HTTP/1.1"]);
    let pairs = parse_request(&req).expect("well-formed request");
    assert_eq!(pairs.len(), 2);
    assert_eq!(pairs[0].0, "ref");
    assert_eq!(pairs[0].1, "abc123");
    assert_eq!(pairs[1].0, "other");
    assert_eq!(pairs[1].1, "1");
}

#[test]
fn no_query_string_is_refused_but_still_answered() {
    let req = lines(&["GET / HTTP/1.1", "Host: localhost"]);
    let (page, outcome) = handle_request(&req);
    assert_eq!(outcome, Err(ProtocolError::NoParameters));
    assert_eq!(page, confirmation_page());
}

#[test]
fn non_get_method_is_refused() {
    let req = lines(&["POST /?ref=abc HTTP/1.1"]);
    assert_eq!(extract_ref(&req), Err(ProtocolError::BadMethod));
}

#[test]
fn method_match_ignores_letter_case() {
    assert_eq!(extract_ref(&lines(&["get /?ref=z HTTP/1.1"])), Ok(String::from("z")));
    assert_eq!(extract_ref(&lines(&["GeT /?ref=z HTTP/1.1"])), Ok(String::from("z")));
}

#[test]
fn empty_request_is_refused() {
    let req: Vec<String> = Vec::new();
    assert_eq!(extract_ref(&req), Err(ProtocolError::EmptyRequest));
}

#[test]
fn short_request_line_is_refused() {
    let req = lines(&["GET /?ref=abc"]);
    assert_eq!(extract_ref(&req), Err(ProtocolError::BadRequestLine));
}

#[test]
fn query_without_ref_is_refused() {
    let req = lines(&["GET /?foo=1&bar=2 HTTP/1.1"]);
    assert_eq!(extract_ref(&req), Err(ProtocolError::MissingRef));
}

#[test]
fn empty_query_has_no_ref() {
    let req = lines(&["GET /? HTTP/1.1"]);
    assert_eq!(extract_ref(&req), Err(ProtocolError::MissingRef));
}

#[test]
fn of_repeated_keys_the_last_counts() {
    let req = lines(&["GET /?ref=first&ref=second HTTP/1.1"]);
    assert_eq!(extract_ref(&req), Ok(String::from("second")));
}

#[test]
fn malformed_pairs_are_skipped() {
    let req = lines(&["GET /?noequals&ref=ok&three=parts=here HTTP/1.1"]);
    let pairs = parse_request(&req).expect("well-formed request");
    assert_eq!(pairs.len(), 1);
    assert_eq!(extract_ref(&req), Ok(String::from("ok")));
}

#[test]
fn extra_whitespace_between_words_is_tolerated() {
    let req = lines(&["GET   /?ref=abc   HTTP/1.1"]);
    assert_eq!(extract_ref(&req), Ok(String::from("abc")));
}

#[test]
fn find_param_looks_up_by_key() {
    let pairs = vec![
        (String::from("a"), String::from("1")),
        (String::from("b"), String::from("2")),
        (String::from("a"), String::from("3")),
    ];
    assert_eq!(find_param(&pairs, "a"), Some(String::from("3")));
    assert_eq!(find_param(&pairs, "b"), Some(String::from("2")));
    assert_eq!(find_param(&pairs, "c"), None);
}

#[test]
fn confirmation_page_is_the_fixed_text() {
    let expected = "HTTP/1.1 200 OK\r\nContent-Type: text/html; charset=UTF-8\r\n\r\n<html>\r\n<body>\r\n<h2>Thank You!</h2>\r\n<p>You can now go back to the tool :)</p>\r\n</body>\r\n</html>\r\n";
    assert_eq!(confirmation_page(), expected);
}

#[test]
fn successful_parse_still_answers_with_the_page() {
    let req = lines(&["GET /?ref=abc HTTP/1.1"]);
    let (page, outcome) = handle_request(&req);
    assert_eq!(outcome, Ok(String::from("abc")));
    assert_eq!(page, confirmation_page());
}

#[test]
fn str_eq_compares_contents() {
    assert!(str_eq("abc", "abc"));
    assert!(!str_eq("abc", "abd"));
    assert!(!str_eq("abc", "abcd"));
    assert!(str_eq("", ""));
}
