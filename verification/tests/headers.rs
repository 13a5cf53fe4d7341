use monolith::headers::parse_headers_string;
use monolith::headers::HeaderDiag;

#[test]
fn valid_pairs_parse_to_exactly_those_pairs() {
    let (map, diags) = parse_headers_string("Host:example.com Accept:text/html");
    assert_eq!(map.len(), 2);
    assert_eq!(map.get("host").unwrap().to_str().unwrap(), "example.com");
    assert_eq!(map.get("accept").unwrap().to_str().unwrap(), "text/html");
    assert!(diags.is_empty());
}

#[test]
fn repeated_key_keeps_last_value_and_reports_overwrite() {
    let (map, diags) = parse_headers_string("X:1 X:2");
    assert_eq!(map.len(), 1);
    assert_eq!(map.get("X").unwrap().to_str().unwrap(), "2");
    assert_eq!(diags.len(), 1);
    match &diags[0] {
        HeaderDiag::Overwritten { name, previous } => {
            assert_eq!(name, "X");
            assert_eq!(previous.to_str().unwrap(), "1");
        }
        other => panic!("expected an overwrite diagnostic, got {:?}", names_of(other)),
    }
}

#[test]
fn token_without_colon_is_silently_ignored() {
    let (map, diags) = parse_headers_string("novalue X:1");
    assert_eq!(map.len(), 1);
    assert_eq!(map.get("x").unwrap().to_str().unwrap(), "1");
    assert!(diags.is_empty());
}

#[test]
fn empty_input_yields_empty_map() {
    let (map, diags) = parse_headers_string("");
    assert!(map.is_empty());
    assert!(diags.is_empty());
}

#[test]
fn names_compare_case_insensitively() {
    let (map, diags) = parse_headers_string("HOST:first host:second");
    assert_eq!(map.len(), 1);
    assert_eq!(map.get("Host").unwrap().to_str().unwrap(), "second");
    assert_eq!(diags.len(), 1);
    match &diags[0] {
        HeaderDiag::Overwritten { name, previous } => {
            assert_eq!(name, "host");
            assert_eq!(previous.to_str().unwrap(), "first");
        }
        other => panic!("expected an overwrite diagnostic, got {:?}", names_of(other)),
    }
}

#[test]
fn invalid_name_is_dropped_with_a_diagnostic() {
    let (map, diags) = parse_headers_string("b@d:1 ok:2");
    assert_eq!(map.len(), 1);
    assert_eq!(map.get("ok").unwrap().to_str().unwrap(), "2");
    assert_eq!(diags.len(), 1);
    match &diags[0] {
        HeaderDiag::InvalidName { token } => assert_eq!(token, "b@d:1"),
        other => panic!("expected an invalid-name diagnostic, got {:?}", names_of(other)),
    }
}

#[test]
fn empty_name_is_dropped_with_a_diagnostic() {
    let (map, diags) = parse_headers_string(":value");
    assert!(map.is_empty());
    assert_eq!(diags.len(), 1);
    assert!(matches!(&diags[0], HeaderDiag::InvalidName { token } if token == ":value"));
}

#[test]
fn invalid_value_is_dropped_with_a_diagnostic() {
    let (map, diags) = parse_headers_string("x:\u{7} y:ok");
    assert_eq!(map.len(), 1);
    assert_eq!(map.get("y").unwrap().to_str().unwrap(), "ok");
    assert_eq!(diags.len(), 1);
    match &diags[0] {
        HeaderDiag::InvalidValue { token } => assert_eq!(token, "x:\u{7}"),
        other => panic!("expected an invalid-value diagnostic, got {:?}", names_of(other)),
    }
}

#[test]
fn value_keeps_everything_after_the_first_colon() {
    let (map, diags) = parse_headers_string("referer:https://example.com/a");
    assert_eq!(map.len(), 1);
    assert_eq!(
        map.get("referer").unwrap().to_str().unwrap(),
        "https://example.com/a"
    );
    assert!(diags.is_empty());
}

#[test]
fn surrounding_spaces_leave_only_empty_tokens() {
    let (map, diags) = parse_headers_string(" x:1  y:2 ");
    assert_eq!(map.len(), 2);
    assert_eq!(map.get("x").unwrap().to_str().unwrap(), "1");
    assert_eq!(map.get("y").unwrap().to_str().unwrap(), "2");
    assert!(diags.is_empty());
}

#[test]
fn empty_value_is_valid() {
    let (map, diags) = parse_headers_string("x:");
    assert_eq!(map.len(), 1);
    assert_eq!(map.get("x").unwrap().to_str().unwrap(), "");
    assert!(diags.is_empty());
}

fn names_of(diag: &HeaderDiag) -> &'static str {
    match diag {
        HeaderDiag::InvalidName { .. } => "InvalidName",
        HeaderDiag::InvalidValue { .. } => "InvalidValue",
        HeaderDiag::Overwritten { .. } => "Overwritten",
    }
}
