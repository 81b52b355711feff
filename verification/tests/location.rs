use savhub::location::{
    decode_fragment_value, decode_hex_digit, location_query_url, param_value, parse_hash_params,
    query_param,
};

#[test]
fn query_parameters_are_read() {
    assert_eq!(query_param("?a=1&b=2", "b"), Some("2".to_string()));
    assert_eq!(query_param("a=1&a=3", "a"), Some("1".to_string()));
    assert_eq!(query_param("?a", "a"), None);
    assert_eq!(query_param("", "a"), None);
}

#[test]
fn fragment_values_are_percent_decoded() {
    assert_eq!(decode_fragment_value("a+b%20c"), "a b c");
    assert_eq!(decode_fragment_value("%zz%4"), "%zz%4");
    assert_eq!(decode_fragment_value("%C3%A9"), "é");
    assert_eq!(decode_fragment_value("%FF"), "%FF");
    assert_eq!(decode_hex_digit(b'b'), Some(11));
    assert_eq!(decode_hex_digit(b'G'), None);
}

#[test]
fn hash_parameters_keep_the_last_value() {
    let params = parse_hash_params("#?b=2&a=1&&x&b=3");
    assert_eq!(
        params,
        vec![("a".to_string(), "1".to_string()), ("b".to_string(), "3".to_string())]
    );
    assert_eq!(param_value(&params, "b"), Some("3".to_string()));
    assert_eq!(param_value(&params, "x"), None);
}

#[test]
fn list_state_goes_to_the_query_string() {
    let params = vec![
        ("q".to_string(), "rust".to_string()),
        ("page".to_string(), String::new()),
        ("sort".to_string(), "new".to_string()),
    ];
    assert_eq!(location_query_url("/en/skills", &params), "/en/skills?q=rust&sort=new");
    assert_eq!(location_query_url("/en/skills", &vec![]), "/en/skills");
}

#[test]
fn address_bar_state_reads_back() {
    let params = vec![
        ("q".to_string(), "rust".to_string()),
        ("page".to_string(), String::new()),
        ("sort".to_string(), "new".to_string()),
    ];
    let url = location_query_url("/skills", &params);
    assert_eq!(url, "/skills?q=rust&sort=new");
    let query = &url[url.find('?').unwrap()..];
    assert_eq!(query_param(query, "q"), Some("rust".to_string()));
    assert_eq!(query_param(query, "sort"), Some("new".to_string()));
    assert_eq!(query_param(query, "page"), None);
}
