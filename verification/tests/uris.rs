use http_gateway::fields::Fields;
use http_gateway::handler::StringId;
use http_gateway::uri_subject::{
    Uri, path_str_to_path, replace_special_chars, uri_to_path, uri_to_query,
};
use std::ops::Deref;

fn segments(path: &str) -> Vec<String> {
    path_str_to_path(path)
        .iter()
        .map(|segment| segment.deref().to_string())
        .collect()
}

fn value<'a>(query: &'a Fields, key: &str) -> Option<&'a str> {
    query.get(&StringId::new(key)).map(|value| value.as_str())
}

#[test]
fn uri_to_subject_cases() {
    for (uri, expected) in [
        ("/abc/def", vec!["abc", "def"]),
        (
            "/a-a/b%20b/c_c/d%2Ad/e%3Ee/f.f",
            vec!["a-a", "b_b", "c_c", "d_d", "e_e", "f_f"],
        ),
    ] {
        let uri = Uri::parse(uri).unwrap();
        let subject = uri_to_path(uri);
        assert_eq!(
            subject.iter().map(|x| x.deref()).collect::<Vec<_>>(),
            expected
        );
    }
}

#[test]
fn uri_to_query_cases() {
    for (uri, expected) in [
        ("/abc?a=b&c=d", [("a", "b"), ("c", "d")].as_slice()),
        ("/abc?%20=%3E", &[(" ", ">")]),
    ] {
        let uri = Uri::parse(uri).unwrap();
        let query = uri_to_query(&uri);
        assert_eq!(query.len(), expected.len());
        for (k, v) in expected {
            assert_eq!(value(&query, k), Some(*v));
        }
    }
}

#[test]
fn a_parameter_keeps_the_spelling_that_came_first() {
    let uri = Uri::parse("/x?Name=a&b=&NAME=c").unwrap();
    let query = uri_to_query(&uri);
    assert_eq!(query.len(), 2);
    let (key, value) = query.entry(0);
    assert_eq!((&**key, value.as_str()), ("Name", "c"));
    let (key, value) = query.entry(1);
    assert_eq!((&**key, value.as_str()), ("b", ""));
}

#[test]
fn uris_have_a_path_and_may_have_a_query() {
    let uri = Uri::parse("http://example.com/a/b?c").unwrap();
    assert_eq!(uri.path.as_deref(), Some("/a/b"));
    assert_eq!(uri.query.as_deref(), Some("c"));
    let uri = Uri::parse("http://example.com").unwrap();
    assert_eq!(uri.path.as_deref(), Some("/"));
    assert_eq!(uri.query, None);
    let uri = Uri::parse("example.com:80").unwrap();
    assert_eq!((uri.path, uri.query), (None, None));
    assert!(Uri::parse("/a b").is_none());
    assert!(Uri::parse("").is_none());
}

#[test]
fn uris_without_a_path_have_no_segments() {
    let uri = Uri { path: None, query: None };
    assert!(uri_to_query(&uri).is_empty());
    assert!(uri_to_path(uri).is_empty());
}

#[test]
fn slashes_at_the_ends_and_in_a_row_change_nothing() {
    assert_eq!(segments("a/b"), ["a", "b"]);
    assert_eq!(segments("/a//b/"), ["a", "b"]);
    assert!(segments("/").is_empty());
    assert!(segments("").is_empty());
}

#[test]
fn a_decoded_slash_stays_in_its_segment() {
    assert_eq!(segments("/a%2Fb"), ["a/b"]);
}

#[test]
fn what_cannot_be_decoded_is_no_segment() {
    assert_eq!(segments("/a/%FF/b"), ["a", "b"]);
    assert_eq!(segments("/%/%4/%zz/%4z"), ["%", "%4", "%zz", "%4z"]);
    assert_eq!(segments("/%E2%82%AC/%e2%82%ac"), ["€", "€"]);
    assert_eq!(segments("/%2541"), ["%41"]);
}

#[test]
fn special_characters_are_replaced() {
    assert_eq!(replace_special_chars("a.b c*d>e-é".to_string()), "a_b_c_d_e-é");
    assert_eq!(segments("/..//%2e"), ["__", "_"]);
}

#[test]
fn query_parameters_are_cut_at_the_first_sign() {
    let query = uri_to_query(&Uri {
        path: None,
        query: Some("a=b=c&d&=e&A=f&x=%FF&%FF=y".to_string()),
    });
    assert_eq!(query.len(), 3);
    assert_eq!(value(&query, "a"), Some("f"));
    assert_eq!(value(&query, "d"), Some(""));
    assert_eq!(value(&query, ""), Some("e"));
    assert_eq!(value(&query, "x"), None);
}

#[test]
fn an_empty_query_has_an_empty_parameter() {
    let query = uri_to_query(&Uri {
        path: None,
        query: Some(String::new()),
    });
    assert_eq!(query.len(), 1);
    assert_eq!(value(&query, ""), Some(""));
}
