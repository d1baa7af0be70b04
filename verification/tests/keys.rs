use http_gateway::fields::Fields;
use http_gateway::handler::{Authorization, StringId};
use http_gateway::text;
use std::hash::BuildHasher;

#[test]
fn keys_compare_without_case() {
    let from_static: StringId = "Authorization".into();
    let from_owned: StringId = String::from("Authorization").into();
    assert!(from_static == from_owned);
    assert!(from_static == "authorization");
    assert!(from_static == "AUTHORIZATION");
    assert!(&from_static == "AUTHORIZATION");
    assert!(!(from_static == "authorisation"));
    assert_eq!(&*from_static, "Authorization");
    assert_eq!(from_static.id(), "authorization");
}

#[test]
fn keys_keep_no_second_copy_of_a_lowercase_text() {
    assert!(matches!(StringId::from("abc"), StringId::Static("abc")));
    assert!(matches!(StringId::from("aBc"), StringId::StaticAndId("aBc", id) if id == "abc"));
    assert!(matches!(StringId::from("abc".to_string()), StringId::Same(id) if id == "abc"));
    assert!(matches!(StringId::new("a-c"), StringId::Same(id) if id == "a-c"));
    assert!(matches!(StringId::new("A-c"), StringId::OriginalAndId(text, id)
        if text == "A-c" && id == "a-c"));
    assert!(matches!(
        StringId::from("content-type"),
        StringId::Static("content-type")
    ));
    assert!(matches!(StringId::from("42"), StringId::Static("42")));
    assert!(matches!(StringId::from(""), StringId::Static("")));
    assert!(matches!(StringId::from("x-\u{4e2d}"), StringId::Static("x-\u{4e2d}")));
}

#[test]
fn keys_compare_by_their_lowercase_equivalents() {
    // The Kelvin sign lowercases to one ASCII byte, and a capital sigma at the end of a
    // word to the final form.
    assert!(StringId::new("\u{212a}elvin") == "kelvin");
    assert!(StringId::new("kelvin") == "\u{212a}ELVIN");
    assert!(StringId::new("ΟΔΟΣ") == "οδος");
    assert!(StringId::new("İ") == "i\u{307}");
    assert_eq!(StringId::new("İ").id(), "i\u{307}");
}

#[test]
fn keys_are_ordered_by_their_ids() {
    assert!(StringId::from("Beta") > StringId::from("alpha"));
    assert!(StringId::from("ALPHA") < StringId::from("beta"));
    assert!(StringId::from("a") < StringId::from("AB"));
    assert_eq!(
        StringId::from("Same").partial_cmp(&StringId::from("sAME")),
        Some(std::cmp::Ordering::Equal)
    );
}

#[test]
fn keys_are_totally_ordered_whatever_holds_their_text() {
    let keys = [
        StringId::from("beta"),
        StringId::from("Beta"),
        StringId::new("beta"),
        StringId::new("BETA"),
        StringId::from("alpha"),
        StringId::from("Gamma"),
    ];
    for a in &keys {
        for b in &keys {
            assert_eq!(a.cmp(b), a.id().cmp(b.id()));
            assert_eq!(a.partial_cmp(b), Some(a.cmp(b)));
            assert_eq!(a == b, a.cmp(b).is_eq());
        }
    }
}

#[test]
fn equal_keys_hash_alike() {
    let state = std::collections::hash_map::RandomState::new();
    assert_eq!(
        state.hash_one(StringId::from("Location")),
        state.hash_one(StringId::new("LOCATION"))
    );
    assert_eq!(
        state.hash_one(StringId::from("Location")),
        state.hash_one("location")
    );
    let mut map = std::collections::HashMap::new();
    map.insert(StringId::from("Location"), 1);
    assert_eq!(map.insert(StringId::new("LOCATION"), 2), Some(1));
    assert_eq!(map.len(), 1);
    assert_eq!(map.get(&StringId::from("location")), Some(&2));
}

#[test]
fn every_lowercase_character_is_its_own_key() {
    for c in char::MIN..=char::MAX {
        let key = StringId::new(&c.to_string());
        assert_eq!(key.id(), c.to_string().to_lowercase());
        if c.is_lowercase() {
            assert!(matches!(&key, StringId::Same(_)));
        }
        if key.id() == c.to_string() {
            assert!(matches!(key, StringId::Same(_)));
        } else {
            assert!(matches!(key, StringId::OriginalAndId(_, _)));
        }
    }
}

#[test]
fn every_white_space_character_is_trimmed() {
    for c in char::MIN..=char::MAX {
        let padded = format!("{c}x{c}");
        assert_eq!(text::trim(&padded), padded.trim());
    }
    assert_eq!(text::trim(" \t "), "");
}

#[test]
fn texts_are_split_at_every_separator() {
    for sample in ["", "/", "a", "/a//b/", "é/ü", "a/b/c"] {
        let expected: Vec<&str> = sample.split('/').collect();
        assert_eq!(text::split(sample, '/'), expected);
    }
    assert_eq!(
        text::split_once("a=b=c", '='),
        Some(("a".to_string(), "b=c".to_string()))
    );
    assert_eq!(
        text::split_once("=", '='),
        Some((String::new(), String::new()))
    );
    assert_eq!(text::split_once("abc", '='), None);
}

#[test]
fn authorization_is_cut_at_its_first_space() {
    let auth = Authorization::from("  Bearer abc def ".to_string());
    assert!(auth.scheme == "bearer");
    assert_eq!(&*auth.scheme, "Bearer");
    assert_eq!(auth.params, "abc def");

    let auth = Authorization::from(" token".to_string());
    assert_eq!(&*auth.scheme, " token");
    assert_eq!(auth.params, "");
}

#[test]
fn fields_hold_one_value_for_a_key() {
    let mut fields = Fields::new();
    assert!(fields.is_empty());
    assert_eq!(fields.insert("Content-Type".into(), "a".into()), None);
    assert_eq!(fields.insert("Accept".into(), "b".into()), None);
    assert_eq!(
        fields.insert("content-type".into(), "c".into()),
        Some("a".to_string())
    );
    assert_eq!(fields.len(), 2);
    assert_eq!(
        fields.get(&"CONTENT-TYPE".into()),
        Some(&"c".to_string())
    );
    let (key, value) = fields.entry(0);
    assert_eq!((&**key, value.as_str()), ("Content-Type", "c"));
    assert_eq!(fields.remove(&"accept".into()), Some("b".to_string()));
    assert_eq!(fields.remove(&"accept".into()), None);
    assert_eq!(fields.get(&"accept".into()), None);
    assert_eq!(fields.len(), 1);
}
