use kronox::error::KronoxError;
use kronox::schools::{School, SchoolsConfig};

fn school(id: &str, urls: &[&str]) -> School {
    School {
        id: id.to_owned(),
        name: "Kristianstad".to_owned(),
        domain: "hkr.se".to_owned(),
        urls: urls.iter().map(|u| (*u).to_owned()).collect(),
        logo_url: String::new(),
    }
}

#[test]
fn parses_and_indexes() {
    let mut parsed = SchoolsConfig::new();
    parsed.insert(
        "hkr".to_owned(),
        school("hkr", &["https://schema.hkr.se/", "https://kronox.hkr.se/"]),
    );
    let config = SchoolsConfig::from_parsed(parsed).unwrap();
    assert_eq!(config.max_url_index("hkr"), Some(1));
    assert_eq!(config.max_url_index("nope"), None);
    assert_eq!(config.get("hkr").unwrap().urls.len(), 2);
}

#[test]
fn rejects_empty() {
    assert!(SchoolsConfig::from_parsed(SchoolsConfig::new()).is_err());
}

#[test]
fn empty_configuration_error_says_why() {
    match SchoolsConfig::from_parsed(SchoolsConfig::new()) {
        Err(KronoxError::Config(message)) => assert_eq!(message, "no schools configured"),
        other => panic!("unexpected {other:?}"),
    }
}

#[test]
fn insert_replaces_a_school_under_the_same_code() {
    let mut config = SchoolsConfig::new();
    assert!(config.is_empty());
    config.insert("hkr".to_owned(), school("hkr", &["https://a/"]));
    config.insert("mau".to_owned(), school("mau", &[]));
    config.insert("hkr".to_owned(), school("hkr2", &["https://b/", "https://c/", "https://d/"]));
    assert!(!config.is_empty());
    assert_eq!(config.get("hkr").unwrap().id, "hkr2");
    assert_eq!(config.max_url_index("hkr"), Some(2));
    assert_eq!(config.max_url_index("mau"), Some(0));
    let mut allowed = config.allowed();
    allowed.sort();
    assert_eq!(allowed, vec!["hkr", "mau"]);
    assert!(config.get("HKR").is_none());
}
