use pore::update_check::{UpdateChecker, Version, UPDATE_URL};

fn version(number: &str, changes: &[&str]) -> Version {
    Version {
        number: number.to_string(),
        date: "2021-01-02".to_string(),
        changes: changes.iter().map(|c| c.to_string()).collect(),
    }
}

#[test]
fn newer_versions_are_reported() {
    let versions = vec![
        version("unreleased", &["wip"]),
        version("0.10.0", &["a", "b"]),
        version("0.9.1", &["c"]),
        version("0.9.0", &["d"]),
    ];
    assert_eq!(
        UpdateChecker::finish(&versions, "0.9.0"),
        vec![
            "pore v0.10.0 (2021-01-02) is available!",
            "",
            "  0.10.0 (2021-01-02)",
            "    a",
            "    b",
            "  0.9.1 (2021-01-02)",
            "    c",
        ]
    );
    assert!(UpdateChecker::finish(&versions, "0.10.0").is_empty());
    assert_eq!(UpdateChecker::filter_new_versions(&versions, "0.9.1").len(), 1);
}

#[test]
fn unreleased_versions_are_not() {
    assert!(!UpdateChecker::reports("unreleased", true));
    assert!(UpdateChecker::reports("1.0", true));
    assert!(!UpdateChecker::reports("1.0", false));
    assert!(UpdateChecker::finish(&vec![version("unreleased", &["wip"])], "0.0.1").is_empty());
    assert!(UPDATE_URL.starts_with("https://"));
}
