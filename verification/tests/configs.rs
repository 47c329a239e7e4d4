use pore::config::{
    can_expand, default_autosubmit, default_branch, default_manifest_file, default_parallelism,
    default_presubmit, default_project_renames, default_update_check, default_upload_options, Config,
    ConfigError, DepotConfig, ManifestConfig, NamedDepot, Parallelism, RemoteConfig,
};

fn remote(name: &str, manifest: Option<&str>) -> RemoteConfig {
    RemoteConfig {
        name: name.to_string(),
        url: "https://host/".to_string(),
        other_urls: None,
        manifest: manifest.map(|m| m.to_string()),
        depot: "android".to_string(),
        project_renames: Vec::new(),
        default_upload_options: Vec::new(),
    }
}

fn config() -> Config {
    Config {
        update_check: true,
        autosubmit: true,
        presubmit: false,
        depots: vec![
            NamedDepot { name: "android".to_string(), depot: DepotConfig { path: "~/.pore/android".to_string() } },
            NamedDepot { name: "plain".to_string(), depot: DepotConfig { path: "/srv/depot".to_string() } },
            NamedDepot {
                name: "broken".to_string(),
                depot: DepotConfig { path: "/srv/$PORE_TEST_UNSET_VARIABLE".to_string() },
            },
        ],
        remotes: vec![remote("aosp", Some("platform/manifest")), remote("other", None)],
        manifests: vec![ManifestConfig {
            name: "kernel".to_string(),
            remote: "aosp".to_string(),
            project: "kernel/manifest".to_string(),
            default_branch: "main".to_string(),
            default_manifest_file: "kernel.xml".to_string(),
        }],
        parallelism: vec![
            Parallelism { command: "global".to_string(), jobs: -16 },
            Parallelism { command: "sync".to_string(), jobs: 3 },
        ],
    }
}

#[test]
fn depots_are_found() {
    let depot = config().find_depot("plain").ok().unwrap();
    assert_eq!(depot.name, "plain");
    assert_eq!(depot.path, "/srv/depot");
    let home = config().find_depot("android").ok().unwrap();
    assert_ne!(home.path, "~/.pore/android");
    assert!(home.path.ends_with("/.pore/android"));
}

#[test]
fn depots_are_missed() {
    assert!(matches!(
        config().find_depot("nowhere"),
        Err(ConfigError::UnknownDepot(name)) if name == "nowhere"
    ));
    assert!(matches!(
        config().find_depot("broken"),
        Err(ConfigError::ExpansionFailed { depot, .. }) if depot == "broken"
    ));
    assert!(matches!(
        Config::depot_at("d", Err("why".to_string())),
        Err(ConfigError::ExpansionFailed { depot, reason }) if depot == "d" && reason == "why"
    ));
    assert_eq!(Config::depot_at("d", Ok("/p".to_string())).ok().unwrap().path, "/p");
}

#[test]
fn remotes_are_found() {
    let c = config();
    assert_eq!(c.find_remote("other").ok().unwrap().name, "other");
    assert!(matches!(c.find_remote("none"), Err(ConfigError::UnknownRemote(name)) if name == "none"));
}

#[test]
fn manifests_are_found() {
    let c = config();
    let kernel = c.find_manifest("kernel").ok().unwrap();
    assert_eq!(kernel.project, "kernel/manifest");
    assert_eq!(kernel.default_branch, "main");
    let aosp = c.find_manifest("aosp").ok().unwrap();
    assert_eq!(aosp.name, "aosp");
    assert_eq!(aosp.remote, "aosp");
    assert_eq!(aosp.project, "platform/manifest");
    assert_eq!(aosp.default_branch, "master");
    assert_eq!(aosp.default_manifest_file, "default.xml");
    assert!(matches!(c.find_manifest("other"), Err(ConfigError::UnknownManifest(name)) if name == "other"));
    assert!(matches!(c.find_manifest("none"), Err(ConfigError::UnknownManifest(_))));
}

#[test]
fn pool_sizes() {
    let c = config();
    assert_eq!(c.pool_size("sync", Some(5), 8), 5);
    assert_eq!(c.pool_size("sync", None, 8), 3);
    assert_eq!(c.pool_size("status", None, 8), 8);
    assert_eq!(c.pool_size("status", None, 32), 16);
    assert_eq!(c.pool_size("status", Some(0), 8), 8);
    assert_eq!(c.pool_size("status", Some(i32::MIN), 8), 8);
    let mut none = config();
    none.parallelism = Vec::new();
    assert_eq!(none.pool_size("status", None, 8), 8);
}

#[test]
fn flags_override_the_configuration() {
    let c = config();
    assert!(c.autosubmit_upload(false, false));
    assert!(!c.autosubmit_upload(false, true));
    assert!(c.autosubmit_upload(true, true));
    assert!(!c.presubmit_upload(false, false));
    assert!(c.presubmit_upload(true, false));
    assert!(!c.presubmit_upload(false, true));
}

#[test]
fn defaults() {
    assert!(default_update_check());
    assert!(!default_autosubmit());
    assert!(!default_presubmit());
    assert!(default_upload_options().is_empty());
    assert!(default_project_renames().is_empty());
    assert_eq!(default_branch(), "master");
    assert_eq!(default_manifest_file(), "default.xml");
    assert!(!default_parallelism().is_empty());
    assert!(Config::default_string().contains("[[remotes]]"));
}

#[test]
fn some_paths_cannot_be_expanded() {
    assert!(can_expand("~/a/${HOME}/$b"));
    assert!(!can_expand("a/$\u{e4}"));
    assert!(can_expand("a/$\u{20ac}"));
    assert!(can_expand("a/$$\u{e4}"));
    assert!(!can_expand("a/$$$\u{e4}"));
    assert!(can_expand("a/${\u{e4}$\u{e4}}"));
    assert!(!can_expand("a/${\u{e4}$\u{e4}"));
    assert!(can_expand("$"));
    let mut c = config();
    c.depots[1].depot.path = "/srv/$\u{e4}".to_string();
    assert!(c.find_expandable_depot("plain").is_none());
    c.depots[1].depot.path = "/srv/${PORE_UNSET_IN_TESTS:-mine}s/x".to_string();
    let found = c.find_expandable_depot("plain").unwrap().ok().unwrap();
    assert_eq!(found.path, "/srv/mines/x");
    c.depots[1].depot.path = "/srv/$PORE_UNSET_IN_TESTS/x".to_string();
    assert!(matches!(
        c.find_expandable_depot("plain"),
        Some(Err(ConfigError::ExpansionFailed { depot, .. })) if depot == "plain"
    ));
    c.depots[1].depot.path = "/srv/$$\u{e4}".to_string();
    let found = c.find_expandable_depot("plain").unwrap().ok().unwrap();
    assert_eq!(found.path, "/srv/$\u{e4}");
    c.depots[1].depot.path = "/srv/$\u{20ac}".to_string();
    let found = c.find_expandable_depot("plain").unwrap().ok().unwrap();
    assert_eq!(found.path, "/srv/$\u{20ac}");
    assert!(matches!(
        c.find_expandable_depot("nowhere"),
        Some(Err(ConfigError::UnknownDepot(name))) if name == "nowhere"
    ));
}
