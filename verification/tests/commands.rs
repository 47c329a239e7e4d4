use pore::commands::{
    can_import, choose_clone, choose_config_path, clone_fetch_type, command_name, command_reach,
    import_groups,
    import_code, import_manifest, import_projects, import_source, imports_directory, parse_target,
    project_info_lines, select_info, trace_id, tree_info_lines, user_string_to_vec, CloneError,
    CommandKind, InfoError, ProjectDetails,
};
use pore::config::{Config, ConfigError, DepotConfig, NamedDepot, RemoteConfig};
use pore::manifest::Manifest;
use pore::tree::groups::GroupFilter;
use pore::tree::select::{ProjectInfo, Reach};
use pore::tree::{FetchType, Tree, TreeConfig};

#[test]
fn target_with_branch_and_file() {
    let (remote, branch, file) = parse_target("aosp/master:other.xml").ok().unwrap();
    assert_eq!(remote, "aosp");
    assert_eq!(branch.as_deref(), Some("master"));
    assert_eq!(file.as_deref(), Some("other.xml"));
}

#[test]
fn target_without_branch() {
    let (remote, branch, file) = parse_target("aosp:x").ok().unwrap();
    assert_eq!(remote, "aosp:x");
    assert_eq!(branch, None);
    assert_eq!(file, None);
    let (remote, branch, file) = parse_target("/").ok().unwrap();
    assert_eq!(remote, "");
    assert_eq!(branch.as_deref(), Some(""));
    assert_eq!(file, None);
}

#[test]
fn invalid_targets() {
    assert!(matches!(parse_target("a/b/c"), Err(e) if e.target == "a/b/c"));
    assert!(parse_target("a/b:c:d").is_err());
}

fn config() -> Config {
    Config {
        update_check: false,
        autosubmit: false,
        presubmit: false,
        depots: vec![NamedDepot {
            name: "android".to_string(),
            depot: DepotConfig { path: "/depot".to_string() },
        }],
        remotes: vec![RemoteConfig {
            name: "aosp".to_string(),
            url: "https://host/".to_string(),
            other_urls: None,
            manifest: Some("platform/manifest".to_string()),
            depot: "android".to_string(),
            project_renames: Vec::new(),
            default_upload_options: Vec::new(),
        }],
        manifests: Vec::new(),
        parallelism: Vec::new(),
    }
}

#[test]
fn clones_take_the_manifest_defaults() {
    let c = choose_clone(&config(), "aosp", None).ok().unwrap();
    assert_eq!(c.manifest.project, "platform/manifest");
    assert_eq!(c.branch, "master");
    assert_eq!(c.file, "default.xml");
    assert_eq!(c.tree_root, "master");
    let c = choose_clone(&config(), "aosp/b:f.xml", Some("dir".to_string())).ok().unwrap();
    assert_eq!(c.branch, "b");
    assert_eq!(c.file, "f.xml");
    assert_eq!(c.tree_root, "dir");
    assert!(matches!(
        choose_clone(&config(), "a/b/c", None),
        Err(CloneError::InvalidTarget(e)) if e.target == "a/b/c"
    ));
    assert!(matches!(
        choose_clone(&config(), "nothing", None),
        Err(CloneError::Config(ConfigError::UnknownManifest(name))) if name == "nothing"
    ));
    assert!(matches!(clone_fetch_type(true), FetchType::FetchExceptManifest));
    assert!(matches!(clone_fetch_type(false), FetchType::NoFetch));
}

#[test]
fn users_get_a_domain() {
    assert_eq!(
        user_string_to_vec(Some("a,,b@c.d")),
        vec!["a@google.com", "b@c.d"]
    );
    assert!(user_string_to_vec(None).is_empty());
    assert!(user_string_to_vec(Some("")).is_empty());
}

#[test]
fn trace_ids() {
    assert_eq!(
        trace_id(None, "20210102T030405.000006Z", 0xbeef),
        "pore-20210102T030405.000006Z-P0000beef"
    );
    assert_eq!(trace_id(Some("up"), "t", 1), "up/pore-t-P00000001");
}

#[test]
fn config_paths() {
    assert_eq!(choose_config_path(Some("c".to_string()), "/home/me", true), "c");
    assert_eq!(choose_config_path(None, "/home/me", true), "/home/me/.pore.toml");
    assert_eq!(choose_config_path(None, "/home/me", false), "/etc/pore.toml");
}

#[test]
fn command_names() {
    assert_eq!(command_name(CommandKind::Init), "init");
    assert_eq!(command_name(CommandKind::FindDeleted), "find-deleted");
    assert_eq!(command_name(CommandKind::Forall), "forall");
    assert_eq!(command_name(CommandKind::Info), "info");
}

fn manifest(text: &str) -> Manifest {
    Manifest::parse(&text.as_bytes().to_vec(), &Vec::new()).manifest
}

#[test]
fn imports_are_grouped_by_remote() {
    let m = manifest(
        "<manifest><default remote=\"d\"/>
         <project name=\"p\" path=\"1\"/>
         <project name=\"q\" path=\"2\" remote=\"e\"/>
         <project name=\"p\" path=\"3\"/>
         <project name=\"r\" path=\"4\" remote=\"d\"/></manifest>",
    );
    let groups = import_projects(&m);
    assert_eq!(groups.len(), 2);
    assert_eq!(groups[0].remote, "d");
    assert_eq!(groups[0].projects, vec!["p", "r"]);
    assert_eq!(groups[1].remote, "e");
    assert_eq!(groups[1].projects, vec!["q"]);
    let other = import_groups(&m, "e");
    assert_eq!(other[0].remote, "e");
    assert_eq!(other[0].projects, vec!["p", "q"]);
}

#[test]
fn import_paths() {
    let (dir, file) = import_manifest("t");
    assert_eq!(dir, "t/.repo/manifests");
    assert_eq!(file, "t/.repo/manifest.xml");
    assert_eq!(import_source("t", "a/b"), "t/.repo/project-objects/a/b.git");
    assert!(can_import(true, 1, 2));
    assert!(can_import(false, 1, 1));
    assert!(!can_import(false, 1, 2));
    assert!(!imports_directory("info"));
    assert!(imports_directory("pack"));
    assert!(matches!(import_code(0), Ok(0)));
    assert!(matches!(import_code(2), Err(e) if e.count == 2));
}

fn tree_config(group_filters: Option<Vec<GroupFilter>>) -> TreeConfig {
    TreeConfig {
        remote: "aosp".to_string(),
        branch: "master".to_string(),
        manifest: "platform/manifest".to_string(),
        tags: Vec::new(),
        projects: Vec::new(),
        group_filters,
    }
}

#[test]
fn information_on_a_tree() {
    let filters = vec![
        GroupFilter::Include("pdk".to_string()),
        GroupFilter::Exclude("darwin".to_string()),
    ];
    assert_eq!(
        tree_info_lines(&tree_config(Some(filters))),
        vec![
            "Manifest branch: master",
            "Manifest merge branch: refs/heads/master",
            "Manifest groups: pdk,-darwin",
            "----------------------------",
        ]
    );
    assert_eq!(tree_info_lines(&tree_config(None))[2], "Manifest groups: default");
}

fn details(branch: Option<&str>, branches: &[&str]) -> ProjectDetails {
    ProjectDetails {
        name: "n".to_string(),
        mount_path: "/t/p".to_string(),
        head: "abc".to_string(),
        branch: branch.map(|b| b.to_string()),
        revision: "r".to_string(),
        local_branches: branches.iter().map(|b| b.to_string()).collect(),
    }
}

#[test]
fn information_on_a_project() {
    assert_eq!(
        project_info_lines(&details(Some("b"), &["b", "c"])),
        vec![
            "Project: n",
            "Mount path: /t/p",
            "Current revision: abc",
            "Current branch: b",
            "Manifest revision: r",
            "Local Branches: 2 [b, c]",
            "----------------------------",
        ]
    );
    assert_eq!(
        project_info_lines(&details(None, &[])),
        vec![
            "Project: n",
            "Mount path: /t/p",
            "Current revision: abc",
            "Manifest revision: r",
            "Local Branches: 0",
            "----------------------------",
        ]
    );
}

fn info(path: &str) -> ProjectInfo {
    ProjectInfo {
        project_path: path.to_string(),
        project_name: format!("name of {}", path),
        revision: "r".to_string(),
        file_ops: Vec::new(),
    }
}

#[test]
fn projects_to_inform_about() {
    let tree = Tree { path: "/t".to_string(), config: tree_config(None) };
    let all = tree.info_projects(vec![info("a"), info("b/c")], &Vec::new()).ok().unwrap();
    assert_eq!(all.len(), 2);
    let one = tree
        .info_projects(vec![info("a"), info("b/c")], &vec!["/t/b/c".to_string()])
        .ok()
        .unwrap();
    assert_eq!(one.len(), 1);
    assert_eq!(one[0].project_name, "name of b/c");
    assert!(matches!(
        tree.info_projects(vec![info("a")], &vec!["/t/b".to_string()]),
        Err(InfoError::NotFound { path }) if path == "/t/b"
    ));
    assert!(matches!(
        tree.info_projects(vec![info("a")], &vec!["relative".to_string()]),
        Err(InfoError::NotInTree { path }) if path == "relative"
    ));
    let ways = vec![Some("b/c".to_string()), Some("a".to_string())];
    let paths = vec!["x".to_string(), "y".to_string()];
    let both = select_info(&vec![info("a"), info("b/c")], &paths, &ways).ok().unwrap();
    assert_eq!(both[0].project_path, "b/c");
    assert_eq!(both[1].project_path, "a");
}

#[test]
fn paths_of_commands() {
    assert!(matches!(command_reach(CommandKind::Sync), Reach::Beneath));
    assert!(matches!(command_reach(CommandKind::Status), Reach::Beneath));
    assert!(matches!(command_reach(CommandKind::Upload), Reach::Containing));
    assert!(matches!(command_reach(CommandKind::Prune), Reach::Containing));
}
