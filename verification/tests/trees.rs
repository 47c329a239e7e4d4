use pore::config::{ManifestConfig, RemoteConfig};
use pore::manifest::{FileOperation, Manifest, Project};
use pore::tree::groups::GroupFilter;
use pore::tree::select::{relative_to_root, ProjectInfo, Reach};
use pore::tree::sync::{
    hook_links, hook_links_from, link_step, FetchTarget, FileStep, Head, ProjectSync, SyncAction,
    SyncEvent, SyncFailure,
};
use pore::tree::tree_sync::{sync_phases, PhaseEvent, SyncPhase, TreeSync, TreeSyncError};
use pore::tree::{
    assert_empty_directory, create_symlink, CheckoutType, FetchType, LinkAttempt, LinkError, Listing,
    Tree, TreeConfig, TreeError,
};

fn tree_config() -> TreeConfig {
    TreeConfig {
        remote: "aosp".to_string(),
        branch: "master".to_string(),
        manifest: "platform/manifest".to_string(),
        tags: Vec::new(),
        projects: Vec::new(),
        group_filters: None,
    }
}

fn tree() -> Tree {
    Tree { path: "/t".to_string(), config: tree_config() }
}

fn manifest(text: &str) -> Manifest {
    Manifest::parse(&text.as_bytes().to_vec(), &Vec::new()).manifest
}

fn strings(values: &[&str]) -> Vec<String> {
    values.iter().map(|v| v.to_string()).collect()
}

fn grouped(groups: &[&str]) -> Project {
    Project {
        name: "p".to_string(),
        path: None,
        remote: None,
        revision: None,
        dest_branch: None,
        groups: if groups.is_empty() { None } else { Some(strings(groups)) },
        sync_c: None,
        clone_depth: None,
        file_operations: Vec::new(),
        annotations: Vec::new(),
    }
}

#[test]
fn filters_select_by_group() {
    let wanted = |g: &str| GroupFilter::Include(g.to_string());
    let unwanted = |g: &str| GroupFilter::Exclude(g.to_string());
    assert!(GroupFilter::filter_project(&Vec::new(), &grouped(&[])));
    assert!(!GroupFilter::filter_project(&vec![wanted("a")], &grouped(&[])));
    assert!(GroupFilter::filter_project(&vec![wanted("a")], &grouped(&["b", "a"])));
    assert!(!GroupFilter::filter_project(&vec![unwanted("a")], &grouped(&["b"])));
    assert!(!GroupFilter::filter_project(&vec![wanted("b"), unwanted("a")], &grouped(&["b", "a"])));
    assert!(GroupFilter::filter_project(&vec![wanted("b"), unwanted("a")], &grouped(&["b"])));
}

#[test]
fn filters_are_written_and_read() {
    let filters = GroupFilter::from_list(Some("a,-b,"));
    assert_eq!(filters.len(), 3);
    assert!(matches!(&filters[0], GroupFilter::Include(g) if g == "a"));
    assert!(matches!(&filters[1], GroupFilter::Exclude(g) if g == "b"));
    assert!(matches!(&filters[2], GroupFilter::Include(g) if g.is_empty()));
    assert_eq!(GroupFilter::list_text(&filters), "a,-b,");
    assert!(GroupFilter::from_list(None).is_empty());
    assert_eq!(filters[1].to_text(), "-b");
    assert!(matches!(GroupFilter::from_text("-b"), Some(GroupFilter::Exclude(g)) if g == "b"));
    assert!(matches!(GroupFilter::from_text("b"), Some(GroupFilter::Include(g)) if g == "b"));
    assert!(GroupFilter::from_text("-").is_none());
    assert!(GroupFilter::from_text("").is_none());
    assert!(matches!(GroupFilter::from_group("-"), GroupFilter::Exclude(g) if g.is_empty()));
}

#[test]
fn trees_are_constructed() {
    let manifest_config = ManifestConfig {
        name: "aosp".to_string(),
        remote: "aosp".to_string(),
        project: "platform/manifest".to_string(),
        default_branch: "master".to_string(),
        default_manifest_file: "default.xml".to_string(),
    };
    let remote_config = RemoteConfig {
        name: "aosp".to_string(),
        url: "https://host/".to_string(),
        other_urls: None,
        manifest: None,
        depot: "android".to_string(),
        project_renames: Vec::new(),
        default_upload_options: Vec::new(),
    };
    let filters = vec![GroupFilter::Include("a".to_string())];
    let c = Tree::construct("/t", &manifest_config, &remote_config, "b", "f.xml", filters);
    assert_eq!(c.tree.path, "/t");
    assert_eq!(c.tree.config.remote, "aosp");
    assert_eq!(c.tree.config.branch, "b");
    assert_eq!(c.tree.config.manifest, "platform/manifest");
    assert!(c.tree.config.tags.is_empty());
    assert!(c.tree.config.projects.is_empty());
    assert_eq!(c.tree.config.group_filters.as_ref().unwrap().len(), 1);
    assert_eq!(c.pore_path, "/t/.pore");
    assert_eq!(c.manifest_path, "/t/.pore/manifest");
    assert_eq!(c.manifest_link.target, "manifest/f.xml");
    assert_eq!(c.manifest_link.path, "/t/.pore/manifest.xml");
}

#[test]
fn trees_are_found() {
    assert_eq!(Tree::from_path("/t".to_string(), Some(Ok(tree_config()))).ok().unwrap().path, "/t");
    assert!(matches!(
        Tree::from_path("/t".to_string(), None),
        Err(TreeError::NoTree { path }) if path == "/t"
    ));
    assert!(matches!(
        Tree::from_path("/t".to_string(), Some(Err("why".to_string()))),
        Err(TreeError::BadConfig { reason }) if reason == "why"
    ));
    let roots = strings(&["/", "/a"]);
    assert_eq!(Tree::find_from_path("/a/b/c", &roots).ok().unwrap(), "/a");
    assert_eq!(Tree::find_from_path("/x", &roots).ok().unwrap(), "/");
    assert!(matches!(
        Tree::find_from_path("/x", &Vec::new()),
        Err(TreeError::NoEnclosingTree { path }) if path == "/x"
    ));
}

#[test]
fn places_in_a_tree() {
    let t = tree();
    assert_eq!(t.config_path(), "/t/.pore/tree.toml");
    let (dir, file) = t.read_manifest();
    assert_eq!(dir, "/t/.pore/manifest");
    assert_eq!(file, "/t/.pore/manifest.xml");
    let (dir, links) = t.ensure_repo_compat();
    assert_eq!(dir, "/t/.repo");
    assert_eq!(links[0].target, "../.pore/manifest");
    assert_eq!(links[0].path, "/t/.repo/manifests");
    assert_eq!(links[1].target, "../.pore/manifest.xml");
    assert_eq!(links[1].path, "/t/.repo/manifest.xml");
    assert_eq!(t.update_hooks(), vec!["/t/.pore/hooks/commit-msg"]);
    let hooks = pore::hooks::hooks();
    assert_eq!(hooks.len(), 1);
    assert_eq!(hooks[0].name, "commit-msg");
    assert!(hooks[0].contents.contains("Change-Id"));
}

#[test]
fn directories_must_be_empty() {
    assert!(assert_empty_directory("/t", Listing::Entries(0)).is_ok());
    assert!(matches!(
        assert_empty_directory("/t", Listing::Entries(2)),
        Err(TreeError::NotEmpty { path }) if path == "/t"
    ));
    assert!(matches!(
        assert_empty_directory("/t", Listing::Failed("why".to_string())),
        Err(TreeError::Unreadable { path, reason }) if path == "/t" && reason == "why"
    ));
}

#[test]
fn links_may_be_there_already() {
    assert!(create_symlink("a", "l", LinkAttempt::Made).is_ok());
    assert!(create_symlink("a/b", "l", LinkAttempt::Points("a//b/".to_string())).is_ok());
    assert!(matches!(
        create_symlink("a", "l", LinkAttempt::Points("b".to_string())),
        Err(LinkError::Mismatch { path, wanted, actual }) if path == "l" && wanted == "a" && actual == "b"
    ));
    assert!(matches!(
        create_symlink("a", "l", LinkAttempt::Unreadable("why".to_string())),
        Err(LinkError::Unreadable { path, reason }) if path == "l" && reason == "why"
    ));
    assert!(matches!(
        create_symlink("a", "l", LinkAttempt::Failed("why".to_string())),
        Err(LinkError::Failed { reason }) if reason == "why"
    ));
}

const PROJECTS: &str = "<manifest><default revision=\"d\" remote=\"aosp\"/>
    <project name=\"n1\" path=\"a\"/>
    <project name=\"n2\" path=\"a/b\" revision=\"r\"/>
    <project name=\"n3\" path=\"c\" groups=\"g\"/></manifest>";

fn paths(projects: &[ProjectInfo]) -> Vec<&str> {
    projects.iter().map(|p| p.project_path.as_str()).collect()
}

#[test]
fn projects_are_collected() {
    let m = manifest(PROJECTS);
    let t = tree();
    let all = t.collect_manifest_projects(&m, "/t", &Vec::new(), Reach::Containing).ok().unwrap();
    assert_eq!(paths(&all), vec!["a", "a/b", "c"]);
    assert_eq!(all[0].project_name, "n1");
    assert_eq!(all[0].revision, "d");
    assert_eq!(all[1].revision, "r");
    let containing =
        t.collect_manifest_projects(&m, "/t", &strings(&["/t/a/b/x"]), Reach::Containing).ok().unwrap();
    assert_eq!(paths(&containing), vec!["a", "a/b"]);
    let exact = t.collect_manifest_projects(&m, "/t", &strings(&["/t/a"]), Reach::Containing).ok().unwrap();
    assert_eq!(paths(&exact), vec!["a"]);
    let beneath = t.collect_manifest_projects(&m, "/t", &strings(&["/t/a"]), Reach::Beneath).ok().unwrap();
    assert_eq!(paths(&beneath), vec!["a", "a/b"]);
    assert!(matches!(
        t.collect_manifest_projects(&m, "/t", &strings(&["relative"]), Reach::Beneath),
        Err(e) if e.path == "relative"
    ));
    let mut filtered = tree();
    filtered.config.group_filters = Some(vec![GroupFilter::Include("g".to_string())]);
    let some = filtered.select_projects(&m, &Vec::new(), Reach::Beneath);
    assert_eq!(paths(&some), vec!["c"]);
    let empty = manifest("<manifest><project name=\"n\"/></manifest>");
    assert_eq!(t.project_revision(&empty, &empty.projects.at(0).project), "master");
}

#[test]
fn paths_relative_to_the_root() {
    let r = relative_to_root(&strings(&["/t/a/b", "/", "/x"]), "/t").ok().unwrap();
    assert_eq!(r, vec!["a/b", "..", "../x"]);
}

#[test]
fn fetch_targets() {
    let all = FetchTarget::from_options(true, Some(strings(&["b"])));
    assert!(matches!(all, FetchTarget::All));
    assert_eq!(all.targets("r"), None);
    let some = FetchTarget::from_options(false, Some(strings(&["b", "c"])));
    assert_eq!(some.targets("r"), Some(strings(&["b", "c"])));
    let upstream = FetchTarget::from_options(false, None);
    assert_eq!(upstream.targets("r"), Some(strings(&["r"])));
}

fn phase_name(phase: SyncPhase) -> &'static str {
    match phase {
        SyncPhase::UpdateHooks => "hooks",
        SyncPhase::FetchManifest => "fetch manifest",
        SyncPhase::CheckoutManifest => "checkout manifest",
        SyncPhase::ReadManifest => "read manifest",
        SyncPhase::FetchProjects => "fetch",
        SyncPhase::CheckoutProjects => "checkout",
        SyncPhase::PlaceFiles => "place",
        SyncPhase::WriteConfig => "write",
    }
}

#[test]
fn phases_of_a_sync() {
    let phases = |f: FetchType, c: CheckoutType| -> Vec<&'static str> {
        sync_phases(f, c).iter().map(|p| phase_name(*p)).collect()
    };
    assert_eq!(
        phases(FetchType::Fetch, CheckoutType::Checkout),
        vec![
            "hooks", "fetch manifest", "checkout manifest", "place", "write", "read manifest", "fetch",
            "checkout", "place", "write",
        ]
    );
    assert_eq!(
        phases(FetchType::FetchExceptManifest, CheckoutType::RefsOnly),
        vec!["hooks", "checkout manifest", "read manifest", "fetch", "checkout"]
    );
    assert_eq!(
        phases(FetchType::NoFetch, CheckoutType::Checkout),
        vec![
            "hooks", "checkout manifest", "place", "write", "read manifest", "checkout", "place", "write",
        ]
    );
    assert_eq!(
        phases(FetchType::Fetch, CheckoutType::NoCheckout),
        vec!["hooks", "fetch manifest", "read manifest", "fetch"]
    );
}

#[test]
fn failed_checkouts_do_not_end_a_sync() {
    let mut t = tree();
    let m = manifest(PROJECTS);
    let projects = t.select_projects(&m, &Vec::new(), Reach::Beneath);
    let (mut sync, first) = TreeSync::begin(FetchType::FetchExceptManifest, CheckoutType::Checkout);
    let mut seen = vec![phase_name(first)];
    let mut phase = Some(first);
    while let Some(current) = phase {
        let event = match current {
            SyncPhase::CheckoutManifest | SyncPhase::CheckoutProjects => PhaseEvent::Tried { failed: 2 },
            SyncPhase::FetchManifest | SyncPhase::FetchProjects => PhaseEvent::Tried { failed: 0 },
            _ => PhaseEvent::Done,
        };
        phase = sync.next(&mut t, &projects, event).ok().unwrap();
        seen.extend(phase.map(phase_name));
    }
    assert_eq!(
        seen,
        vec!["hooks", "checkout manifest", "place", "write", "read manifest", "fetch", "checkout", "place", "write"]
    );
    assert_eq!(t.config.projects, vec!["a", "a/b", "c"]);
    assert!(matches!(
        sync.next(&mut t, &projects, PhaseEvent::Done),
        Err(TreeSyncError::Unexpected)
    ));
}

#[test]
fn failed_fetches_end_a_sync() {
    let mut t = tree();
    let before = t.config.projects.clone();
    let projects = vec![t.manifest_project()];
    let (mut sync, _) = TreeSync::begin(FetchType::Fetch, CheckoutType::Checkout);
    assert!(sync.next(&mut t, &projects, PhaseEvent::Done).is_ok());
    assert!(matches!(
        sync.next(&mut t, &projects, PhaseEvent::Tried { failed: 1 }),
        Err(TreeSyncError::FetchFailed { count: 1 })
    ));
    assert!(matches!(
        sync.next(&mut t, &projects, PhaseEvent::Tried { failed: 0 }),
        Err(TreeSyncError::Unexpected)
    ));
    assert_eq!(t.config.projects, before);
}

fn head(detached: bool, shorthand: Option<&str>, target: Option<&str>) -> SyncEvent {
    SyncEvent::Head(Head {
        detached,
        shorthand: shorthand.map(|s| s.to_string()),
        target: target.map(|s| s.to_string()),
    })
}

fn at_head(checkout: CheckoutType, detach: bool) -> ProjectSync {
    let (mut sync, action) = ProjectSync::begin(checkout, detach);
    assert!(matches!(action, SyncAction::Look));
    assert!(matches!(sync.next(SyncEvent::Exists(true)), SyncAction::UpdateRefs));
    assert!(matches!(sync.next(SyncEvent::Done), SyncAction::ReadHead));
    sync
}

#[test]
fn a_new_project_is_cloned() {
    let (mut sync, _) = ProjectSync::begin(CheckoutType::Checkout, false);
    assert!(matches!(sync.next(SyncEvent::Exists(false)), SyncAction::Clone));
    assert!(matches!(sync.next(SyncEvent::Done), SyncAction::LinkHooks));
    assert!(matches!(sync.next(SyncEvent::Done), SyncAction::Finish));
}

#[test]
fn a_detached_project_is_moved() {
    let mut sync = at_head(CheckoutType::Checkout, false);
    assert!(matches!(sync.next(head(true, None, Some("old"))), SyncAction::Resolve));
    assert!(matches!(
        sync.next(SyncEvent::Commit("new".to_string())),
        SyncAction::Checkout(c) if c == "new"
    ));
    assert!(matches!(sync.next(SyncEvent::Done), SyncAction::LinkHooks));
    assert!(matches!(sync.next(SyncEvent::Done), SyncAction::Finish));
}

#[test]
fn a_project_in_place_stays() {
    let mut sync = at_head(CheckoutType::Checkout, false);
    sync.next(head(true, None, Some("same")));
    assert!(matches!(sync.next(SyncEvent::Commit("same".to_string())), SyncAction::LinkHooks));
}

#[test]
fn branches_are_left_alone() {
    let mut sync = at_head(CheckoutType::Checkout, false);
    assert!(matches!(
        sync.next(head(false, Some("b"), None)),
        SyncAction::Fail(SyncFailure::OnBranch { branch }) if branch == "b"
    ));
    let mut sync = at_head(CheckoutType::Checkout, false);
    assert!(matches!(
        sync.next(head(false, None, None)),
        SyncAction::Fail(SyncFailure::NoShorthand)
    ));
}

#[test]
fn branches_are_left_where_asked() {
    let mut sync = at_head(CheckoutType::Checkout, true);
    assert!(matches!(sync.next(head(false, Some("b"), Some("same"))), SyncAction::Resolve));
    assert!(matches!(
        sync.next(SyncEvent::Commit("same".to_string())),
        SyncAction::Detach(c) if c == "same"
    ));
    let mut sync = at_head(CheckoutType::Checkout, true);
    assert!(matches!(sync.next(head(false, Some("b"), Some("old"))), SyncAction::Resolve));
    assert!(matches!(
        sync.next(SyncEvent::Commit("new".to_string())),
        SyncAction::Checkout(c) if c == "new"
    ));
}

#[test]
fn nothing_is_checked_out_unasked() {
    let (mut sync, _) = ProjectSync::begin(CheckoutType::RefsOnly, false);
    assert!(matches!(sync.next(SyncEvent::Exists(true)), SyncAction::UpdateRefs));
    assert!(matches!(sync.next(SyncEvent::Done), SyncAction::Finish));
    let (mut sync, _) = ProjectSync::begin(CheckoutType::RefsOnly, false);
    assert!(matches!(sync.next(SyncEvent::Exists(false)), SyncAction::Finish));
    let (_, action) = ProjectSync::begin(CheckoutType::NoCheckout, false);
    assert!(matches!(action, SyncAction::Finish));
}

#[test]
fn failures_of_a_sync() {
    let mut sync = at_head(CheckoutType::Checkout, false);
    sync.next(head(true, None, None));
    assert!(matches!(
        sync.next(SyncEvent::Commit("new".to_string())),
        SyncAction::Fail(SyncFailure::NoTarget)
    ));
    let (mut sync, _) = ProjectSync::begin(CheckoutType::Checkout, false);
    assert!(matches!(
        sync.next(SyncEvent::Failed("why".to_string())),
        SyncAction::Fail(SyncFailure::Failed { reason }) if reason == "why"
    ));
    let (mut sync, _) = ProjectSync::begin(CheckoutType::Checkout, false);
    assert!(matches!(sync.next(SyncEvent::Done), SyncAction::Fail(SyncFailure::Unexpected)));
}

#[test]
fn hooks_are_linked() {
    let links = hook_links("/t", "/t/a/b").ok().unwrap();
    assert_eq!(links.len(), 1);
    assert_eq!(links[0].target, "../../../../.pore/hooks/commit-msg");
    assert_eq!(links[0].path, "/t/a/b/.git/hooks/commit-msg");
    let given = hook_links_from("up", "p");
    assert_eq!(given[0].target, "up/.pore/hooks/commit-msg");
    assert!(matches!(hook_links("t", "/a"), Err(e) if e.from == "/a/.git/hooks" && e.to == "t"));
    assert!(matches!(
        hook_links("/t", "a"),
        Ok(links) if links[0].target == "/t/.pore/hooks/commit-msg"
    ));
}

#[test]
fn files_are_linked_and_copied() {
    let t = tree();
    let project = ProjectInfo {
        project_path: "build/make".to_string(),
        project_name: "n".to_string(),
        revision: "r".to_string(),
        file_ops: vec![
            FileOperation::CopyFile { src: "core/root.mk".to_string(), dst: "Makefile".to_string() },
            FileOperation::LinkFile { src: "c".to_string(), dst: "build/c".to_string() },
            FileOperation::LinkFile { src: "c".to_string(), dst: "/".to_string() },
        ],
    };
    let steps = t.file_operations(&project);
    assert!(matches!(
        &steps[0],
        FileStep::Copy { src, path } if src == "/t/build/make/core/root.mk" && path == "/t/Makefile"
    ));
    assert!(matches!(
        &steps[1],
        FileStep::Link { target, path } if target == "make/c" && path == "/t/build/c"
    ));
    assert!(matches!(&steps[2], FileStep::NoParent { path } if path == "/"));
    assert!(matches!(
        link_step("d/l".to_string(), "s".to_string(), None),
        FileStep::NoDifference { path, src } if path == "d/l" && src == "s"
    ));
    assert_eq!(t.project_dir(&project), "/t/build/make");
}

#[test]
fn synced_projects_are_recorded() {
    let mut t = tree();
    let m = manifest(PROJECTS);
    let projects = t.select_projects(&m, &Vec::new(), Reach::Beneath);
    t.record_projects(&projects);
    assert_eq!(t.config.projects, vec!["a", "a/b", "c"]);
    let own = t.manifest_project();
    assert_eq!(own.project_path, ".pore/manifest");
    assert_eq!(own.project_name, "platform/manifest");
    assert_eq!(own.revision, "master");
    assert!(own.file_ops.is_empty());
}

#[test]
fn removed_projects_are_found() {
    let mut t = tree();
    t.config.projects = strings(&["a/", "gone", "c", "a/d"]);
    assert_eq!(t.find_deleted(&manifest(PROJECTS)), vec!["gone", "a/d"]);
}
