use pore::config::RemoteConfig;
use pore::depot::{parse_revision, Depot, Replacement};
use pore::rename::ProjectRename;
use pore::replace::{Action, Entry, ReplaceStart};

fn depot() -> Depot {
    Depot::new("android".to_string(), "/depot".to_string())
}

fn remote(renames: Vec<ProjectRename>) -> RemoteConfig {
    RemoteConfig {
        name: "aosp".to_string(),
        url: "https://android.googlesource.com/".to_string(),
        other_urls: None,
        manifest: None,
        depot: "android".to_string(),
        project_renames: renames,
        default_upload_options: Vec::new(),
    }
}

fn rename(regex: &str, replacement: &str) -> ProjectRename {
    ProjectRename::new(regex.to_string(), replacement.to_string()).ok().unwrap()
}

#[test]
fn the_first_rename_that_applies_counts() {
    let r = remote(vec![
        rename("^kernel/", "linux/"),
        rename("(a+)", "<$1>"),
        rename("b", "never"),
    ]);
    let name = Depot::apply_project_renames(&r, "kernel/aab");
    assert_eq!(depot().objects_mirror(&r, &name), "/depot/objects/linux/aab.git");
    let name = Depot::apply_project_renames(&r, "xaabaa");
    assert_eq!(depot().objects_mirror(&r, &name), "/depot/objects/x<aa>baa.git");
    let name = Depot::apply_project_renames(&r, "xyz");
    assert_eq!(depot().objects_mirror(&r, &name), "/depot/objects/xyz.git");
    let name = Depot::choose_name(&vec![None, Some("second".to_string())], "p");
    assert_eq!(depot().refs_mirror(&r, &name), "/depot/refs/aosp/second.git");
}

#[test]
fn renames_need_a_regular_expression() {
    assert!(ProjectRename::new("(".to_string(), "".to_string()).is_err());
    let r = rename("a", "b");
    assert_eq!(r.pattern(), "a");
    assert_eq!(r.replacement(), "b");
    assert_eq!(r.rename("xax"), Some("xbx".to_string()));
    assert_eq!(r.rename("xyz"), None);
}

#[test]
fn fetching_a_project() {
    let targets = vec!["master".to_string(), "v1".to_string()];
    let plan = depot()
        .fetch_repo(&remote(Vec::new()), "platform/build", Some(&targets), true, Some(1), "/tmp/mux")
        .ok()
        .unwrap();
    assert_eq!(plan.objects, "/depot/objects/platform/build.git");
    assert_eq!(plan.url, "https://android.googlesource.com/platform/build.git");
    assert_eq!(
        plan.arguments,
        vec![
            "-C",
            "/depot/objects/platform/build.git",
            "fetch",
            "aosp",
            "--tags",
            "--depth",
            "1",
            "+master:refs/tags/PORE_FETCH_LAST_0",
            "+v1:refs/tags/PORE_FETCH_LAST_1",
        ]
    );
    assert_eq!(plan.ssh_command, "ssh -o 'ControlMaster no' -o 'ControlPath /tmp/mux'");
    assert_eq!(plan.refs.repository, "/depot/refs/aosp/platform/build.git");
    assert!(plan.refs.bare);
    assert_eq!(
        plan.refs.file,
        "/depot/refs/aosp/platform/build.git/objects/info/alternates"
    );
    assert_eq!(plan.refs.contents, "/depot/objects/platform/build.git/objects\n");
    assert_eq!(plan.heads.src, "/depot/objects/platform/build.git/refs/remotes/aosp");
    assert_eq!(plan.heads.dst, "/depot/refs/aosp/platform/build.git/refs/heads");
    assert_eq!(plan.tags.src, "/depot/objects/platform/build.git/refs/tags");
    assert_eq!(plan.tags.dst, "/depot/refs/aosp/platform/build.git/refs/tags");
    let plain = depot().fetch_repo(&remote(Vec::new()), "p", None, false, None, "").ok().unwrap();
    assert_eq!(plain.arguments, vec!["-C", "/depot/objects/p.git", "fetch", "aosp"]);
}

#[test]
fn names_with_slashes_at_an_end_are_refused() {
    assert!(matches!(
        depot().fetch_repo(&remote(Vec::new()), "/p", None, false, None, ""),
        Err(e) if e.project == "/p"
    ));
    assert!(depot().fetch_repo(&remote(Vec::new()), "p/", None, false, None, "").is_err());
}

#[test]
fn cloning_and_updating() {
    let r = remote(vec![rename("^p$", "q")]);
    let plan = depot().clone_repo(&r, "p", "master", "/tree/p");
    assert_eq!(plan.repository.repository, "/tree/p");
    assert!(!plan.repository.bare);
    assert_eq!(plan.repository.file, "/tree/p/.git/objects/info/alternates");
    assert_eq!(plan.repository.contents, "/depot/objects/q.git/objects\n");
    assert_eq!(plan.url, "/depot/refs/aosp/q.git");
    assert_eq!(plan.push_url, "https://android.googlesource.com/p");
    assert_eq!(plan.revisions, vec!["aosp/master", "master"]);
    let (heads, tags) = depot().update_remote_refs(&r, "p", "/tree/p", true);
    assert_eq!(heads.src, "/depot/refs/aosp/q.git/refs/heads");
    assert_eq!(heads.dst, "/tree/p/.git/refs/remotes/aosp");
    assert_eq!(tags.src, "/depot/refs/aosp/q.git/refs/tags");
    assert_eq!(tags.dst, "/tree/p/.git/refs/tags");
    let fetched = depot().fetch_repo(&r, "p", None, false, None, "").ok().unwrap();
    assert_eq!(fetched.heads.dst, heads.src);
    assert_eq!(Depot::git_path("/bare", false), "/bare");
    assert_eq!(parse_revision("aosp", "r"), vec!["aosp/r", "r"]);
}

fn file(name: &str, seconds: i64) -> Entry {
    Entry { name: name.to_string(), is_dir: false, seconds, nanoseconds: 7 }
}

fn dir(name: &str) -> Entry {
    Entry { name: name.to_string(), is_dir: true, seconds: 0, nanoseconds: 0 }
}

#[test]
fn replacing_a_directory() {
    let src = vec![file("new", 1), file("same", 2), file("changed", 3), dir("sub")];
    let dst = vec![file("same", 2), file("changed", 4), file("gone", 5), dir("old"), dir("sub")];
    assert_eq!(Depot::replace_directories(&src), vec!["sub"]);
    let actions = Depot::replace_dir(&src, &dst);
    assert_eq!(actions.len(), 4);
    assert!(matches!(&actions[0], Action::Copy { name, seconds: 3, nanoseconds: 7 } if name == "changed"));
    assert!(matches!(&actions[1], Action::RemoveFile { name } if name == "gone"));
    assert!(matches!(&actions[2], Action::RemoveDir { name } if name == "old"));
    assert!(matches!(&actions[3], Action::Copy { name, seconds: 1, nanoseconds: 7 } if name == "new"));
    assert!(Depot::replace_dir(&src, &src).is_empty());
}

#[test]
fn replacing_begins_with_the_parent() {
    let replacement = Replacement { src: "/s".to_string(), dst: "/a/b".to_string() };
    assert!(matches!(Depot::replace_start(&replacement, false), ReplaceStart::NoSource));
    assert!(matches!(
        Depot::replace_start(&replacement, true),
        ReplaceStart::Parent(parent) if parent == "/a"
    ));
    let root = Replacement { src: "/s".to_string(), dst: "/".to_string() };
    assert!(matches!(Depot::replace_start(&root, true), ReplaceStart::NoParent));
}

#[derive(Clone, Debug, PartialEq)]
enum Item {
    File(i64, &'static str),
    Directory(std::collections::BTreeMap<String, Item>),
}

fn folder(items: Vec<(&str, Item)>) -> std::collections::BTreeMap<String, Item> {
    items.into_iter().map(|(name, item)| (name.to_string(), item)).collect()
}

fn listing(items: &std::collections::BTreeMap<String, Item>, backwards: bool) -> Vec<Entry> {
    let mut entries: Vec<Entry> = items
        .iter()
        .map(|(name, item)| match item {
            Item::File(seconds, _) => file(name, *seconds),
            Item::Directory(_) => dir(name),
        })
        .collect();
    if backwards {
        entries.reverse();
    }
    entries
}

fn replace_all(
    src: &std::collections::BTreeMap<String, Item>,
    dst: &mut std::collections::BTreeMap<String, Item>,
    backwards: bool,
) {
    let entries = listing(src, backwards);
    for name in Depot::replace_directories(&entries) {
        let inner = dst.entry(name.clone()).or_insert_with(|| Item::Directory(folder(Vec::new())));
        match (&src[&name], inner) {
            (Item::Directory(from), Item::Directory(to)) => replace_all(from, to, backwards),
            _ => panic!("not a directory"),
        }
    }
    for action in Depot::replace_dir(&entries, &listing(dst, backwards)) {
        match action {
            Action::Copy { name, .. } => {
                dst.insert(name.clone(), src[&name].clone());
            }
            Action::RemoveDir { name } | Action::RemoveFile { name } => {
                dst.remove(&name);
            }
        }
    }
}

#[test]
fn directories_are_replaced_at_every_depth() {
    let src = folder(vec![
        ("a", Item::File(1, "new a")),
        (
            "heads",
            Item::Directory(folder(vec![
                ("main", Item::File(5, "new main")),
                ("kept", Item::File(6, "never seen")),
                ("deep", Item::Directory(folder(vec![("x", Item::File(7, "x"))]))),
            ])),
        ),
        ("empty", Item::Directory(folder(Vec::new()))),
    ]);
    let dst = folder(vec![
        ("a", Item::File(2, "old a")),
        (
            "heads",
            Item::Directory(folder(vec![
                ("main", Item::File(4, "old main")),
                ("kept", Item::File(6, "as it was")),
                ("gone", Item::Directory(folder(vec![("y", Item::File(1, "y"))]))),
            ])),
        ),
        ("stray", Item::File(1, "stray")),
    ]);
    let expected = folder(vec![
        ("a", Item::File(1, "new a")),
        (
            "heads",
            Item::Directory(folder(vec![
                ("main", Item::File(5, "new main")),
                ("kept", Item::File(6, "as it was")),
                ("deep", Item::Directory(folder(vec![("x", Item::File(7, "x"))]))),
            ])),
        ),
        ("empty", Item::Directory(folder(Vec::new()))),
    ]);
    for backwards in [false, true] {
        let mut result = dst.clone();
        replace_all(&src, &mut result, backwards);
        assert_eq!(result, expected);
    }
}
