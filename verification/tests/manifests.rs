use pore::config::{Config, RemoteConfig};
use pore::manifest::builder::{ManifestBuilder, Parsed, Progress};
use pore::manifest::elements::{AttributeError, Element};
use pore::manifest::flat;
use pore::manifest::lookup::{canonicalize_url, LookupError, Missing, ResolveError};
use pore::manifest::parser::{parse_steps, Context, Item, ParseError, Slot, Warning};
use pore::manifest::{ExtendProject, FileOperation, Manifest, Project};
use pore::tree::TreeConfig;
use pore::xml::{Event, Step, Tag, TagAttribute};

fn parse(text: &str) -> Parsed {
    Manifest::parse(&text.as_bytes().to_vec(), &Vec::new())
}

fn parse_with(text: &str, included: &[&str]) -> Parsed {
    let files: Vec<Vec<u8>> = included.iter().map(|f| f.as_bytes().to_vec()).collect();
    Manifest::parse(&text.as_bytes().to_vec(), &files)
}

fn manifest(text: &str) -> Manifest {
    let parsed = parse(text);
    assert!(matches!(parsed.progress, Progress::Done));
    parsed.manifest
}

fn error(text: &str) -> ParseError {
    match parse(text).progress {
        Progress::Failed(e) => e,
        _ => panic!("not refused"),
    }
}

fn project(name: &str) -> Project {
    Project {
        name: name.to_string(),
        path: None,
        remote: None,
        revision: None,
        dest_branch: None,
        groups: None,
        sync_c: None,
        clone_depth: None,
        file_operations: Vec::new(),
        annotations: Vec::new(),
    }
}

const FULL: &str = r#"<?xml version="1.0" encoding="UTF-8"?>
<!-- a manifest -->
<manifest>
  <notice>Your sources &amp; mine</notice>
  <remote name="aosp" fetch=".." review="https://android-review.googlesource.com/" alias="a" revision="r1" />
  <default revision="master" remote="aosp" sync-j="4" sync-c="true" upstream="ignored" />
  <manifest-server url="http://example.com/" />
  <superproject name="platform/superproject" remote="aosp" />
  <contactinfo bugurl="go/bug" />
  <repo-hooks in-project="platform/tools/repohooks" enabled-list="pre-upload" />
  # stray text
  <project path="build/make" name="platform/build" groups="pdk,tradefed" >
    <copyfile src="core/root.mk" dest="Makefile" />
    <!-- in between -->
    <linkfile src="CleanSpec.mk" dest="build/CleanSpec.mk" />
    <annotation name="n" value="v" />
  </project>
  <project name="art" clone-depth="1" sync-c="false" dest-branch="d" remote="other" revision="r2" />
</manifest>
"#;

#[test]
fn reads_everything() {
    let parsed = parse(FULL);
    assert!(matches!(parsed.progress, Progress::Done));
    assert_eq!(parsed.warnings.len(), 1);
    assert!(matches!(
        &parsed.warnings[0],
        Warning::UnhandledAnnotation { name, value } if name == "n" && value == "v"
    ));
    let m = parsed.manifest;
    assert_eq!(m.remotes.len(), 1);
    let remote = m.remotes.at(0);
    assert_eq!(remote.name, "aosp");
    assert_eq!(remote.fetch, "..");
    assert_eq!(remote.alias.as_deref(), Some("a"));
    assert_eq!(remote.review.as_deref(), Some("https://android-review.googlesource.com/"));
    assert_eq!(remote.revision.as_deref(), Some("r1"));
    let default = m.default.as_ref().unwrap();
    assert_eq!(default.revision.as_deref(), Some("master"));
    assert_eq!(default.remote.as_deref(), Some("aosp"));
    assert_eq!(default.sync_j, Some(4));
    assert_eq!(default.sync_c, Some(true));
    assert_eq!(m.manifest_server.as_ref().unwrap().url, "http://example.com/");
    assert_eq!(m.superproject.as_ref().unwrap().name, "platform/superproject");
    assert_eq!(m.superproject.as_ref().unwrap().remote, "aosp");
    assert_eq!(m.contactinfo.as_ref().unwrap().bug_url, "go/bug");
    let hooks = m.repo_hooks.as_ref().unwrap();
    assert_eq!(hooks.in_project.as_deref(), Some("platform/tools/repohooks"));
    assert_eq!(hooks.enabled_list.as_deref(), Some("pre-upload"));
    assert_eq!(m.projects.len(), 2);
    assert_eq!(m.projects.at(0).path, "art");
    assert_eq!(m.projects.at(1).path, "build/make");
    let art = &m.projects.at(0).project;
    assert_eq!(art.clone_depth, Some(1));
    assert_eq!(art.sync_c, Some(false));
    assert_eq!(art.dest_branch.as_deref(), Some("d"));
    assert_eq!(art.remote.as_deref(), Some("other"));
    assert_eq!(art.revision.as_deref(), Some("r2"));
    assert_eq!(art.groups, None);
    let build = &m.projects.at(1).project;
    assert_eq!(build.name, "platform/build");
    assert_eq!(build.groups, Some(vec!["pdk".to_string(), "tradefed".to_string()]));
    assert_eq!(build.file_operations.len(), 2);
    assert_eq!(build.file_operations[0].src(), "core/root.mk");
    assert_eq!(build.file_operations[0].dst(), "Makefile");
    assert!(matches!(build.file_operations[0], FileOperation::CopyFile { .. }));
    assert!(matches!(build.file_operations[1], FileOperation::LinkFile { .. }));
}

#[test]
fn comments_make_no_difference() {
    let with = manifest("<!-- a --><manifest><!-- b --><project name=\"p\"><!-- c --></project></manifest><!-- d -->");
    let without = manifest("<manifest><project name=\"p\"></project></manifest>");
    assert_eq!(with.serialize(), without.serialize());
}

#[test]
fn values_are_unescaped() {
    let m = manifest("<manifest><project name=\"a&amp;b\"/></manifest>");
    assert_eq!(m.projects.at(0).project.name, "a&b");
}

#[test]
fn unknown_attributes_are_warned_of() {
    let parsed = parse("<manifest><project name=\"p\" colour=\"red\"/></manifest>");
    assert!(matches!(parsed.progress, Progress::Done));
    assert!(matches!(
        &parsed.warnings[0],
        Warning::UnknownAttribute { element: Element::Project, key } if key == b"colour"
    ));
}

#[test]
fn annotations_without_name_or_value_are_warned_of() {
    let parsed = parse(
        "<manifest><project name=\"p\"><annotation value=\"v\"/><annotation name=\"n\"/></project></manifest>",
    );
    assert!(matches!(parsed.warnings[0], Warning::UnnamedAnnotation));
    assert!(matches!(parsed.warnings[1], Warning::EmptyAnnotation));
}

#[test]
fn refuses_what_is_no_xml() {
    assert!(matches!(error("<manifest><a></b></manifest>"), ParseError::UnexpectedStart { .. }));
    assert!(matches!(error("<manifest></notmanifest>"), ParseError::Malformed { .. }));
}

#[test]
fn refuses_misplaced_tags() {
    assert!(matches!(
        error("<project></project>"),
        ParseError::UnexpectedStart { context: Context::Document, name } if name == b"project"
    ));
    assert!(matches!(
        error("<manifest/>"),
        ParseError::UnexpectedEmpty { context: Context::Document, name } if name == b"manifest"
    ));
    assert!(matches!(
        error("<manifest><remote></remote></manifest>"),
        ParseError::UnexpectedStart { context: Context::Manifest, name } if name == b"remote"
    ));
    assert!(matches!(
        error("<manifest><notice/></manifest>"),
        ParseError::UnexpectedEmpty { context: Context::Manifest, name } if name == b"notice"
    ));
    assert!(matches!(
        error("<manifest><project name=\"p\"><project name=\"q\"/></project></manifest>"),
        ParseError::UnexpectedEmpty { context: Context::Project, name } if name == b"project"
    ));
    assert!(matches!(
        error("<manifest><project name=\"p\"><a></a></project></manifest>"),
        ParseError::UnexpectedStart { context: Context::Project, .. }
    ));
    assert!(matches!(
        error("<manifest><notice><a/></notice></manifest>"),
        ParseError::UnexpectedEmpty { context: Context::Notice, .. }
    ));
    assert!(matches!(
        error("<manifest><notice><a></a></notice></manifest>"),
        ParseError::UnexpectedStart { context: Context::Notice, .. }
    ));
}

#[test]
fn refuses_text_and_other_events() {
    assert!(matches!(
        error("<manifest>words</manifest>"),
        ParseError::UnexpectedText { text } if text == b"words"
    ));
    assert!(matches!(
        error("<manifest><project name=\"p\">words</project></manifest>"),
        ParseError::UnexpectedEvent { context: Context::Project, .. }
    ));
    assert!(matches!(
        error("<manifest>"),
        ParseError::UnexpectedEvent { context: Context::Manifest, position: 10 }
    ));
    assert!(matches!(
        error("words<manifest></manifest>"),
        ParseError::UnexpectedEvent { context: Context::Document, .. }
    ));
    assert!(matches!(
        error("<manifest><notice>a<!-- b -->c</notice></manifest>"),
        ParseError::MultipleTexts
    ));
    assert!(matches!(
        error("<manifest><notice>&nothing;</notice></manifest>"),
        ParseError::BadNotice { .. }
    ));
}

#[test]
fn needs_exactly_one_manifest() {
    assert!(matches!(error("<!-- nothing -->"), ParseError::NoManifest));
    assert!(matches!(
        error("<manifest></manifest><manifest></manifest>"),
        ParseError::MultipleManifests
    ));
}

#[test]
fn refuses_bad_attributes() {
    let attribute = |text: &str| match error(text) {
        ParseError::Attribute { element, error } => (element, error),
        _ => panic!("refused for another reason"),
    };
    assert!(matches!(
        attribute("<manifest><remote name=\"r\"/></manifest>"),
        (Element::Remote, AttributeError::Missing("fetch"))
    ));
    assert!(matches!(
        attribute("<manifest><remote/></manifest>"),
        (Element::Remote, AttributeError::Missing("name"))
    ));
    assert!(matches!(
        attribute("<manifest><default sync-j=\"four\"/></manifest>"),
        (Element::Default, AttributeError::BadValue("sync-j"))
    ));
    assert!(matches!(
        attribute("<manifest><project name=\"p\" sync-c=\"yes\"/></manifest>"),
        (Element::Project, AttributeError::BadValue("sync-c"))
    ));
    assert!(matches!(
        attribute("<manifest><project name=\"p\" name=\"q\"/></manifest>"),
        (Element::Project, AttributeError::Malformed(_))
    ));
    assert!(matches!(
        attribute("<manifest><project name=\"&nothing;\"/></manifest>"),
        (Element::Project, AttributeError::BadText(_))
    ));
    assert!(matches!(
        attribute("<manifest><project name=\"p\"><annotation a=\"b\"/></project></manifest>"),
        (Element::Annotation, AttributeError::Unknown(key)) if key == b"a"
    ));
    assert!(matches!(
        attribute("<manifest><project name=\"p\"><linkfile src=\"a\"/></project></manifest>"),
        (Element::LinkFile, AttributeError::Missing("dest"))
    ));
    assert!(matches!(
        attribute("<manifest><include/></manifest>"),
        (Element::Include, AttributeError::Missing("name"))
    ));
}

#[test]
fn refuses_duplicates() {
    assert!(matches!(
        error("<manifest><project name=\"a/b\"/><project name=\"x\" path=\"a//b/\"/></manifest>"),
        ParseError::DuplicateProject { path } if path == "a//b/"
    ));
    assert!(matches!(
        error("<manifest><remote name=\"r\" fetch=\"f\"/><remote name=\"r\" fetch=\"g\"/></manifest>"),
        ParseError::DuplicateRemote { remote } if remote == "r"
    ));
    assert!(matches!(
        error("<manifest><default/><default sync-j=\"four\"/></manifest>"),
        ParseError::AlreadySet { slot: Slot::Default }
    ));
    assert!(matches!(
        error("<manifest><repo-hooks/><repo-hooks/></manifest>"),
        ParseError::AlreadySet { slot: Slot::RepoHooks }
    ));
}

#[test]
fn includes_come_in_place() {
    let root = "<manifest><include name=\"one.xml\"/><project name=\"b\"/></manifest>";
    assert!(matches!(parse(root).progress, Progress::NeedFile(name) if name == "one.xml"));
    let one = "<manifest><project name=\"a\"/><include name=\"two.xml\"/></manifest>";
    let two = "<manifest><project name=\"c\"/></manifest>";
    assert!(matches!(
        parse_with(root, &[one]).progress,
        Progress::NeedFile(name) if name == "two.xml"
    ));
    let all = parse_with(root, &[one, two]);
    assert!(matches!(all.progress, Progress::Done));
    assert_eq!(all.manifest.projects.len(), 3);
    let more = parse_with(root, &[one, two, "never read"]);
    assert!(matches!(more.progress, Progress::Done));
    assert!(matches!(
        parse_with(root, &["<manifest><project name=\"b\"/></manifest>"]).progress,
        Progress::Failed(ParseError::DuplicateProject { path }) if path == "b"
    ));
}

#[test]
fn included_files_lie_in_the_same_directory() {
    assert!(matches!(
        error("<manifest><include name=\"../other.xml\"/></manifest>"),
        ParseError::SlashInInclude { file } if file == "../other.xml"
    ));
}

fn step(event: Event) -> Step {
    Step { event, position: 0 }
}

fn tag(name: &str, attributes: &[(&str, &str)]) -> Tag {
    Tag {
        name: name.as_bytes().to_vec(),
        attributes: attributes
            .iter()
            .map(|(k, v)| TagAttribute::Pair {
                key: k.as_bytes().to_vec(),
                text: Ok(v.to_string()),
            })
            .collect(),
    }
}

#[test]
fn steps_are_read_one_after_another() {
    let steps = vec![
        step(Event::Start(tag("manifest", &[]))),
        step(Event::Empty(tag("remote", &[("name", "r"), ("fetch", "f")]))),
        step(Event::End),
        step(Event::Finish),
    ];
    let read = parse_steps(&steps);
    assert!(read.error.is_none());
    assert_eq!(read.items.len(), 1);
    assert!(matches!(&read.items[0], Item::Remote(r) if r.name == "r" && r.fetch == "f"));
    let mut builder = ManifestBuilder::begin(read);
    assert!(matches!(builder.advance(), Progress::Done));
    let (m, warnings) = builder.finish();
    assert_eq!(m.remotes.len(), 1);
    assert!(warnings.is_empty());
}

#[test]
fn repeated_fields_are_refused() {
    let steps = vec![
        step(Event::Start(tag("manifest", &[]))),
        step(Event::Empty(tag("contactinfo", &[("bugurl", "a"), ("bugurl", "b")]))),
    ];
    assert!(matches!(
        parse_steps(&steps).error,
        Some(ParseError::Attribute { element: Element::ContactInfo, error: AttributeError::Repeated("bugurl") })
    ));
    let cut: Vec<Step> = Vec::new();
    assert!(matches!(
        parse_steps(&cut).error,
        Some(ParseError::UnexpectedEvent { context: Context::Document, position: 0 })
    ));
}

#[test]
fn writes_a_document() {
    let m = manifest(FULL);
    let expected = "<manifest>
    <remote name=\"aosp\" fetch=\"..\" alias=\"a\" review=\"https://android-review.googlesource.com/\">
    </remote>
    <default revision=\"master\" remote=\"aosp\" sync-j=\"4\" sync-c=\"true\">
    </default>
    <manifest-server url=\"http://example.com/\">
    </manifest-server>
    <repo-hooks in-project=\"platform/tools/repohooks\" enabled-list=\"pre-upload\">
    </repo-hooks>
    <project name=\"art\" remote=\"other\" revision=\"r2\" dest-branch=\"d\" sync-c=\"false\" clone-depth=\"1\">
    </project>
    <project name=\"platform/build\" path=\"build/make\" groups=\"pdk,tradefed\">
        <copyfile src=\"core/root.mk\" dest=\"Makefile\">
        </copyfile>
        <linkfile src=\"CleanSpec.mk\" dest=\"build/CleanSpec.mk\">
        </linkfile>
    </project>
</manifest>";
    assert_eq!(m.serialize(), expected);
}

#[test]
fn an_empty_manifest_is_written_too() {
    assert_eq!(Manifest::new().serialize(), "<manifest>\n</manifest>");
}

#[test]
fn written_projects_read_back() {
    let m = manifest("<manifest><project name=\"p\" path=\"q\" groups=\"a,b\" sync-c=\"true\" clone-depth=\"12\"/></manifest>");
    let again = manifest(&m.serialize());
    let p = &again.projects.at(0).project;
    assert_eq!(p.name, "p");
    assert_eq!(p.path(), "q");
    assert_eq!(p.groups, Some(vec!["a".to_string(), "b".to_string()]));
    assert_eq!(p.sync_c, Some(true));
    assert_eq!(p.clone_depth, Some(12));
    assert_eq!(again.serialize(), m.serialize());
}

#[test]
fn what_is_not_written_does_not_read_back() {
    let mut m = manifest("<manifest><superproject name=\"s\" remote=\"r\"/></manifest>");
    let mut p = project("it's <p>");
    p.revision = Some("a\nb > c".to_string());
    p.annotations = vec![("k".to_string(), "v".to_string())];
    assert!(m.projects.insert("it's <p>".to_string(), p));
    let parsed = parse(&m.serialize());
    assert!(matches!(parsed.progress, Progress::Done));
    assert!(parsed.warnings.is_empty());
    let again = parsed.manifest;
    assert!(again.superproject.is_none());
    assert_eq!(again.projects.len(), 1);
    let read = &again.projects.at(0).project;
    assert_eq!(read.name, "it's <p>");
    assert_eq!(read.revision.as_deref(), Some("a\nb > c"));
    assert!(read.annotations.is_empty());
}

#[test]
fn all_that_is_said_is_held() {
    let parsed = parse_with(
        "<manifest><remote name=\"a\" fetch=\"x\"/><project name=\"p\"/>\
         <include name=\"one.xml\"/><project name=\"q\"/></manifest>",
        &[
            "<manifest><project name=\"r\"/><include name=\"two.xml\"/></manifest>",
            "<manifest><remote name=\"b\" fetch=\"y\"/><project name=\"p\" path=\"o\"/></manifest>",
            "<manifest><project name=\"unasked\"/></manifest>",
        ],
    );
    assert!(matches!(parsed.progress, Progress::Done));
    let m = parsed.manifest;
    let paths: Vec<&str> = (0..m.projects.len()).map(|i| m.projects.at(i).path.as_str()).collect();
    assert_eq!(paths, vec!["o", "p", "q", "r"]);
    let remotes: Vec<&str> = (0..m.remotes.len()).map(|i| m.remotes.at(i).name.as_str()).collect();
    assert_eq!(remotes, vec!["a", "b"]);
}

#[test]
fn a_project_without_path_is_at_its_name() {
    assert_eq!(project("a/b").path(), "a/b");
    let listed = flat::Project {
        name: "n".to_string(),
        path: Some("p".to_string()),
        remote: None,
        revision: None,
        groups: None,
        syncc: None,
        clone_depth: None,
        linkfiles: Vec::new(),
        copyfiles: Vec::new(),
    };
    assert_eq!(listed.path(), "p");
}

#[test]
fn lookups_fall_back() {
    let m = manifest(
        "<manifest><remote name=\"r\" fetch=\"f\" revision=\"from-remote\"/><default remote=\"r\"/><project name=\"p\"/></manifest>",
    );
    let p = &m.projects.at(0).project;
    assert_eq!(p.find_remote(&m).ok().unwrap(), "r");
    assert_eq!(p.find_revision(&m).ok().unwrap(), "from-remote");
    assert_eq!(p.find_dest_branch(&m).ok().unwrap(), "from-remote");
    let mut q = project("q");
    q.dest_branch = Some("d".to_string());
    assert_eq!(q.find_dest_branch(&m).ok().unwrap(), "d");
    q.revision = Some("own".to_string());
    assert_eq!(q.find_revision(&m).ok().unwrap(), "own");
}

#[test]
fn lookups_fail() {
    let empty = Manifest::new();
    let p = project("p");
    assert!(matches!(p.find_remote(&empty), Err(LookupError::NoRemote { project }) if project == "p"));
    assert!(matches!(p.find_revision(&empty), Err(LookupError::NoRemote { .. })));
    assert!(matches!(
        p.find_dest_branch(&empty),
        Err(LookupError::NoDestBranch { missing: Missing::Remote, .. })
    ));
    let m = manifest("<manifest><default remote=\"r\"/></manifest>");
    assert!(matches!(p.find_revision(&m), Err(LookupError::NoRevision { project }) if project == "p"));
    assert!(matches!(
        p.find_dest_branch(&m),
        Err(LookupError::NoDestBranch { missing: Missing::Revision, .. })
    ));
}

#[test]
fn extensions_add_groups_and_replace_the_rest() {
    let mut p = project("p");
    p.groups = Some(vec!["a".to_string()]);
    let mut change = ExtendProject {
        name: "p".to_string(),
        path: None,
        groups: Some(vec!["b".to_string()]),
        revision: Some("r".to_string()),
        remote: None,
    };
    let after = change.extend(&p);
    assert_eq!(after.groups, Some(vec!["a".to_string(), "b".to_string()]));
    assert_eq!(after.revision.as_deref(), Some("r"));
    assert_eq!(after.remote, None);
    assert_eq!(after.path(), "p");
    change.path = Some("elsewhere".to_string());
    assert_eq!(change.extend(&p).groups, Some(vec!["a".to_string()]));
    change.path = Some("p".to_string());
    assert_eq!(change.extend(&project("p")).groups, Some(vec!["b".to_string()]));
}

fn remote_config(name: &str, url: &str, other: Option<Vec<String>>) -> RemoteConfig {
    RemoteConfig {
        name: name.to_string(),
        url: url.to_string(),
        other_urls: other,
        manifest: None,
        depot: "d".to_string(),
        project_renames: Vec::new(),
        default_upload_options: Vec::new(),
    }
}

fn config(remotes: Vec<RemoteConfig>) -> Config {
    Config {
        update_check: true,
        autosubmit: false,
        presubmit: false,
        depots: Vec::new(),
        remotes,
        manifests: Vec::new(),
        parallelism: Vec::new(),
    }
}

fn tree_config() -> TreeConfig {
    TreeConfig {
        remote: "tree-remote".to_string(),
        branch: "b".to_string(),
        manifest: "m".to_string(),
        tags: Vec::new(),
        projects: Vec::new(),
        group_filters: None,
    }
}

#[test]
fn remotes_are_matched_by_url() {
    let m = manifest(
        "<manifest><remote name=\"up\" fetch=\"..\"/><remote name=\"direct\" fetch=\"https://a//\"/><remote name=\"lost\" fetch=\"https://c\"/></manifest>",
    );
    let c = config(vec![
        remote_config("one", "https://b", None),
        remote_config("two", "https://x", Some(vec!["https://a/".to_string()])),
    ]);
    let mut p = project("p");
    p.remote = Some("direct".to_string());
    let (name, remote) = m.resolve_project_remote(&c, &tree_config(), &p).ok().unwrap();
    assert_eq!(name, "two");
    assert_eq!(remote.name, "direct");
    p.remote = Some("up".to_string());
    let (name, _) = m.resolve_project_remote(&c, &tree_config(), &p).ok().unwrap();
    assert_eq!(name, "tree-remote");
    p.remote = Some("lost".to_string());
    assert!(matches!(
        m.resolve_project_remote(&c, &tree_config(), &p),
        Err(ResolveError::NotConfigured { url }) if url == "https://c"
    ));
    p.remote = Some("absent".to_string());
    assert!(matches!(
        m.resolve_project_remote(&c, &tree_config(), &p),
        Err(ResolveError::NotInManifest { remote }) if remote == "absent"
    ));
    p.remote = None;
    assert!(matches!(
        m.resolve_project_remote(&c, &tree_config(), &p),
        Err(ResolveError::NoRemote { project }) if project == "p"
    ));
    assert_eq!(canonicalize_url("https://a///"), "https://a");
}

#[test]
fn projects_are_found_however_their_path_is_spelt() {
    let mut m = manifest("<manifest><project name=\"b\"/><project name=\"a/b\"/><project name=\"a\"/></manifest>");
    assert_eq!(m.projects.at(0).path, "a");
    assert_eq!(m.projects.at(1).path, "a/b");
    assert_eq!(m.projects.at(2).path, "b");
    assert_eq!(m.projects.get("a/./b/").unwrap().name, "a/b");
    assert!(m.projects.get("a/c").is_none());
    assert!(!m.projects.insert("a//b".to_string(), project("x")));
    assert!(m.projects.insert("a/c".to_string(), project("x")));
    assert_eq!(m.projects.at(2).path, "a/c");
}

#[test]
fn written_remotes_are_refused() {
    let m = manifest("<manifest><remote name=\"r\" fetch=\"f\"/><project name=\"p\"/></manifest>");
    assert!(matches!(
        error(&m.serialize()),
        ParseError::UnexpectedStart { context: Context::Manifest, name } if name == b"remote"
    ));
}

#[test]
fn broken_documents_are_refused() {
    for text in ["", " ", "<", "<>", "</", "</>", "<!", "<!>", "<!--", "<!-->", "<?", "<?>", "<![CDATA[", "<a", "<a b=", "\u{feff}"] {
        assert!(matches!(parse(text).progress, Progress::Failed(_)));
    }
    assert!(matches!(error(""), ParseError::NoManifest));
    assert!(matches!(error("<manifest>&</manifest>"), ParseError::UnexpectedText { .. }));
    let not_text = Manifest::parse(&b"<manifest><project name=\"\xff\"/></manifest>".to_vec(), &Vec::new());
    assert!(matches!(
        not_text.progress,
        Progress::Failed(ParseError::Attribute { error: AttributeError::BadText(_), .. })
    ));
}

#[test]
fn what_is_read_is_what_was_said() {
    let m = manifest(FULL);
    assert_eq!(m.remotes.get("aosp").unwrap().revision.as_deref(), Some("r1"));
    assert!(m.remotes.get("other").is_none());
    assert_eq!(m.projects.get("build/make").unwrap().file_operations.len(), 2);
    assert!(m.projects.get("build/make").unwrap().annotations.is_empty());
}

#[test]
fn what_was_given_stays() {
    let parsed = parse_with(
        "<manifest><default revision=\"one\"/><project name=\"p\"/><include name=\"more.xml\"/></manifest>",
        &["<manifest><project name=\"q\"/><default revision=\"two\"/></manifest>"],
    );
    assert!(matches!(
        parsed.progress,
        Progress::Failed(ParseError::AlreadySet { slot: Slot::Default })
    ));
    let m = parsed.manifest;
    assert_eq!(m.default.unwrap().revision.as_deref(), Some("one"));
    assert_eq!(m.projects.at(0).path, "p");
    assert_eq!(m.projects.at(1).path, "q");
}
