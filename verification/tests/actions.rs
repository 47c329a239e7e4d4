use pore::manifest::Manifest;
use pore::style::{plain, Style};
use pore::tree::command::{exit_code, heading, indent_output, CommandResult};
use pore::tree::generate::ProjectCommit;
use pore::tree::preupload::{
    find_hook_project, hook_command, merge_output, preupload_report, HookError, HookProject,
};
use pore::tree::project_upload::{ProjectUpload, UploadAction, UploadEvent, UploadRequest};
use pore::tree::prune::{prune_code, prune_plan, prune_report, BranchInfo, Pruned};
use pore::tree::rebase::{rebase_code, RebaseError};
use pore::tree::select::{ProjectInfo, Reach};
use pore::tree::start::StartError;
use pore::tree::upload::{
    check_hooks, check_upload, confirm, find_upstream, make_push_command, read_line,
    summarize_upload, upload_target, CommitInfo, UploadError, UploadOptions,
};
use pore::tree::{Tree, TreeConfig};

fn tree() -> Tree {
    Tree {
        path: "/t".to_string(),
        config: TreeConfig {
            remote: "aosp".to_string(),
            branch: "master".to_string(),
            manifest: "platform/manifest".to_string(),
            tags: Vec::new(),
            projects: Vec::new(),
            group_filters: None,
        },
    }
}

fn manifest(text: &str) -> Manifest {
    Manifest::parse(&text.as_bytes().to_vec(), &Vec::new()).manifest
}

fn strings(values: &[&str]) -> Vec<String> {
    values.iter().map(|v| v.to_string()).collect()
}

fn info(path: &str) -> ProjectInfo {
    ProjectInfo {
        project_path: path.to_string(),
        project_name: "n".to_string(),
        revision: "r".to_string(),
        file_ops: Vec::new(),
    }
}

const PROJECTS: &str = "<manifest><default revision=\"d\" remote=\"o\"/>
    <project name=\"n1\" path=\"a\"/><project name=\"n2\" path=\"b/c\" revision=\"r\" remote=\"p\"/></manifest>";

#[test]
fn branches_are_started() {
    let m = manifest(PROJECTS);
    let plan = tree().start(&m, "aosp", "mine", None, "/t/b/c/.git/").ok().unwrap();
    assert_eq!(plan.revisions, vec!["aosp/r", "r"]);
    assert_eq!(plan.upstream, "aosp/r");
    assert_eq!(plan.head, "refs/heads/mine");
    let plan = tree().start(&m, "aosp", "mine", None, "/t/a/.git").ok().unwrap();
    assert_eq!(plan.upstream, "aosp/d");
    assert!(matches!(
        tree().start(&m, "aosp", "mine", None, "/t/x/.git"),
        Err(StartError::NoProject { path }) if path == "x"
    ));
    assert!(matches!(
        tree().start(&m, "aosp", "mine", None, "/t/x"),
        Err(StartError::UnexpectedPath { path }) if path == "x"
    ));
    assert!(matches!(
        tree().start(&m, "aosp", "mine", None, "relative/.git"),
        Err(StartError::NoDifference)
    ));
    let at = tree().start_at(&m, "aosp", "mine", None, "a/.git").ok().unwrap();
    assert_eq!(at.upstream, "aosp/d");
}

fn options<'a>(reviewers: &'a Vec<String>, ccs: &'a Vec<String>) -> UploadOptions<'a> {
    UploadOptions {
        ccs,
        reviewers,
        topic: None,
        message: None,
        autosubmit: false,
        presubmit_ready: false,
        private: false,
        wip: false,
    }
}

#[test]
fn changes_are_pushed() {
    let reviewers = strings(&["a@x", "b@x"]);
    let ccs = strings(&["c@x"]);
    let mut all = options(&reviewers, &ccs);
    all.topic = Some("t".to_string());
    all.message = Some("better".to_string());
    all.autosubmit = true;
    all.presubmit_ready = true;
    all.private = true;
    all.wip = true;
    let command = make_push_command("/t/p".to_string(), "o", "main", &all);
    assert_eq!(command.directory, "/t/p");
    assert_eq!(
        command.arguments,
        vec![
            "push", "-o", "r=a@x", "-o", "r=b@x", "-o", "cc=c@x", "-o", "wip", "-o", "private", "-o",
            "l=Autosubmit", "-o", "l=Presubmit-Ready", "-o", "topic=t", "-o", "m=better", "o",
            "HEAD:refs/for/main",
        ]
    );
    let none = Vec::new();
    let plain = make_push_command("p".to_string(), "o", "main", &options(&none, &none));
    assert_eq!(plain.arguments, vec!["push", "o", "HEAD:refs/for/main"]);
}

#[test]
fn uploads_are_checked() {
    assert!(check_upload(Some(1), true).is_ok());
    assert!(matches!(check_upload(None, true), Err(UploadError::MultipleProjects)));
    assert!(matches!(check_upload(Some(2), true), Err(UploadError::MultipleProjects)));
    assert!(matches!(check_upload(Some(1), false), Err(UploadError::Interactive)));
    assert!(check_hooks(0).is_ok());
    assert!(matches!(check_hooks(1), Err(UploadError::HooksFailed)));
    assert!(confirm("y").is_ok());
    assert!(confirm("Y").is_ok());
    assert!(matches!(confirm("yes"), Err(UploadError::Aborted)));
    assert!(matches!(confirm(""), Err(UploadError::Aborted)));
    assert_eq!(read_line("y\n"), "y");
    assert_eq!(read_line("y\n\n"), "y\n");
    assert_eq!(read_line("y"), "y");
}

#[test]
fn upstreams_are_found() {
    let m = manifest(PROJECTS);
    let up = find_upstream(&m, "a").ok().unwrap();
    assert_eq!(up.remote, "o");
    assert_eq!(up.branch, "d");
    let up = upload_target(&m, "b/c", false).ok().unwrap();
    assert_eq!(up.remote, "p");
    assert_eq!(up.branch, "r");
    assert!(matches!(upload_target(&m, "a", true), Err(UploadError::Detached)));
    assert!(matches!(find_upstream(&m, "x"), Err(UploadError::NoProject { path }) if path == "x"));
    let bare = manifest("<manifest><project name=\"n\"/><project name=\"m\" remote=\"o\"/></manifest>");
    assert!(matches!(find_upstream(&bare, "n"), Err(UploadError::NoRemote { .. })));
    assert!(matches!(find_upstream(&bare, "m"), Err(UploadError::NoBranch { .. })));
}

fn commit(id: &str, summary: Option<&str>) -> CommitInfo {
    CommitInfo { id: id.to_string(), summary: summary.map(|s| s.to_string()) }
}

#[test]
fn uploads_are_summarized() {
    let one = vec![commit("0123456789abcdef", Some("Fix it"))];
    let lines = summarize_upload("proj", "mine", "aosp", "main", 1, &one, false).ok().unwrap();
    let texts: Vec<String> = lines.iter().map(|l| plain(l)).collect();
    assert_eq!(
        texts,
        vec![
            "Upload 1 commit from branch mine of project proj",
            "  0123456789 Fix it",
            "to aosp/main [y/N]? ",
        ]
    );
    assert!(lines[2].iter().any(|f| f.text == "aosp" && matches!(f.style, Style::BoldGreen)));
    let two = vec![commit("a", Some("x")), commit("b", Some("y"))];
    let lines = summarize_upload("proj", "mine", "other", "main", 2, &two, true).ok().unwrap();
    assert_eq!(plain(&lines[0]), "Upload 2 commits from branch mine of project proj");
    assert_eq!(plain(&lines[3]), "to other/main (autosubmit enabled) [y/N]? ");
    assert!(lines[3].iter().any(|f| f.text == "other" && matches!(f.style, Style::BoldRed)));
    assert!(matches!(
        summarize_upload("proj", "mine", "o", "main", 0, &Vec::new(), false),
        Err(UploadError::NoCommits)
    ));
    assert!(matches!(
        summarize_upload("proj", "mine", "o", "main", 1, &vec![commit("abc", None)], false),
        Err(UploadError::BadSummary { commit }) if commit == "abc"
    ));
}

fn branch(name: &str, is_head: bool, merged: bool) -> BranchInfo {
    BranchInfo { name: name.to_string(), is_head, commit: format!("commit of {}", name), merged }
}

#[test]
fn merged_branches_are_pruned() {
    let plan = prune_plan(&vec![
        branch("a", false, true),
        branch("b", false, false),
        branch("c", true, true),
    ]);
    assert_eq!(plan.detach.as_deref(), Some("commit of c"));
    assert_eq!(plan.prunable, vec!["a", "c"]);
    let plan = prune_plan(&vec![branch("a", true, false), branch("b", false, true)]);
    assert_eq!(plan.detach, None);
    assert_eq!(plan.prunable, vec!["b"]);
    let report = prune_report(&vec![
        Pruned { name: "p".to_string(), branches: strings(&["a", "b"]) },
        Pruned { name: "q".to_string(), branches: Vec::new() },
    ]);
    let texts: Vec<String> = report.iter().map(|l| plain(l)).collect();
    assert_eq!(texts, vec!["p", "  a", "  b"]);
    assert_eq!(prune_code(0), 0);
    assert_eq!(prune_code(2), 1);
}

#[test]
fn rebasing() {
    let m = manifest(PROJECTS);
    let one = vec![info("b/c")];
    let commands = tree().rebase(&m, true, true, &one).ok().unwrap();
    assert_eq!(commands.len(), 1);
    assert_eq!(commands[0].directory, "/t/b/c");
    assert_eq!(commands[0].arguments, vec!["rebase", "--interactive", "--autosquash", "p/r"]);
    let commands = tree().rebase(&m, true, false, &one).ok().unwrap();
    assert_eq!(commands[0].arguments, vec!["rebase", "--interactive", "p/r"]);
    let two = tree().select_projects(&m, &Vec::new(), Reach::Beneath);
    assert!(matches!(tree().rebase(&m, true, false, &two), Err(RebaseError::MultipleProjects)));
    assert!(matches!(
        tree().rebase(&m, false, true, &one),
        Err(RebaseError::AutosquashNeedsInteractive)
    ));
    let commands = tree().rebase(&m, false, false, &two).ok().unwrap();
    assert_eq!(commands.len(), 2);
    assert_eq!(commands[0].directory, "/t/a");
    assert_eq!(commands[0].arguments, vec!["rebase", "o/d"]);
    assert_eq!(commands[1].directory, "/t/b/c");
    assert_eq!(commands[1].arguments, vec!["rebase", "p/r"]);
    assert!(matches!(
        tree().rebase(&m, false, false, &vec![info("a"), info("x"), info("y")]),
        Err(RebaseError::NoUpstream(UploadError::NoProject { path })) if path == "x"
    ));
    assert_eq!(rebase_code(false, &vec![result("a", 0, ""), result("b", 3, "")], 0), 3);
    assert_eq!(rebase_code(false, &vec![result("a", 0, "")], 1), 1);
    assert_eq!(rebase_code(false, &vec![result("a", 0, "")], 0), 0);
    assert_eq!(rebase_code(true, &vec![result("a", 3, "")], 0), 0);
    assert!(matches!(
        tree().rebase(&m, true, false, &vec![info("x")]),
        Err(RebaseError::NoUpstream(UploadError::NoProject { path })) if path == "x"
    ));
}

fn result(name: &str, rc: i32, output: &str) -> CommandResult {
    CommandResult { name: name.to_string(), rc, output: output.as_bytes().to_vec() }
}

#[test]
fn commands_run_everywhere() {
    let command = tree().forall_command(&info("a/b")).ok().unwrap();
    assert_eq!(command.directory, "/t/a/b");
    let variables: Vec<(&str, &str)> = command.variables.iter().map(|v| (v.name, v.value.as_str())).collect();
    assert_eq!(
        variables,
        vec![
            ("PORE_ROOT", "/t"),
            ("PORE_ROOT_REL", "../.."),
            ("REPO_PROJECT", "n"),
            ("REPO_PATH", "a/b"),
        ]
    );
    let given = tree().command_in(&info("a"), "up".to_string());
    assert_eq!(given.variables[1].value, "up");
}

#[test]
fn relative_trees_have_no_way_up_from_absolute_projects() {
    let mut t = tree();
    t.path = "t".to_string();
    assert!(matches!(
        t.forall_command(&info("/a")),
        Err(e) if e.from == "/a" && e.to == "t"
    ));
}

#[test]
fn exit_codes() {
    assert_eq!(exit_code(&vec![result("a", 0, "")], 0), 0);
    assert_eq!(exit_code(&vec![result("a", 2, ""), result("b", 3, ""), result("c", 0, "")], 0), 3);
    assert_eq!(exit_code(&vec![result("a", 2, "")], 1), 1);
    assert_eq!(plain(&heading("p", 0)), "p");
    assert!(matches!(heading("p", 0)[0].style, Style::Bold));
    assert_eq!(plain(&heading("p", 2)), "p (rc = 2)");
    assert!(matches!(heading("p", -2)[0].style, Style::BoldRed));
    assert_eq!(indent_output(&b"a\nb\n".to_vec()), b"  a\n  b\n  \n".to_vec());
    assert_eq!(indent_output(&Vec::new()), b"  \n".to_vec());
}

#[test]
fn hook_projects_are_found() {
    let m = manifest(
        "<manifest><repo-hooks in-project=\"h\"/><project name=\"h\" path=\"tools/hooks\"/></manifest>",
    );
    assert!(matches!(find_hook_project(&m), HookProject::Named(name) if name == "h"));
    assert_eq!(tree().hook_path(&m, "h").ok().unwrap(), "/t/tools/hooks/pre-upload.py");
    assert!(matches!(
        tree().hook_path(&m, "x"),
        Err(HookError::NoProject { project }) if project == "x"
    ));
    let pathless = manifest("<manifest><repo-hooks/><project name=\"h\"/></manifest>");
    assert!(matches!(
        tree().hook_path(&pathless, "h"),
        Err(HookError::NoPath { project }) if project == "h"
    ));
    assert!(matches!(find_hook_project(&pathless), HookProject::Nowhere));
    assert!(matches!(find_hook_project(&Manifest::new()), HookProject::Unconfigured));
}

#[test]
fn hooks_run_on_new_commits() {
    assert_eq!(
        hook_command("/t/p", true, &strings(&["a", "b"])),
        Some(strings(&["--project", "/t/p", "a", "b"]))
    );
    assert_eq!(hook_command("/t/p", true, &Vec::new()), None);
    assert_eq!(hook_command("/t/p", false, &strings(&["a"])), None);
    assert_eq!(merge_output(b"a".to_vec(), b"b".to_vec()), b"a\nb".to_vec());
    assert_eq!(merge_output(Vec::new(), b"b".to_vec()), b"b".to_vec());
    assert_eq!(merge_output(b"a".to_vec(), Vec::new()), b"a".to_vec());
}

#[test]
fn hooks_are_reported() {
    let blocks = preupload_report(&vec![
        result("silent", 0, ""),
        result("chatty", 0, "out"),
        result("bad", 3, ""),
    ]);
    assert_eq!(blocks.len(), 2);
    assert_eq!(plain(&blocks[0].heading), "chatty:");
    assert!(matches!(blocks[0].heading[0].style, Style::BoldGreen));
    assert_eq!(blocks[0].output, b"out".to_vec());
    assert_eq!(plain(&blocks[1].heading), "bad (rc = 3):");
    assert!(matches!(blocks[1].heading[0].style, Style::BoldRed));
}

fn at(path: &str, commit: &str) -> ProjectCommit {
    ProjectCommit { path: path.to_string(), commit: commit.to_string() }
}

#[test]
fn revisions_are_set() {
    let mut m = manifest(PROJECTS);
    assert!(m.set_revisions(&vec![at("b//c", "abc"), at("a", "def")]).is_ok());
    assert_eq!(m.projects.at(0).project.revision.as_deref(), Some("def"));
    assert_eq!(m.projects.at(1).project.revision.as_deref(), Some("abc"));
    assert_eq!(m.projects.at(1).project.remote.as_deref(), Some("p"));
    assert!(matches!(
        m.set_revisions(&vec![at("a", "new"), at("x", "abc"), at("y", "abc")]),
        Err(e) if e.path == "x"
    ));
    assert_eq!(m.projects.at(0).project.revision.as_deref(), Some("def"));
}

#[test]
fn projects_of_one_name_have_their_own_commits() {
    let mut m = manifest(
        "<manifest><project name=\"n\" path=\"a\"/><project name=\"n\" path=\"b\" revision=\"old\"/></manifest>",
    );
    assert!(m.set_revisions(&vec![at("a", "one"), at("b", "two")]).is_ok());
    assert_eq!(m.projects.at(0).project.revision.as_deref(), Some("one"));
    assert_eq!(m.projects.at(1).project.revision.as_deref(), Some("two"));
}

#[test]
fn manifests_are_generated() {
    let commits = vec![at("a", "one"), at("b/c", "two")];
    let generated = Tree::generate_manifest(manifest(PROJECTS), &commits, 0).ok().unwrap();
    assert_eq!(generated.code, 0);
    let text = generated.document.unwrap();
    assert!(text.contains("revision=\"one\""));
    assert!(text.contains("revision=\"two\""));
    let generated = Tree::generate_manifest(manifest(PROJECTS), &commits, 1).ok().unwrap();
    assert_eq!(generated.code, 1);
    assert!(generated.document.is_none());
    let stray = Tree::generate_manifest(manifest(PROJECTS), &vec![at("x", "one")], 0);
    assert!(matches!(stray, Err(e) if e.path == "x"));
}

fn request(branch_name_as_topic: bool) -> UploadRequest {
    UploadRequest {
        reviewers: strings(&["a@x"]),
        ccs: Vec::new(),
        private: false,
        wip: true,
        branch_name_as_topic,
        autosubmit: false,
        presubmit_ready: false,
        message: None,
        dry_run: false,
    }
}

fn commits(list: Vec<CommitInfo>) -> UploadEvent {
    UploadEvent::Commits { branch: "mine".to_string(), ahead: 1, commits: list }
}

#[test]
fn dry_runs_push_nothing() {
    let m = manifest(PROJECTS);
    let project = info("a");
    let mut dry = request(false);
    dry.dry_run = true;
    dry.message = Some("v2".to_string());
    let (mut upload, _) = ProjectUpload::begin();
    upload.next(&m, &project, "/t/a", &dry, UploadEvent::Head { detached: false });
    upload.next(&m, &project, "/t/a", &dry, commits(vec![commit("abc", Some("Fix"))]));
    let action = upload.next(&m, &project, "/t/a", &dry, UploadEvent::Answer("y\n".to_string()));
    assert!(matches!(
        action,
        UploadAction::Show(line) if line == "git push -o r=a@x -o wip -o m=v2 o HEAD:refs/for/d"
    ));
    let action = upload.next(&m, &project, "/t/a", &dry, UploadEvent::Done);
    assert!(matches!(action, UploadAction::Finish));
}

#[test]
fn nothing_is_pushed_without_a_yes() {
    let m = manifest(PROJECTS);
    let project = info("b/c");
    let yes = request(true);
    let (mut upload, action) = ProjectUpload::begin();
    assert!(matches!(action, UploadAction::ReadHead));
    let action = upload.next(&m, &project, "/t/b/c", &yes, UploadEvent::Head { detached: false });
    assert!(matches!(action, UploadAction::Compare { remote, branch } if remote == "p" && branch == "r"));
    let action = upload.next(&m, &project, "/t/b/c", &yes, commits(vec![commit("abc", Some("Fix"))]));
    match action {
        UploadAction::Ask(lines) => {
            assert_eq!(plain(&lines[0]), "Upload 1 commit from branch mine of project n");
            assert_eq!(plain(&lines[2]), "to p/r [y/N]? ");
        }
        _ => panic!("not asked"),
    }
    let action = upload.next(&m, &project, "/t/b/c", &yes, UploadEvent::Answer("y\n".to_string()));
    assert!(matches!(action, UploadAction::ReadBranch));
    let action = upload.next(&m, &project, "/t/b/c", &yes, UploadEvent::Branch("mine".to_string()));
    match action {
        UploadAction::Push(command) => {
            assert_eq!(command.directory, "/t/b/c");
            assert_eq!(
                command.arguments,
                vec!["push", "-o", "r=a@x", "-o", "wip", "-o", "topic=mine", "p", "HEAD:refs/for/r"]
            );
        }
        _ => panic!("not pushed"),
    }
    let action = upload.next(&m, &project, "/t/b/c", &yes, UploadEvent::Done);
    assert!(matches!(action, UploadAction::Finish));
}

#[test]
fn uploads_are_given_up() {
    let m = manifest(PROJECTS);
    let project = info("a");
    let plain_request = request(false);
    let (mut upload, _) = ProjectUpload::begin();
    assert!(matches!(
        upload.next(&m, &project, "/t/a", &plain_request, UploadEvent::Head { detached: true }),
        UploadAction::Fail(UploadError::Detached)
    ));
    let (mut upload, _) = ProjectUpload::begin();
    assert!(matches!(
        upload.next(&m, &project, "/t/a", &plain_request, UploadEvent::Done),
        UploadAction::Fail(UploadError::Unexpected)
    ));
    let (mut upload, _) = ProjectUpload::begin();
    upload.next(&m, &project, "/t/a", &plain_request, UploadEvent::Head { detached: false });
    assert!(matches!(
        upload.next(&m, &project, "/t/a", &plain_request, commits(Vec::new())),
        UploadAction::Fail(UploadError::NoCommits)
    ));
    let (mut upload, _) = ProjectUpload::begin();
    upload.next(&m, &project, "/t/a", &plain_request, UploadEvent::Head { detached: false });
    upload.next(&m, &project, "/t/a", &plain_request, commits(vec![commit("abc", Some("Fix"))]));
    assert!(matches!(
        upload.next(&m, &project, "/t/a", &plain_request, UploadEvent::Answer("n\n".to_string())),
        UploadAction::Fail(UploadError::Aborted)
    ));
}
