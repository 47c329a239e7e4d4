//! Uploading the commits of a project for review.
use vstd::prelude::*;

use crate::depot::add_argument;
use crate::lists::lemma_find_from;
use crate::manifest::collections::entry_at;
use crate::manifest::lookup::{named_revision, project_remote};
use crate::manifest::{Manifest, ManifestView, Project, ProjectView};
use crate::path::components;
use crate::style::{add_line, fragment, piece, plain_text, Fragment, FragmentView, Style};
use crate::text::{concat2, concat3, decimal, decimal_of, same_text};

verus! {

/// What a change is uploaded with.
pub struct UploadOptions<'a> {
    pub ccs: &'a Vec<String>,
    pub reviewers: &'a Vec<String>,
    pub topic: Option<String>,
    pub message: Option<String>,
    pub autosubmit: bool,
    pub presubmit_ready: bool,
    pub private: bool,
    pub wip: bool,
}

/// A run of `git`: where, and with which arguments.
pub struct GitCommand {
    pub directory: String,
    pub arguments: Vec<String>,
}

/// A push option for each of the values.
pub open spec fn each_option(prefix: Seq<char>, values: Seq<Seq<char>>) -> Seq<Seq<char>>
    decreases values.len(),
{
    if values.len() == 0 {
        Seq::empty()
    } else {
        each_option(prefix, values.drop_last()) + seq!["-o"@, prefix + values.last()]
    }
}

/// A push option, where it is asked for.
pub open spec fn flag_option(wanted: bool, name: Seq<char>) -> Seq<Seq<char>> {
    if wanted {
        seq!["-o"@, name]
    } else {
        Seq::empty()
    }
}

/// The push option for a value, where there is one.
pub open spec fn value_option(prefix: Seq<char>, value: Option<Seq<char>>) -> Seq<Seq<char>> {
    match value {
        Some(value) => seq!["-o"@, prefix + value],
        None => Seq::empty(),
    }
}

/// What a change is uploaded with, as a value.
#[verifier::ext_equal]
pub struct UploadOptionsView {
    pub ccs: Seq<Seq<char>>,
    pub reviewers: Seq<Seq<char>>,
    pub topic: Option<Seq<char>>,
    pub message: Option<Seq<char>>,
    pub autosubmit: bool,
    pub presubmit_ready: bool,
    pub private: bool,
    pub wip: bool,
}

impl<'a> View for UploadOptions<'a> {
    type V = UploadOptionsView;

    open spec fn view(&self) -> UploadOptionsView {
        UploadOptionsView {
            ccs: self.ccs.deep_view(),
            reviewers: self.reviewers.deep_view(),
            topic: self.topic.deep_view(),
            message: self.message.deep_view(),
            autosubmit: self.autosubmit,
            presubmit_ready: self.presubmit_ready,
            private: self.private,
            wip: self.wip,
        }
    }
}

/// The arguments with which `git` pushes a change for review.
pub open spec fn push_arguments(
    remote: Seq<char>,
    branch: Seq<char>,
    options: UploadOptionsView,
) -> Seq<Seq<char>> {
    seq!["push"@] + each_option("r="@, options.reviewers) + each_option("cc="@, options.ccs)
        + flag_option(options.wip, "wip"@) + flag_option(options.private, "private"@)
        + flag_option(options.autosubmit, "l=Autosubmit"@) + flag_option(
        options.presubmit_ready,
        "l=Presubmit-Ready"@,
    ) + value_option("topic="@, options.topic) + value_option("m="@, options.message) + seq![remote, "HEAD:refs/for/"@ + branch]
}

/// Adds a push option for each of the values.
fn add_each(arguments: &mut Vec<String>, prefix: &str, values: &Vec<String>)
    ensures
        final(arguments).deep_view() == old(arguments).deep_view() + each_option(
            prefix@,
            values.deep_view(),
        ),
{
    let ghost before = arguments.deep_view();
    let ghost all = values.deep_view();
    let mut i: usize = 0;
    assert(before + each_option(prefix@, all.take(0)) =~= before);
    while i < values.len()
        invariant
            i <= values.len(),
            all == values.deep_view(),
            arguments.deep_view() == before + each_option(prefix@, all.take(i as int)),
        decreases values.len() - i,
    {
        assert(all[i as int] == values@[i as int]@);
        assert(all.take(i + 1).drop_last() =~= all.take(i as int));
        add_argument(arguments, "-o".to_owned());
        add_argument(arguments, concat2(prefix, values[i].as_str()));
        assert(arguments.deep_view() =~= before + each_option(prefix@, all.take(i + 1)));
        i += 1;
    }
    assert(all.take(all.len() as int) =~= all);
}

/// Adds a push option, where it is asked for.
fn add_flag(arguments: &mut Vec<String>, wanted: bool, name: &str)
    ensures
        final(arguments).deep_view() == old(arguments).deep_view() + flag_option(wanted, name@),
{
    let ghost before = arguments.deep_view();
    if wanted {
        add_argument(arguments, "-o".to_owned());
        add_argument(arguments, name.to_owned());
    }
    assert(arguments.deep_view() =~= before + flag_option(wanted, name@));
}

/// Adds a push option for a value, where there is one.
fn add_value(arguments: &mut Vec<String>, prefix: &str, value: &Option<String>)
    ensures
        final(arguments).deep_view() == old(arguments).deep_view() + value_option(
            prefix@,
            value.deep_view(),
        ),
{
    let ghost before = arguments.deep_view();
    match value {
        Some(text) => {
            add_argument(arguments, "-o".to_owned());
            add_argument(arguments, concat2(prefix, text.as_str()));
        },
        None => {},
    }
    assert(arguments.deep_view() =~= before + value_option(prefix@, value.deep_view()));
}

/// The command that pushes a change for review.
pub fn make_push_command(
    project_path: String,
    remote: &str,
    dest_branch_name: &str,
    options: &UploadOptions,
) -> (r: GitCommand)
    ensures
        r.directory@ == project_path@,
        r.arguments.deep_view() == push_arguments(remote@, dest_branch_name@, options@),
{
    let mut arguments: Vec<String> = Vec::new();
    arguments.push("push".to_owned());
    assert(arguments.deep_view() =~= seq!["push"@]);
    add_each(&mut arguments, "r=", options.reviewers);
    add_each(&mut arguments, "cc=", options.ccs);
    add_flag(&mut arguments, options.wip, "wip");
    add_flag(&mut arguments, options.private, "private");
    add_flag(&mut arguments, options.autosubmit, "l=Autosubmit");
    add_flag(&mut arguments, options.presubmit_ready, "l=Presubmit-Ready");
    add_value(&mut arguments, "topic=", &options.topic);
    add_value(&mut arguments, "m=", &options.message);
    add_argument(&mut arguments, remote.to_owned());
    add_argument(&mut arguments, concat2("HEAD:refs/for/", dest_branch_name));
    assert(arguments.deep_view() =~= push_arguments(remote@, dest_branch_name@, options@));
    GitCommand { directory: project_path, arguments }
}

/// Everyone who is asked to look at a change gets an option of their own.
pub proof fn law_reviewers_are_asked(
    remote: Seq<char>,
    branch: Seq<char>,
    options: UploadOptionsView,
    i: int,
)
    requires
        0 <= i < options.reviewers.len(),
    ensures
        ({
            let arguments = push_arguments(remote, branch, options);
            &&& 2 + 2 * i < arguments.len()
            &&& arguments[1 + 2 * i] == "-o"@
            &&& arguments[2 + 2 * i] == "r="@ + options.reviewers[i]
        }),
{
    lemma_each_option("r="@, options.reviewers, i);
}

proof fn lemma_each_option(prefix: Seq<char>, values: Seq<Seq<char>>, i: int)
    requires
        0 <= i < values.len(),
    ensures
        each_option(prefix, values).len() == 2 * values.len(),
        each_option(prefix, values)[2 * i] == "-o"@,
        each_option(prefix, values)[2 * i + 1] == prefix + values[i],
    decreases values.len(),
{
    let front = values.drop_last();
    if front.len() > 0 {
        lemma_each_option(prefix, front, if i < front.len() {
            i
        } else {
            0
        });
    } else {
        assert(each_option(prefix, front) =~= Seq::empty());
    }
    if i < front.len() {
        assert(front[i] == values[i]);
    }
}

/// Why nothing is uploaded.
pub enum UploadError {
    /// Not exactly one path was given.
    MultipleProjects,
    /// The current branch was not asked for.
    Interactive,
    /// `HEAD` is on no branch.
    Detached,
    /// No project of the manifest is at the path.
    NoProject { path: String },
    /// Neither the project nor the default names a remote.
    NoRemote { project: String },
    /// Neither the project nor the default names a revision.
    NoBranch { project: String },
    /// The message of the commit is no text.
    BadSummary { commit: String },
    /// There is nothing to upload.
    NoCommits,
    /// The hooks that come before an upload have failed.
    HooksFailed,
    /// The question was not answered with yes.
    Aborted,
    /// Something happened that does not follow from what was to be done.
    Unexpected,
}

/// Why nothing is uploaded, as a value.
pub enum UploadErrorView {
    MultipleProjects,
    Interactive,
    Detached,
    NoProject { path: Seq<char> },
    NoRemote { project: Seq<char> },
    NoBranch { project: Seq<char> },
    BadSummary { commit: Seq<char> },
    NoCommits,
    HooksFailed,
    Aborted,
    Unexpected,
}

impl View for UploadError {
    type V = UploadErrorView;

    open spec fn view(&self) -> UploadErrorView {
        match self {
            UploadError::MultipleProjects => UploadErrorView::MultipleProjects,
            UploadError::Interactive => UploadErrorView::Interactive,
            UploadError::Detached => UploadErrorView::Detached,
            UploadError::NoProject { path } => UploadErrorView::NoProject { path: path@ },
            UploadError::NoRemote { project } => UploadErrorView::NoRemote { project: project@ },
            UploadError::NoBranch { project } => UploadErrorView::NoBranch { project: project@ },
            UploadError::BadSummary { commit } => UploadErrorView::BadSummary { commit: commit@ },
            UploadError::NoCommits => UploadErrorView::NoCommits,
            UploadError::HooksFailed => UploadErrorView::HooksFailed,
            UploadError::Aborted => UploadErrorView::Aborted,
            UploadError::Unexpected => UploadErrorView::Unexpected,
        }
    }
}

/// Accepts an upload only for exactly one path and the current branch.
pub fn check_upload(paths: Option<usize>, current_branch: bool) -> (r: Result<(), UploadError>)
    ensures
        if paths != Some(1usize) {
            r is Err && r->Err_0@ == UploadErrorView::MultipleProjects
        } else if !current_branch {
            r is Err && r->Err_0@ == UploadErrorView::Interactive
        } else {
            r is Ok
        },
{
    match paths {
        Some(n) => {
            if n != 1 {
                return Err(UploadError::MultipleProjects);
            }
        },
        None => {
            return Err(UploadError::MultipleProjects);
        },
    }
    if !current_branch {
        return Err(UploadError::Interactive);
    }
    Ok(())
}

/// A branch of a remote.
pub struct RemoteBranch {
    pub remote: String,
    pub branch: String,
}

/// The branch of the remote that the project at a path belongs to.
pub open spec fn upstream_of(manifest: ManifestView, path: Seq<char>) -> Result<
    (Seq<char>, Seq<char>),
    UploadErrorView,
> {
    match entry_at(manifest.projects, path) {
        None => Err(UploadErrorView::NoProject { path }),
        Some(entry) => match project_remote(entry.1, manifest) {
            None => Err(UploadErrorView::NoRemote { project: entry.1.name }),
            Some(remote) => match named_revision(entry.1, manifest) {
                None => Err(UploadErrorView::NoBranch { project: entry.1.name }),
                Some(branch) => Ok((remote, branch)),
            },
        },
    }
}

/// The branch of the remote that the project at a path belongs to.
pub fn find_upstream(manifest: &Manifest, path: &str) -> (r: Result<RemoteBranch, UploadError>)
    ensures
        match upstream_of(manifest@, path@) {
            Ok((remote, branch)) => r is Ok && r->Ok_0.remote@ == remote && r->Ok_0.branch@
                == branch,
            Err(e) => r is Err && r->Err_0@ == e,
        },
{
    let project: &Project = match manifest.projects.get(path) {
        Some(project) => project,
        None => {
            return Err(UploadError::NoProject { path: path.to_owned() });
        },
    };
    let remote: String = match project.find_remote(manifest) {
        Ok(remote) => remote,
        Err(_) => {
            return Err(UploadError::NoRemote { project: project.name.clone() });
        },
    };
    match &project.revision {
        Some(branch) => {
            return Ok(RemoteBranch { remote, branch: branch.clone() });
        },
        None => {},
    }
    match &manifest.default {
        Some(default) => match &default.revision {
            Some(branch) => {
                return Ok(RemoteBranch { remote, branch: branch.clone() });
            },
            None => {},
        },
        None => {},
    }
    Err(UploadError::NoBranch { project: project.name.clone() })
}

/// Where the commits of the project at a path are uploaded to.
pub fn upload_target(manifest: &Manifest, path: &str, head_detached: bool) -> (r: Result<
    RemoteBranch,
    UploadError,
>)
    ensures
        if head_detached {
            r is Err && r->Err_0@ == UploadErrorView::Detached
        } else {
            match upstream_of(manifest@, path@) {
                Ok((remote, branch)) => r is Ok && r->Ok_0.remote@ == remote && r->Ok_0.branch@
                    == branch,
                Err(e) => r is Err && r->Err_0@ == e,
            }
        },
{
    if head_detached {
        return Err(UploadError::Detached);
    }
    find_upstream(manifest, path)
}

/// A commit: its identity, and the first line of its message where that is text.
pub struct CommitInfo {
    pub id: String,
    pub summary: Option<String>,
}

/// A commit, as a value.
pub struct CommitInfoView {
    pub id: Seq<char>,
    pub summary: Option<Seq<char>>,
}

impl View for CommitInfo {
    type V = CommitInfoView;

    open spec fn view(&self) -> CommitInfoView {
        CommitInfoView { id: self.id@, summary: self.summary.deep_view() }
    }
}

impl DeepView for CommitInfo {
    type V = CommitInfoView;

    open spec fn deep_view(&self) -> CommitInfoView {
        self@
    }
}

/// At most the first ten characters.
pub open spec fn abbreviated(id: Seq<char>) -> Seq<char> {
    if id.len() <= 10 {
        id
    } else {
        id.take(10)
    }
}

/// The line that says what is uploaded.
pub open spec fn upload_heading(
    ahead: usize,
    commits: nat,
    branch: Seq<char>,
    project: Seq<char>,
) -> Seq<FragmentView> {
    seq![
        piece(
            Style::Plain,
            "Upload "@ + decimal(ahead as int) + (if commits == 1 {
                " commit from branch "@
            } else {
                " commits from branch "@
            }),
        ),
        piece(Style::BoldCyan, branch),
        piece(Style::Plain, " of project "@),
        piece(Style::Bold, project),
    ]
}

/// The line of a commit.
pub open spec fn commit_line(id: Seq<char>, summary: Seq<char>) -> Seq<FragmentView> {
    seq![
        piece(Style::Plain, "  "@),
        piece(Style::Cyan, abbreviated(id)),
        piece(Style::Plain, " "@ + summary),
    ]
}

/// The line that asks for confirmation.
pub open spec fn upload_question(
    remote: Seq<char>,
    branch: Seq<char>,
    autosubmit: bool,
) -> Seq<FragmentView> {
    seq![
        piece(Style::Plain, "to "@),
        piece(
            if remote == "aosp"@ {
                Style::BoldGreen
            } else {
                Style::BoldRed
            },
            remote,
        ),
        piece(Style::Bold, "/"@),
        piece(Style::BoldCyan, branch),
    ] + (if autosubmit {
        seq![
            piece(Style::Plain, " ("@),
            piece(Style::BoldRed, "autosubmit enabled"@),
            piece(Style::Plain, ") [y/N]? "@),
        ]
    } else {
        seq![piece(Style::Plain, " [y/N]? "@)]
    })
}

/// The lines of commits, or the first commit whose message is no text.
pub open spec fn commit_lines(commits: Seq<CommitInfoView>) -> Result<
    Seq<Seq<FragmentView>>,
    Seq<char>,
>
    decreases commits.len(),
{
    if commits.len() == 0 {
        Ok(Seq::empty())
    } else {
        match commit_lines(commits.drop_last()) {
            Err(id) => Err(id),
            Ok(lines) => match commits.last().summary {
                Some(summary) => Ok(lines.push(commit_line(commits.last().id, summary))),
                None => Err(commits.last().id),
            },
        }
    }
}

/// What is asked before an upload: a heading, the commits, and the question itself.
pub open spec fn upload_summary(
    project: Seq<char>,
    src_branch: Seq<char>,
    remote: Seq<char>,
    branch: Seq<char>,
    ahead: usize,
    commits: Seq<CommitInfoView>,
    autosubmit: bool,
) -> Result<Seq<Seq<FragmentView>>, UploadErrorView> {
    match commit_lines(commits) {
        Err(commit) => Err(UploadErrorView::BadSummary { commit }),
        Ok(lines) => if commits.len() == 0 {
            Err(UploadErrorView::NoCommits)
        } else {
            Ok(
                seq![upload_heading(ahead, commits.len(), src_branch, project)] + lines + seq![
                    upload_question(remote, branch, autosubmit),
                ],
            )
        },
    }
}

/// The first commit whose message is no text decides.
proof fn lemma_lines_fail(commits: Seq<CommitInfoView>, n: int)
    requires
        0 <= n <= commits.len(),
        commit_lines(commits.take(n)) is Err,
    ensures
        commit_lines(commits) == commit_lines(commits.take(n)),
    decreases commits.len(),
{
    if n == commits.len() {
        assert(commits.take(n) =~= commits);
    } else {
        assert(commits.drop_last().take(n) =~= commits.take(n));
        lemma_lines_fail(commits.drop_last(), n);
    }
}

/// The line of a commit.
fn commit_fragments(id: &str, summary: &str) -> (r: Vec<Fragment>)
    ensures
        r.deep_view() == commit_line(id@, summary@),
{
    let short: String = if id.unicode_len() <= 10 {
        id.to_owned()
    } else {
        let head: String = id.substring_char(0, 10).to_owned();
        assert(head@ =~= id@.take(10));
        head
    };
    let mut r: Vec<Fragment> = Vec::new();
    r.push(fragment(Style::Plain, "  "));
    r.push(fragment(Style::Cyan, short.as_str()));
    r.push(fragment(Style::Plain, concat2(" ", summary).as_str()));
    assert(r.deep_view() =~= commit_line(id@, summary@));
    r
}

/// What is asked before an upload.
pub fn summarize_upload(
    project_name: &str,
    src_branch_name: &str,
    dst_remote: &str,
    dst_branch_name: &str,
    ahead: usize,
    commits: &Vec<CommitInfo>,
    autosubmit: bool,
) -> (r: Result<Vec<Vec<Fragment>>, UploadError>)
    ensures
        match upload_summary(
            project_name@,
            src_branch_name@,
            dst_remote@,
            dst_branch_name@,
            ahead,
            commits.deep_view(),
            autosubmit,
        ) {
            Ok(lines) => r is Ok && r->Ok_0.deep_view() == lines,
            Err(e) => r is Err && r->Err_0@ == e,
        },
{
    let ghost all = commits.deep_view();
    let number: String = decimal_of(ahead as u64);
    let rest: &'static str = if commits.len() == 1 {
        " commit from branch "
    } else {
        " commits from branch "
    };
    let mut heading: Vec<Fragment> = Vec::new();
    heading.push(fragment(Style::Plain, concat3("Upload ", number.as_str(), rest).as_str()));
    heading.push(fragment(Style::BoldCyan, src_branch_name));
    heading.push(fragment(Style::Plain, " of project "));
    heading.push(fragment(Style::Bold, project_name));
    let ghost head = upload_heading(ahead, all.len(), src_branch_name@, project_name@);
    assert(heading.deep_view() =~= head);
    let mut lines: Vec<Vec<Fragment>> = Vec::new();
    add_line(&mut lines, heading);
    assert(lines.deep_view() =~= seq![head]);
    let mut i: usize = 0;
    assert(lines.deep_view() =~= seq![head] + Seq::<Seq<FragmentView>>::empty());
    while i < commits.len()
        invariant
            i <= commits.len(),
            all == commits.deep_view(),
            commit_lines(all.take(i as int)) is Ok,
            lines.deep_view() == seq![head] + commit_lines(all.take(i as int))->Ok_0,
        decreases commits.len() - i,
    {
        assert(all[i as int] == commits@[i as int]@);
        assert(all.take(i + 1).drop_last() =~= all.take(i as int));
        let ghost before = commit_lines(all.take(i as int))->Ok_0;
        match &commits[i].summary {
            Some(summary) => {
                let line: Vec<Fragment> = commit_fragments(
                    commits[i].id.as_str(),
                    summary.as_str(),
                );
                add_line(&mut lines, line);
                assert(lines.deep_view() =~= seq![head] + before.push(
                    commit_line(all[i as int].id, summary@),
                ));
            },
            None => {
                proof {
                    lemma_lines_fail(all, i + 1);
                }
                return Err(UploadError::BadSummary { commit: commits[i].id.clone() });
            },
        }
        i += 1;
    }
    assert(all.take(all.len() as int) =~= all);
    if commits.len() == 0 {
        return Err(UploadError::NoCommits);
    }
    let style: Style = if same_text(dst_remote, "aosp") {
        Style::BoldGreen
    } else {
        Style::BoldRed
    };
    let mut question: Vec<Fragment> = Vec::new();
    question.push(fragment(Style::Plain, "to "));
    question.push(fragment(style, dst_remote));
    question.push(fragment(Style::Bold, "/"));
    question.push(fragment(Style::BoldCyan, dst_branch_name));
    if autosubmit {
        question.push(fragment(Style::Plain, " ("));
        question.push(fragment(Style::BoldRed, "autosubmit enabled"));
        question.push(fragment(Style::Plain, ") [y/N]? "));
    } else {
        question.push(fragment(Style::Plain, " [y/N]? "));
    }
    assert(question.deep_view() =~= upload_question(dst_remote@, dst_branch_name@, autosubmit));
    let ghost before = lines.deep_view();
    add_line(&mut lines, question);
    assert(lines.deep_view() =~= before + seq![
        upload_question(dst_remote@, dst_branch_name@, autosubmit),
    ]);
    Ok(lines)
}

/// Goes on only where the hooks that come before an upload have succeeded.
pub fn check_hooks(rc: i32) -> (r: Result<(), UploadError>)
    ensures
        if rc == 0 {
            r is Ok
        } else {
            r is Err && r->Err_0@ == UploadErrorView::HooksFailed
        },
{
    if rc == 0 {
        Ok(())
    } else {
        Err(UploadError::HooksFailed)
    }
}

/// The answer means yes.
pub open spec fn is_yes(answer: Seq<char>) -> bool {
    answer == "y"@ || answer == "Y"@
}

/// Goes on only where the question was answered with yes.
pub fn confirm(answer: &str) -> (r: Result<(), UploadError>)
    ensures
        if is_yes(answer@) {
            r is Ok
        } else {
            r is Err && r->Err_0@ == UploadErrorView::Aborted
        },
{
    if same_text(answer, "y") || same_text(answer, "Y") {
        Ok(())
    } else {
        Err(UploadError::Aborted)
    }
}

/// A line without the newline at its end.
pub open spec fn line_text(line: Seq<char>) -> Seq<char> {
    if line.len() > 0 && line.last() == '\n' {
        line.drop_last()
    } else {
        line
    }
}

/// A line without the newline at its end.
pub fn read_line(line: &str) -> (r: String)
    ensures
        r@ == line_text(line@),
{
    let n: usize = line.unicode_len();
    if n > 0 && line.get_char(n - 1) == '\n' {
        let r: String = line.substring_char(0, n - 1).to_owned();
        assert(r@ =~= line@.drop_last());
        r
    } else {
        line.to_owned()
    }
}

/// The remote and the branch that commits go to are found each on its own: the project's revision
/// is the branch whether or not the project names a remote, and its remote is the remote whatever
/// its revision; what the project at the path does not name, the default gives.
pub proof fn law_upstream_found_independently(manifest: ManifestView, path: Seq<char>, i: int)
    requires
        0 <= i < manifest.projects.len(),
        components(manifest.projects[i].0) == components(path),
        forall|j: int|
            0 <= j < i ==> components((#[trigger] manifest.projects[j]).0) != components(path),
    ensures
        ({
            let project = manifest.projects[i].1;
            let found = upstream_of(manifest, path);
            let remote = match project.remote {
                Some(own) => Some(own),
                None => match manifest.default {
                    Some(default) => default.remote,
                    None => None,
                },
            };
            let branch = match project.revision {
                Some(own) => Some(own),
                None => match manifest.default {
                    Some(default) => default.revision,
                    None => None,
                },
            };
            &&& found is Ok <==> remote is Some && branch is Some
            &&& found is Ok ==> found->Ok_0.0 == remote->0 && found->Ok_0.1 == branch->0
            &&& remote is None ==> found is Err && found->Err_0 == (UploadErrorView::NoRemote {
                project: project.name,
            })
            &&& remote is Some && branch is None ==> found is Err && found->Err_0 == (
            UploadErrorView::NoBranch { project: project.name })
        }),
{
    lemma_find_from(
        manifest.projects,
        |e: (Seq<char>, ProjectView)| components(e.0) == components(path),
        i,
    );
}

/// Commits go nowhere from a path at which there is no project.
pub proof fn law_no_upstream_without_project(manifest: ManifestView, path: Seq<char>)
    requires
        forall|j: int|
            0 <= j < manifest.projects.len() ==> components((#[trigger] manifest.projects[j]).0)
                != components(path),
    ensures
        upstream_of(manifest, path) is Err,
        upstream_of(manifest, path)->Err_0 == (UploadErrorView::NoProject { path }),
{
    lemma_find_from(
        manifest.projects,
        |e: (Seq<char>, ProjectView)| components(e.0) == components(path),
        manifest.projects.len() as int,
    );
}

/// A push names where it goes last: the remote, and the branch as one whose changes are looked at
/// first. Where nothing is asked for, it says nothing else.
pub proof fn law_push_goes_to_branch(
    remote: Seq<char>,
    branch: Seq<char>,
    options: UploadOptionsView,
)
    ensures
        ({
            let arguments = push_arguments(remote, branch, options);
            let asked = options.reviewers.len() + options.ccs.len() + (if options.wip {
                1int
            } else {
                0
            }) + (if options.private {
                1int
            } else {
                0
            }) + (if options.autosubmit {
                1int
            } else {
                0
            }) + (if options.presubmit_ready {
                1int
            } else {
                0
            }) + (if options.topic is Some {
                1int
            } else {
                0
            }) + (if options.message is Some {
                1int
            } else {
                0
            });
            &&& arguments.len() == 3 + 2 * asked
            &&& arguments[0] == "push"@
            &&& arguments[arguments.len() - 2] == remote
            &&& arguments.last() == "HEAD:refs/for/"@ + branch
        }),
{
    lemma_each_length("r="@, options.reviewers);
    lemma_each_length("cc="@, options.ccs);
    let people = seq!["push"@] + each_option("r="@, options.reviewers) + each_option(
        "cc="@,
        options.ccs,
    );
    let flags = people + flag_option(options.wip, "wip"@) + flag_option(
        options.private,
        "private"@,
    ) + flag_option(options.autosubmit, "l=Autosubmit"@) + flag_option(
        options.presubmit_ready,
        "l=Presubmit-Ready"@,
    );
    let front = flags + value_option("topic="@, options.topic) + value_option(
        "m="@,
        options.message,
    );
    assert(people.len() == 1 + 2 * options.reviewers.len() + 2 * options.ccs.len());
    assert(people[0] == "push"@);
    assert(flags[0] == "push"@);
    let arguments = push_arguments(remote, branch, options);
    assert(arguments == front + seq![remote, "HEAD:refs/for/"@ + branch]);
    assert(front[0] == "push"@);
}

/// Everyone who is to get a copy of a change gets an option of their own.
pub proof fn law_copies_are_sent(
    remote: Seq<char>,
    branch: Seq<char>,
    options: UploadOptionsView,
    i: int,
)
    requires
        0 <= i < options.ccs.len(),
    ensures
        ({
            let arguments = push_arguments(remote, branch, options);
            let at = 1 + 2 * options.reviewers.len() + 2 * i;
            &&& at + 1 < arguments.len()
            &&& arguments[at] == "-o"@
            &&& arguments[at + 1] == "cc="@ + options.ccs[i]
        }),
{
    lemma_each_option("cc="@, options.ccs, i);
    if options.reviewers.len() > 0 {
        lemma_each_option("r="@, options.reviewers, 0);
    }
}

/// The list with one more push option behind its first `at` arguments.
pub open spec fn with_option(arguments: Seq<Seq<char>>, at: int, option: Seq<char>) -> Seq<
    Seq<char>,
> {
    arguments.take(at) + seq!["-o"@, option] + arguments.skip(at)
}

/// How a list is gathered makes no difference.
proof fn lemma_gathered(a: Seq<Seq<char>>, b: Seq<Seq<char>>, c: Seq<Seq<char>>)
    ensures
        a + b + c == a + (b + c),
{
    assert(a + b + c =~= a + (b + c));
}

/// A list with nothing more is the list.
proof fn lemma_nothing_more(a: Seq<Seq<char>>)
    ensures
        a + Seq::empty() == a,
{
    assert(a + Seq::empty() =~= a);
}

/// One push option more between two lists.
proof fn lemma_with_option(a: Seq<Seq<char>>, b: Seq<Seq<char>>, option: Seq<char>)
    ensures
        a + seq!["-o"@, option] + b == with_option(a + Seq::empty() + b, a.len() as int, option),
{
    assert((a + Seq::empty() + b).take(a.len() as int) =~= a);
    assert((a + Seq::empty() + b).skip(a.len() as int) =~= b);
}

/// There are two arguments for each value.
proof fn lemma_each_length(prefix: Seq<char>, values: Seq<Seq<char>>)
    ensures
        each_option(prefix, values).len() == 2 * values.len(),
{
    if values.len() > 0 {
        lemma_each_option(prefix, values, 0);
    }
}

/// One push option more among lists of them.
proof fn lemma_option_among(
    a: Seq<Seq<char>>,
    option: Seq<char>,
    b: Seq<Seq<char>>,
    c: Seq<Seq<char>>,
    d: Seq<Seq<char>>,
    e: Seq<Seq<char>>,
    f: Seq<Seq<char>>,
    g: Seq<Seq<char>>,
)
    ensures
        a + seq!["-o"@, option] + b + c + d + e + f + g == with_option(
            a + Seq::empty() + b + c + d + e + f + g,
            a.len() as int,
            option,
        ),
{
    let x = a + seq!["-o"@, option];
    let y = a + Seq::<Seq<char>>::empty();
    lemma_gathered(x, b, c);
    lemma_gathered(x, b + c, d);
    lemma_gathered(x, b + c + d, e);
    lemma_gathered(x, b + c + d + e, f);
    lemma_gathered(x, b + c + d + e + f, g);
    lemma_gathered(y, b, c);
    lemma_gathered(y, b + c, d);
    lemma_gathered(y, b + c + d, e);
    lemma_gathered(y, b + c + d + e, f);
    lemma_gathered(y, b + c + d + e + f, g);
    lemma_with_option(a, b + c + d + e + f + g, option);
}

/// Each thing asked for adds one push option, whatever else is asked for, and nothing that is not
/// asked for adds any.
pub proof fn law_options_are_independent(
    remote: Seq<char>,
    branch: Seq<char>,
    options: UploadOptionsView,
    text: Seq<char>,
)
    ensures
        ({
            let people: int = 1int + 2 * options.reviewers.len() + 2 * options.ccs.len();
            let wip: int = people + (if options.wip {
                2int
            } else {
                0
            });
            let private = wip + (if options.private {
                2int
            } else {
                0
            });
            let autosubmit = private + (if options.autosubmit {
                2int
            } else {
                0
            });
            let presubmit = autosubmit + (if options.presubmit_ready {
                2int
            } else {
                0
            });
            let topic = presubmit + (if options.topic is Some {
                2int
            } else {
                0
            });
            &&& push_arguments(remote, branch, (UploadOptionsView { wip: true, ..options }))
                == with_option(
                push_arguments(remote, branch, (UploadOptionsView { wip: false, ..options })),
                people,
                "wip"@,
            )
            &&& push_arguments(remote, branch, (UploadOptionsView { private: true, ..options }))
                == with_option(
                push_arguments(remote, branch, (UploadOptionsView { private: false, ..options })),
                wip,
                "private"@,
            )
            &&& push_arguments(remote, branch, (UploadOptionsView { autosubmit: true, ..options }))
                == with_option(
                push_arguments(remote, branch, (UploadOptionsView { autosubmit: false, ..options })),
                private,
                "l=Autosubmit"@,
            )
            &&& push_arguments(
                remote,
                branch,
                (UploadOptionsView { presubmit_ready: true, ..options }),
            ) == with_option(
                push_arguments(
                    remote,
                    branch,
                    (UploadOptionsView { presubmit_ready: false, ..options }),
                ),
                autosubmit,
                "l=Presubmit-Ready"@,
            )
            &&& push_arguments(remote, branch, (UploadOptionsView { topic: Some(text), ..options }))
                == with_option(
                push_arguments(remote, branch, (UploadOptionsView { topic: None, ..options })),
                presubmit,
                "topic="@ + text,
            )
            &&& push_arguments(remote, branch, (UploadOptionsView { message: Some(text), ..options }))
                == with_option(
                push_arguments(remote, branch, (UploadOptionsView { message: None, ..options })),
                topic,
                "m="@ + text,
            )
        }),
{
    lemma_each_length("r="@, options.reviewers);
    lemma_each_length("cc="@, options.ccs);
    let none = Seq::<Seq<char>>::empty();
    let people = seq!["push"@] + each_option("r="@, options.reviewers) + each_option(
        "cc="@,
        options.ccs,
    );
    let wip = flag_option(options.wip, "wip"@);
    let private = flag_option(options.private, "private"@);
    let autosubmit = flag_option(options.autosubmit, "l=Autosubmit"@);
    let presubmit = flag_option(options.presubmit_ready, "l=Presubmit-Ready"@);
    let topic = value_option("topic="@, options.topic);
    let message = value_option("m="@, options.message);
    let end = seq![remote, "HEAD:refs/for/"@ + branch];
    let with_wip = people + wip;
    let with_private = with_wip + private;
    let with_autosubmit = with_private + autosubmit;
    let with_presubmit = with_autosubmit + presubmit;
    let with_topic = with_presubmit + topic;
    lemma_option_among(people, "wip"@, private, autosubmit, presubmit, topic, message, end);
    lemma_option_among(with_wip, "private"@, none, autosubmit, presubmit, topic, message, end);
    lemma_nothing_more(with_wip + seq!["-o"@, "private"@]);
    lemma_nothing_more(with_wip + none);
    lemma_option_among(with_private, "l=Autosubmit"@, none, none, presubmit, topic, message, end);
    lemma_nothing_more(with_private + seq!["-o"@, "l=Autosubmit"@]);
    lemma_nothing_more(with_private + none);
    lemma_option_among(
        with_autosubmit,
        "l=Presubmit-Ready"@,
        none,
        none,
        none,
        topic,
        message,
        end,
    );
    lemma_nothing_more(with_autosubmit + seq!["-o"@, "l=Presubmit-Ready"@]);
    lemma_nothing_more(with_autosubmit + none);
    lemma_option_among(with_presubmit, "topic="@ + text, none, none, none, none, message, end);
    lemma_nothing_more(with_presubmit + seq!["-o"@, "topic="@ + text]);
    lemma_nothing_more(with_presubmit + none);
    lemma_option_among(with_topic, "m="@ + text, none, none, none, none, none, end);
    lemma_nothing_more(with_topic + seq!["-o"@, "m="@ + text]);
    lemma_nothing_more(with_topic + none);
}

/// What is asked before an upload tells of every commit in order, by at most the first ten
/// characters of its id and by its summary, between a heading and a question; it is refused exactly
/// where there is no commit or the summary of one is no text, and then the first of those is named.
pub proof fn law_every_commit_is_told(
    project: Seq<char>,
    src_branch: Seq<char>,
    remote: Seq<char>,
    branch: Seq<char>,
    ahead: usize,
    commits: Seq<CommitInfoView>,
    autosubmit: bool,
    i: int,
)
    requires
        0 <= i < commits.len(),
        forall|j: int| 0 <= j < i ==> (#[trigger] commits[j]).summary is Some,
    ensures
        ({
            let told = upload_summary(
                project,
                src_branch,
                remote,
                branch,
                ahead,
                commits,
                autosubmit,
            );
            &&& commits[i].summary is None ==> told is Err && told->Err_0 == (
            UploadErrorView::BadSummary { commit: commits[i].id })
            &&& (forall|j: int| 0 <= j < commits.len() ==> (#[trigger] commits[j]).summary is Some)
                ==> {
                &&& told is Ok
                &&& told->Ok_0.len() == commits.len() + 2
                &&& told->Ok_0[i + 1].len() == 3
                &&& told->Ok_0[i + 1][1].text == commits[i].id.take(
                    if commits[i].id.len() < 10 {
                        commits[i].id.len() as int
                    } else {
                        10
                    },
                )
                &&& told->Ok_0[i + 1][2].text == " "@ + commits[i].summary->0
                &&& told->Ok_0[0] == upload_heading(ahead, commits.len(), src_branch, project)
                &&& told->Ok_0.last() == upload_question(remote, branch, autosubmit)
            }
        }),
{
    lemma_commit_lines(commits, i);
    assert(commits[i].id.take(commits[i].id.len() as int) =~= commits[i].id);
}

/// The lines of commits stand in the order of the commits, and the first that has none is named.
proof fn lemma_commit_lines(commits: Seq<CommitInfoView>, i: int)
    requires
        0 <= i < commits.len(),
        forall|j: int| 0 <= j < i ==> (#[trigger] commits[j]).summary is Some,
    ensures
        commits[i].summary is None ==> commit_lines(commits) is Err && commit_lines(commits)->Err_0
            == commits[i].id,
        (forall|j: int| 0 <= j < commits.len() ==> (#[trigger] commits[j]).summary is Some) ==> {
            &&& commit_lines(commits) is Ok
            &&& commit_lines(commits)->Ok_0.len() == commits.len()
            &&& commit_lines(commits)->Ok_0[i] == commit_line(
                commits[i].id,
                commits[i].summary->0,
            )
        },
    decreases commits.len(),
{
    let front = commits.drop_last();
    if front.len() == 0 {
        reveal_with_fuel(commit_lines, 2);
    } else if i < front.len() {
        lemma_commit_lines(front, i);
        assert(front[i] == commits[i]);
    } else {
        assert forall|j: int| 0 <= j < front.len() implies (#[trigger] front[j]).summary is Some by {
            assert(front[j] == commits[j]);
        }
        lemma_commit_lines(front, 0);
    }
}

/// Nothing is asked where there is nothing to upload.
pub proof fn law_nothing_to_upload(
    project: Seq<char>,
    src_branch: Seq<char>,
    remote: Seq<char>,
    branch: Seq<char>,
    ahead: usize,
    autosubmit: bool,
)
    ensures
        ({
            let told = upload_summary(
                project,
                src_branch,
                remote,
                branch,
                ahead,
                Seq::empty(),
                autosubmit,
            );
            told is Err && told->Err_0 is NoCommits
        }),
{
}

/// The question says where the commits go, in green only where that is the remote `aosp`, and warns
/// exactly where the change is submitted by itself.
pub proof fn law_question_names_target(remote: Seq<char>, branch: Seq<char>, autosubmit: bool)
    ensures
        ({
            let question = upload_question(remote, branch, autosubmit);
            &&& question[1].text == remote
            &&& question[1].style == Style::BoldGreen <==> remote == "aosp"@
            &&& question[1].style == Style::BoldRed <==> remote != "aosp"@
            &&& question[3].text == branch
            &&& plain_text(question) == "to "@ + remote + "/"@ + branch + (if autosubmit {
                " (autosubmit enabled) [y/N]? "@
            } else {
                " [y/N]? "@
            })
        }),
{
    reveal_strlit(" (autosubmit enabled) [y/N]? ");
    reveal_strlit(" (");
    reveal_strlit("autosubmit enabled");
    reveal_strlit(") [y/N]? ");
    let question = upload_question(remote, branch, autosubmit);
    reveal_with_fuel(plain_text, 8);
    assert(" ("@ + "autosubmit enabled"@ + ") [y/N]? "@ =~= " (autosubmit enabled) [y/N]? "@);
    if autosubmit {
        let q6 = question.drop_last();
        let q5 = q6.drop_last();
        let q4 = q5.drop_last();
        assert(plain_text(q4.drop_last().drop_last()) =~= "to "@ + remote);
        assert(plain_text(q4) =~= "to "@ + remote + "/"@ + branch);
        assert(plain_text(question) =~= "to "@ + remote + "/"@ + branch + (" ("@
            + "autosubmit enabled"@ + ") [y/N]? "@));
    } else {
        let q4 = question.drop_last();
        assert(plain_text(q4.drop_last().drop_last()) =~= "to "@ + remote);
        assert(plain_text(q4) =~= "to "@ + remote + "/"@ + branch);
        assert(plain_text(question) =~= "to "@ + remote + "/"@ + branch + " [y/N]? "@);
    }
}

/// Only `y`, in either case, is a yes.
pub proof fn law_yes_is_y(answer: Seq<char>)
    ensures
        is_yes(answer) <==> answer.len() == 1 && (answer[0] == 'y' || answer[0] == 'Y'),
{
    reveal_strlit("y");
    reveal_strlit("Y");
    if answer.len() == 1 {
        assert(answer[0] == 'y' ==> answer =~= "y"@);
        assert(answer[0] == 'Y' ==> answer =~= "Y"@);
    }
}

/// One newline at the end of a line is left out, and nothing else.
pub proof fn law_line_without_newline(line: Seq<char>)
    ensures
        line_text(line.push('\n')) == line,
        !line.contains('\n') ==> line_text(line) == line,
        line_text(Seq::empty()) == Seq::<char>::empty(),
{
    assert(line.push('\n').drop_last() =~= line);
    if line.len() > 0 && line.last() == '\n' {
        assert(line.contains(line[line.len() - 1]));
    }
}

/// The heading says how many commits go, from which branch of which project; one commit is no
/// plural.
pub proof fn law_heading_counts_commits(
    ahead: usize,
    commits: nat,
    branch: Seq<char>,
    project: Seq<char>,
)
    ensures
        commits != 1 ==> plain_text(upload_heading(ahead, commits, branch, project)) == "Upload "@
            + decimal(ahead as int) + " commits from branch "@ + branch + " of project "@ + project,
        plain_text(upload_heading(ahead, 1, branch, project)) == "Upload "@ + decimal(ahead as int)
            + " commit from branch "@ + branch + " of project "@ + project,
{
    reveal_with_fuel(plain_text, 5);
    let one = upload_heading(ahead, 1, branch, project);
    let many = upload_heading(ahead, commits, branch, project);
    assert(plain_text(one) =~= one[0].text + one[1].text + one[2].text + one[3].text);
    assert(plain_text(many) =~= many[0].text + many[1].text + many[2].text + many[3].text);
}

/// An upload is of one project and of its current branch.
pub proof fn law_upload_of_one_branch(
    paths: Option<usize>,
    current_branch: bool,
    r: Result<(), UploadError>,
)
    requires
        call_ensures(check_upload, (paths, current_branch), r),
    ensures
        r is Ok <==> paths == Some(1usize) && current_branch,
        paths != Some(1usize) ==> r->Err_0@ is MultipleProjects,
        paths == Some(1usize) && !current_branch ==> r->Err_0@ is Interactive,
{
}

/// Commits go where the project at the path belongs, exactly where `HEAD` is on a branch.
pub proof fn law_upload_goes_upstream(
    manifest: &Manifest,
    path: &str,
    head_detached: bool,
    found: Result<RemoteBranch, UploadError>,
    r: Result<RemoteBranch, UploadError>,
)
    requires
        call_ensures(find_upstream, (manifest, path), found),
        call_ensures(upload_target, (manifest, path, head_detached), r),
    ensures
        head_detached ==> r is Err && r->Err_0@ is Detached,
        !head_detached ==> (r is Ok <==> found is Ok),
        !head_detached && r is Ok ==> r->Ok_0.remote@ == found->Ok_0.remote@ && r->Ok_0.branch@
            == found->Ok_0.branch@,
        !head_detached && r is Err ==> r->Err_0@ == found->Err_0@,
{
}

/// An upload goes on exactly where the hooks have succeeded and the answer is yes.
pub proof fn law_upload_goes_on(
    rc: i32,
    answer: &str,
    hooked: Result<(), UploadError>,
    confirmed: Result<(), UploadError>,
)
    requires
        call_ensures(check_hooks, (rc,), hooked),
        call_ensures(confirm, (answer,), confirmed),
    ensures
        hooked is Ok <==> rc == 0,
        confirmed is Ok <==> answer@.len() == 1 && (answer@[0] == 'y' || answer@[0] == 'Y'),
{
    law_yes_is_y(answer@);
}

/// The upstream branch of a project that is found has the project's own remote and revision where
/// it names them, each whether or not it names the other.
pub proof fn law_found_upstream(
    manifest: &Manifest,
    path: &str,
    r: Result<RemoteBranch, UploadError>,
    i: int,
)
    requires
        call_ensures(find_upstream, (manifest, path), r),
        0 <= i < manifest@.projects.len(),
        components(manifest@.projects[i].0) == components(path@),
        forall|j: int|
            0 <= j < i ==> components((#[trigger] manifest@.projects[j]).0) != components(path@),
    ensures
        r is Ok ==> (manifest@.projects[i].1.revision matches Some(own) ==> r->Ok_0.branch@ == own),
        r is Ok ==> (manifest@.projects[i].1.remote matches Some(own) ==> r->Ok_0.remote@ == own),
        manifest@.projects[i].1.revision is Some && manifest@.projects[i].1.remote is Some ==> r
            is Ok,
        manifest@.default matches Some(default) ==> {
            &&& default.revision is Some && default.remote is Some ==> r is Ok
            &&& r is Ok && manifest@.projects[i].1.revision is None ==> default.revision == Some(
                r->Ok_0.branch@,
            )
            &&& r is Ok && manifest@.projects[i].1.remote is None ==> default.remote == Some(
                r->Ok_0.remote@,
            )
        },
{
    law_upstream_found_independently(manifest@, path@, i);
}

} // verus!
