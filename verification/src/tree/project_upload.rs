//! The upload of one project, from looking at `HEAD` to pushing.
use vstd::prelude::*;

use crate::manifest::{Manifest, ManifestView};
use crate::style::{Fragment, FragmentView};
use crate::text::{concat2, copy_option, join, join_with};
use crate::tree::select::ProjectInfoView;
use crate::tree::upload::{
    confirm, is_yes, line_text, make_push_command, push_arguments, read_line, summarize_upload,
    upload_summary, upload_target, upstream_of, CommitInfo, CommitInfoView, GitCommand,
    RemoteBranch, UploadError, UploadErrorView, UploadOptions, UploadOptionsView,
};
use crate::tree::ProjectInfo;

verus! {

/// What is asked of an upload.
pub struct UploadRequest {
    pub reviewers: Vec<String>,
    pub ccs: Vec<String>,
    pub private: bool,
    pub wip: bool,
    pub branch_name_as_topic: bool,
    pub autosubmit: bool,
    pub presubmit_ready: bool,
    /// The description of the new patch set.
    pub message: Option<String>,
    /// The command is shown, and not run.
    pub dry_run: bool,
}

/// What is asked of an upload, as a value.
pub struct UploadRequestView {
    pub reviewers: Seq<Seq<char>>,
    pub ccs: Seq<Seq<char>>,
    pub private: bool,
    pub wip: bool,
    pub branch_name_as_topic: bool,
    pub autosubmit: bool,
    pub presubmit_ready: bool,
    pub message: Option<Seq<char>>,
    pub dry_run: bool,
}

impl View for UploadRequest {
    type V = UploadRequestView;

    open spec fn view(&self) -> UploadRequestView {
        UploadRequestView {
            reviewers: self.reviewers.deep_view(),
            ccs: self.ccs.deep_view(),
            private: self.private,
            wip: self.wip,
            branch_name_as_topic: self.branch_name_as_topic,
            autosubmit: self.autosubmit,
            presubmit_ready: self.presubmit_ready,
            message: self.message.deep_view(),
            dry_run: self.dry_run,
        }
    }
}

/// The options of a push, with its topic.
pub open spec fn options_of(
    request: UploadRequestView,
    topic: Option<Seq<char>>,
) -> UploadOptionsView {
    UploadOptionsView {
        ccs: request.ccs,
        reviewers: request.reviewers,
        topic,
        message: request.message,
        autosubmit: request.autosubmit,
        presubmit_ready: request.presubmit_ready,
        private: request.private,
        wip: request.wip,
    }
}

/// What is to be done next for the upload of a project.
pub enum UploadAction {
    /// Look whether `HEAD` is on a branch.
    ReadHead,
    /// Find the commits that the branch of the remote does not have.
    Compare { remote: String, branch: String },
    /// Show the lines and ask.
    Ask(Vec<Vec<Fragment>>),
    /// Read the name of the branch that `HEAD` is on.
    ReadBranch,
    /// Run `git`.
    Push(GitCommand),
    /// Show the line that would push.
    Show(String),
    /// Nothing is left to do.
    Finish,
    /// The project is not uploaded.
    Fail(UploadError),
}

/// What is to be done next for the upload of a project, as a value.
pub enum UploadActionView {
    ReadHead,
    Compare { remote: Seq<char>, branch: Seq<char> },
    Ask(Seq<Seq<FragmentView>>),
    ReadBranch,
    Push { directory: Seq<char>, arguments: Seq<Seq<char>> },
    Show(Seq<char>),
    Finish,
    Fail(UploadErrorView),
}

impl View for UploadAction {
    type V = UploadActionView;

    open spec fn view(&self) -> UploadActionView {
        match self {
            UploadAction::ReadHead => UploadActionView::ReadHead,
            UploadAction::Compare { remote, branch } => UploadActionView::Compare {
                remote: remote@,
                branch: branch@,
            },
            UploadAction::Ask(lines) => UploadActionView::Ask(lines.deep_view()),
            UploadAction::ReadBranch => UploadActionView::ReadBranch,
            UploadAction::Push(command) => UploadActionView::Push {
                directory: command.directory@,
                arguments: command.arguments.deep_view(),
            },
            UploadAction::Show(line) => UploadActionView::Show(line@),
            UploadAction::Finish => UploadActionView::Finish,
            UploadAction::Fail(error) => UploadActionView::Fail(error@),
        }
    }
}

/// What came of the last action.
pub enum UploadEvent {
    Head { detached: bool },
    /// The branch that `HEAD` is on, how far it is ahead, and the commits.
    Commits { branch: String, ahead: usize, commits: Vec<CommitInfo> },
    /// The line that answers the question.
    Answer(String),
    Branch(String),
    /// The command was run or shown.
    Done,
}

/// What came of the last action, as a value.
pub enum UploadEventView {
    Head { detached: bool },
    Commits { branch: Seq<char>, ahead: usize, commits: Seq<CommitInfoView> },
    Answer(Seq<char>),
    Branch(Seq<char>),
    Done,
}

impl View for UploadEvent {
    type V = UploadEventView;

    open spec fn view(&self) -> UploadEventView {
        match self {
            UploadEvent::Head { detached } => UploadEventView::Head { detached: *detached },
            UploadEvent::Commits { branch, ahead, commits } => UploadEventView::Commits {
                branch: branch@,
                ahead: *ahead,
                commits: commits.deep_view(),
            },
            UploadEvent::Answer(line) => UploadEventView::Answer(line@),
            UploadEvent::Branch(name) => UploadEventView::Branch(name@),
            UploadEvent::Done => UploadEventView::Done,
        }
    }
}

/// How far the upload of a project has come.
enum UploadState {
    ReadingHead,
    Comparing(RemoteBranch),
    Asking(RemoteBranch),
    Naming(RemoteBranch),
    Pushing,
    Finished,
}

/// How far the upload of a project has come, as a value: once it is known, the remote and the
/// branch that are uploaded to are.
pub enum UploadStateView {
    ReadingHead,
    Comparing { remote: Seq<char>, branch: Seq<char> },
    Asking { remote: Seq<char>, branch: Seq<char> },
    Naming { remote: Seq<char>, branch: Seq<char> },
    Pushing,
    Finished,
}

impl View for UploadState {
    type V = UploadStateView;

    closed spec fn view(&self) -> UploadStateView {
        match self {
            UploadState::ReadingHead => UploadStateView::ReadingHead,
            UploadState::Comparing(target) => UploadStateView::Comparing {
                remote: target.remote@,
                branch: target.branch@,
            },
            UploadState::Asking(target) => UploadStateView::Asking {
                remote: target.remote@,
                branch: target.branch@,
            },
            UploadState::Naming(target) => UploadStateView::Naming {
                remote: target.remote@,
                branch: target.branch@,
            },
            UploadState::Pushing => UploadStateView::Pushing,
            UploadState::Finished => UploadStateView::Finished,
        }
    }
}

/// The project that is uploaded, and how.
pub struct UploadContextView {
    pub manifest: ManifestView,
    pub project: ProjectInfoView,
    pub directory: Seq<char>,
    pub request: UploadRequestView,
}

/// The upload is given up.
pub open spec fn upload_failed(error: UploadErrorView) -> (UploadStateView, UploadActionView) {
    (UploadStateView::Finished, UploadActionView::Fail(error))
}

/// The line that runs `git` with the arguments.
pub open spec fn git_line(arguments: Seq<Seq<char>>) -> Seq<char> {
    "git "@ + join_with(arguments, " "@)
}

/// What is done with the arguments of a push: they are run in the directory, or shown where nothing
/// is to be pushed.
pub open spec fn push_or_show(
    dry_run: bool,
    directory: Seq<char>,
    arguments: Seq<Seq<char>>,
) -> UploadActionView {
    if dry_run {
        UploadActionView::Show(git_line(arguments))
    } else {
        UploadActionView::Push { directory, arguments }
    }
}

/// The push, with its topic.
pub open spec fn pushing(
    context: UploadContextView,
    remote: Seq<char>,
    branch: Seq<char>,
    topic: Option<Seq<char>>,
) -> (UploadStateView, UploadActionView) {
    (
        UploadStateView::Pushing,
        push_or_show(
            context.request.dry_run,
            context.directory,
            push_arguments(remote, branch, options_of(context.request, topic)),
        ),
    )
}

/// What follows an event.
pub open spec fn upload_step(
    context: UploadContextView,
    state: UploadStateView,
    event: UploadEventView,
) -> (UploadStateView, UploadActionView) {
    match (state, event) {
        (UploadStateView::ReadingHead, UploadEventView::Head { detached }) => if detached {
            upload_failed(UploadErrorView::Detached)
        } else {
            match upstream_of(context.manifest, context.project.project_path) {
                Ok((remote, branch)) => (
                    UploadStateView::Comparing { remote, branch },
                    UploadActionView::Compare { remote, branch },
                ),
                Err(error) => upload_failed(error),
            }
        },
        (
            UploadStateView::Comparing { remote, branch },
            UploadEventView::Commits { branch: head, ahead, commits },
        ) => match upload_summary(
            context.project.project_name,
            head,
            remote,
            branch,
            ahead,
            commits,
            context.request.autosubmit,
        ) {
            Ok(lines) => (
                UploadStateView::Asking { remote, branch },
                UploadActionView::Ask(lines),
            ),
            Err(error) => upload_failed(error),
        },
        (UploadStateView::Asking { remote, branch }, UploadEventView::Answer(line)) => if !is_yes(
            line_text(line),
        ) {
            upload_failed(UploadErrorView::Aborted)
        } else if context.request.branch_name_as_topic {
            (UploadStateView::Naming { remote, branch }, UploadActionView::ReadBranch)
        } else {
            pushing(context, remote, branch, None)
        },
        (UploadStateView::Naming { remote, branch }, UploadEventView::Branch(name)) => pushing(
            context,
            remote,
            branch,
            Some(name),
        ),
        (UploadStateView::Pushing, UploadEventView::Done) => (
            UploadStateView::Finished,
            UploadActionView::Finish,
        ),
        _ => upload_failed(UploadErrorView::Unexpected),
    }
}

/// How far the upload of a project has come after some events, and what is to be done then.
pub open spec fn upload_run(context: UploadContextView, events: Seq<UploadEventView>) -> (
    UploadStateView,
    UploadActionView,
)
    decreases events.len(),
{
    if events.len() == 0 {
        (UploadStateView::ReadingHead, UploadActionView::ReadHead)
    } else {
        upload_step(context, upload_run(context, events.drop_last()).0, events.last())
    }
}

/// `HEAD` was seen to be on a branch.
pub open spec fn saw_branch(events: Seq<UploadEventView>) -> bool {
    exists|i: int|
        0 <= i < events.len() && (#[trigger] events[i] matches UploadEventView::Head { detached }
            && !detached)
}

/// The question was answered with yes.
pub open spec fn saw_yes(events: Seq<UploadEventView>) -> bool {
    exists|i: int|
        0 <= i < events.len() && (#[trigger] events[i] matches UploadEventView::Answer(line)
            && is_yes(line_text(line)))
}

/// Nothing is pushed unless `HEAD` was seen to be on a branch and the question was answered with
/// yes.
pub proof fn law_nothing_pushed_unasked(
    context: UploadContextView,
    events: Seq<UploadEventView>,
)
    ensures
        upload_run(context, events).1 is Push ==> saw_branch(events) && saw_yes(events),
{
    lemma_run_saw(context, events);
}

/// Where nothing is to be pushed, nothing is, whatever happens.
pub proof fn law_dry_run_pushes_nothing(
    context: UploadContextView,
    events: Seq<UploadEventView>,
)
    requires
        context.request.dry_run,
    ensures
        !(upload_run(context, events).1 is Push),
{
}

proof fn lemma_run_saw(context: UploadContextView, events: Seq<UploadEventView>)
    ensures
        ({
            let state = upload_run(context, events).0;
            &&& (state is Comparing || state is Asking || state is Naming || state is Pushing)
                ==> saw_branch(events)
            &&& (state is Naming || state is Pushing) ==> saw_yes(events)
            &&& upload_run(context, events).1 is Push ==> state is Pushing
        }),
    decreases events.len(),
{
    if events.len() > 0 {
        let front = events.drop_last();
        lemma_run_saw(context, front);
        if saw_branch(front) {
            let i = choose|i: int|
                0 <= i < front.len() && (#[trigger] front[i] matches UploadEventView::Head {
                    detached,
                } && !detached);
            assert(events[i] == front[i]);
        }
        if saw_yes(front) {
            let i = choose|i: int|
                0 <= i < front.len() && (#[trigger] front[i] matches UploadEventView::Answer(line)
                    && is_yes(line_text(line)));
            assert(events[i] == front[i]);
        }
        assert(events[events.len() - 1] == events.last());
    }
}

/// The upload of one project.
pub struct ProjectUpload {
    state: UploadState,
}

impl View for ProjectUpload {
    type V = UploadStateView;

    closed spec fn view(&self) -> UploadStateView {
        self.state@
    }
}

/// What is done with the command of a push.
fn push_command(
    directory: &str,
    request: &UploadRequest,
    target: &RemoteBranch,
    topic: Option<String>,
) -> (r: UploadAction)
    ensures
        r@ == push_or_show(
            request.dry_run,
            directory@,
            push_arguments(
                target.remote@,
                target.branch@,
                options_of(request@, topic.deep_view()),
            ),
        ),
{
    let options: UploadOptions = UploadOptions {
        ccs: &request.ccs,
        reviewers: &request.reviewers,
        topic,
        message: copy_option(&request.message),
        autosubmit: request.autosubmit,
        presubmit_ready: request.presubmit_ready,
        private: request.private,
        wip: request.wip,
    };
    let command: GitCommand = make_push_command(
        directory.to_owned(),
        target.remote.as_str(),
        target.branch.as_str(),
        &options,
    );
    if request.dry_run {
        UploadAction::Show(concat2("git ", join(&command.arguments, " ").as_str()))
    } else {
        UploadAction::Push(command)
    }
}

impl ProjectUpload {
    /// Begins, and says what is to be done first.
    pub fn begin() -> (r: (ProjectUpload, UploadAction))
        ensures
            r.0@ == UploadStateView::ReadingHead,
            r.1@ == UploadActionView::ReadHead,
    {
        (ProjectUpload { state: UploadState::ReadingHead }, UploadAction::ReadHead)
    }

    /// Takes what came of the last action, and says what is to be done next for the project, whose
    /// repository is in the directory.
    pub fn next(
        &mut self,
        manifest: &Manifest,
        project: &ProjectInfo,
        directory: &str,
        request: &UploadRequest,
        event: UploadEvent,
    ) -> (r: UploadAction)
        ensures
            (final(self)@, r@) == upload_step(
                UploadContextView {
                    manifest: manifest@,
                    project: project@,
                    directory: directory@,
                    request: request@,
                },
                old(self)@,
                event@,
            ),
    {
        let mut state: UploadState = UploadState::Finished;
        std::mem::swap(&mut state, &mut self.state);
        match (state, event) {
            (UploadState::ReadingHead, UploadEvent::Head { detached }) => {
                match upload_target(manifest, project.project_path.as_str(), detached) {
                    Ok(target) => {
                        let action: UploadAction = UploadAction::Compare {
                            remote: target.remote.clone(),
                            branch: target.branch.clone(),
                        };
                        self.state = UploadState::Comparing(target);
                        action
                    },
                    Err(error) => UploadAction::Fail(error),
                }
            },
            (
                UploadState::Comparing(target),
                UploadEvent::Commits { branch, ahead, commits },
            ) => {
                match summarize_upload(
                    project.project_name.as_str(),
                    branch.as_str(),
                    target.remote.as_str(),
                    target.branch.as_str(),
                    ahead,
                    &commits,
                    request.autosubmit,
                ) {
                    Ok(lines) => {
                        self.state = UploadState::Asking(target);
                        UploadAction::Ask(lines)
                    },
                    Err(error) => UploadAction::Fail(error),
                }
            },
            (UploadState::Asking(target), UploadEvent::Answer(line)) => {
                match confirm(read_line(line.as_str()).as_str()) {
                    Ok(()) => if request.branch_name_as_topic {
                        self.state = UploadState::Naming(target);
                        UploadAction::ReadBranch
                    } else {
                        self.state = UploadState::Pushing;
                        push_command(directory, request, &target, None)
                    },
                    Err(error) => UploadAction::Fail(error),
                }
            },
            (UploadState::Naming(target), UploadEvent::Branch(name)) => {
                self.state = UploadState::Pushing;
                push_command(directory, request, &target, Some(name))
            },
            (UploadState::Pushing, UploadEvent::Done) => UploadAction::Finish,
            _ => UploadAction::Fail(UploadError::Unexpected),
        }
    }
}

/// Everything that is asked of an upload is asked of its push, whatever its topic.
pub proof fn law_request_reaches_push(request: UploadRequestView, topic: Option<Seq<char>>)
    ensures
        options_of(request, topic) == (UploadOptionsView {
            ccs: request.ccs,
            reviewers: request.reviewers,
            topic,
            message: request.message,
            autosubmit: request.autosubmit,
            presubmit_ready: request.presubmit_ready,
            private: request.private,
            wip: request.wip,
        }),
{
}

/// An upload from a branch that is agreed to is pushed: to the branch of the remote that the
/// project belongs to, with all that was asked for, and with the local branch as its topic exactly
/// where that was asked for. The question tells of the commits that go there. In a dry run the
/// command is shown in place of the push.
pub proof fn law_agreed_upload_is_pushed(
    context: UploadContextView,
    head: Seq<char>,
    ahead: usize,
    commits: Seq<CommitInfoView>,
    line: Seq<char>,
    name: Seq<char>,
)
    requires
        upstream_of(context.manifest, context.project.project_path) is Ok,
        upload_summary(
            context.project.project_name,
            head,
            upstream_of(context.manifest, context.project.project_path)->Ok_0.0,
            upstream_of(context.manifest, context.project.project_path)->Ok_0.1,
            ahead,
            commits,
            context.request.autosubmit,
        ) is Ok,
        is_yes(line_text(line)),
    ensures
        ({
            let (remote, branch) = upstream_of(
                context.manifest,
                context.project.project_path,
            )->Ok_0;
            let seen = seq![UploadEventView::Head { detached: false }];
            let compared = seen.push(UploadEventView::Commits { branch: head, ahead, commits });
            let answered = compared.push(UploadEventView::Answer(line));
            let named = answered.push(UploadEventView::Branch(name));
            let topic = if context.request.branch_name_as_topic {
                Some(name)
            } else {
                None
            };
            let events = if context.request.branch_name_as_topic {
                named
            } else {
                answered
            };
            let arguments = push_arguments(remote, branch, options_of(context.request, topic));
            &&& upload_run(context, Seq::empty()).1 is ReadHead
            &&& upload_run(context, seen).1 == (UploadActionView::Compare { remote, branch })
            &&& upload_run(context, compared).1 == UploadActionView::Ask(
                upload_summary(
                    context.project.project_name,
                    head,
                    remote,
                    branch,
                    ahead,
                    commits,
                    context.request.autosubmit,
                )->Ok_0,
            )
            &&& context.request.branch_name_as_topic ==> upload_run(context, answered).1
                is ReadBranch
            &&& !context.request.dry_run ==> upload_run(context, events).1 == (
            UploadActionView::Push { directory: context.directory, arguments })
            &&& context.request.dry_run ==> upload_run(context, events).1 == UploadActionView::Show(
                "git "@ + join_with(arguments, " "@),
            )
            &&& upload_run(context, events.push(UploadEventView::Done)).1 is Finish
        }),
{
    let seen = seq![UploadEventView::Head { detached: false }];
    let compared = seen.push(UploadEventView::Commits { branch: head, ahead, commits });
    let answered = compared.push(UploadEventView::Answer(line));
    let named = answered.push(UploadEventView::Branch(name));
    assert(seen.drop_last() =~= Seq::empty());
    assert(compared.drop_last() =~= seen);
    assert(answered.drop_last() =~= compared);
    assert(named.drop_last() =~= answered);
    assert(upload_run(context, seen).0 is Comparing);
    assert(upload_run(context, compared).0 is Asking);
    if context.request.branch_name_as_topic {
        assert(upload_run(context, answered).0 is Naming);
        assert(upload_run(context, named).0 is Pushing);
        assert(named.push(UploadEventView::Done).drop_last() =~= named);
    } else {
        assert(upload_run(context, answered).0 is Pushing);
        assert(answered.push(UploadEventView::Done).drop_last() =~= answered);
    }
}

/// An upload ends where `HEAD` is on no branch, where the project has no branch to go to, where
/// there is nothing to tell of and where the answer is anything but yes, and each is said.
pub proof fn law_upload_is_given_up(
    context: UploadContextView,
    remote: Seq<char>,
    branch: Seq<char>,
    head: Seq<char>,
    ahead: usize,
    commits: Seq<CommitInfoView>,
    line: Seq<char>,
)
    ensures
        ({
            let detached = upload_step(
                context,
                UploadStateView::ReadingHead,
                UploadEventView::Head { detached: true },
            );
            let nowhere = upload_step(
                context,
                UploadStateView::ReadingHead,
                UploadEventView::Head { detached: false },
            );
            let untold = upload_step(
                context,
                UploadStateView::Comparing { remote, branch },
                UploadEventView::Commits { branch: head, ahead, commits },
            );
            let refused = upload_step(
                context,
                UploadStateView::Asking { remote, branch },
                UploadEventView::Answer(line),
            );
            &&& detached.1 == UploadActionView::Fail(UploadErrorView::Detached)
            &&& upstream_of(context.manifest, context.project.project_path) matches Err(error)
                ==> nowhere.1 == UploadActionView::Fail(error)
            &&& upload_summary(
                context.project.project_name,
                head,
                remote,
                branch,
                ahead,
                commits,
                context.request.autosubmit,
            ) matches Err(error) ==> untold.1 == UploadActionView::Fail(error)
            &&& !is_yes(line_text(line)) ==> refused.1 == UploadActionView::Fail(
                UploadErrorView::Aborted,
            )
        }),
{
}

} // verus!
