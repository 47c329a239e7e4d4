//! Bringing the projects of a tree to the revisions that its manifest names.
use vstd::prelude::*;

use crate::depot::add_argument;
use crate::manifest::{operation_dst, operation_src, FileOperation, FileOperationView};
use crate::path::{diff_paths, join_path, joined, parent_of, parent_path, path_difference};
use crate::text::{begins_with, finishes_with, same_text};
use crate::tree::select::ProjectInfoView;
use crate::tree::{CheckoutType, Link, LinkView, ProjectInfo, Tree, TreeConfigView};

verus! {

/// Which refs are fetched.
pub enum FetchTarget {
    /// The revision that the manifest names.
    Upstream,
    /// These branches.
    Specific(Vec<String>),
    /// All of them.
    All,
}

impl FetchTarget {
    /// Which refs a command line asks for.
    pub fn from_options(fetch_all: bool, branches: Option<Vec<String>>) -> (r: FetchTarget)
        ensures
            match r {
                FetchTarget::All => fetch_all,
                FetchTarget::Specific(list) => !fetch_all && branches == Some(list),
                FetchTarget::Upstream => !fetch_all && branches is None,
            },
    {
        if fetch_all {
            FetchTarget::All
        } else {
            match branches {
                Some(list) => FetchTarget::Specific(list),
                None => FetchTarget::Upstream,
            }
        }
    }

    /// The refs that are asked for of a project at the given revision; all where there is no list.
    pub fn targets(&self, revision: &str) -> (r: Option<Vec<String>>)
        ensures
            r.deep_view() == match *self {
                FetchTarget::Upstream => Some(seq![revision@]),
                FetchTarget::Specific(list) => Some(list.deep_view()),
                FetchTarget::All => None,
            },
    {
        match self {
            FetchTarget::Upstream => {
                let mut list: Vec<String> = Vec::new();
                list.push(revision.to_owned());
                assert(list.deep_view() =~= seq![revision@]);
                Some(list)
            },
            FetchTarget::Specific(list) => Some(crate::text::copy_list(list)),
            FetchTarget::All => None,
        }
    }
}

/// Where a project's `HEAD` is.
pub struct Head {
    /// It is on no branch.
    pub detached: bool,
    /// Its short name, where that is text.
    pub shorthand: Option<String>,
    /// The commit that it names, if it names one directly.
    pub target: Option<String>,
}

/// Where a project's `HEAD` is, as a value.
pub struct HeadView {
    pub detached: bool,
    pub shorthand: Option<Seq<char>>,
    pub target: Option<Seq<char>>,
}

impl View for Head {
    type V = HeadView;

    open spec fn view(&self) -> HeadView {
        HeadView {
            detached: self.detached,
            shorthand: self.shorthand.deep_view(),
            target: self.target.deep_view(),
        }
    }
}

/// Why a project is not synced.
pub enum SyncFailure {
    /// It is on this branch.
    OnBranch { branch: String },
    /// It is on a branch whose name is no text.
    NoShorthand,
    /// `HEAD` names no commit.
    NoTarget,
    /// What had to be done could not be done, for the reason given.
    Failed { reason: String },
    /// What happened does not answer what was asked for.
    Unexpected,
}

/// Why a project is not synced, as a value.
pub enum SyncFailureView {
    OnBranch { branch: Seq<char> },
    NoShorthand,
    NoTarget,
    Failed { reason: Seq<char> },
    Unexpected,
}

impl View for SyncFailure {
    type V = SyncFailureView;

    open spec fn view(&self) -> SyncFailureView {
        match self {
            SyncFailure::OnBranch { branch } => SyncFailureView::OnBranch { branch: branch@ },
            SyncFailure::NoShorthand => SyncFailureView::NoShorthand,
            SyncFailure::NoTarget => SyncFailureView::NoTarget,
            SyncFailure::Failed { reason } => SyncFailureView::Failed { reason: reason@ },
            SyncFailure::Unexpected => SyncFailureView::Unexpected,
        }
    }
}

/// What is to be done next for a project.
pub enum SyncAction {
    /// Find out whether the project is in the tree.
    Look,
    /// Bring the project into the tree.
    Clone,
    /// Update its refs from the depot.
    UpdateRefs,
    /// Find out where `HEAD` is.
    ReadHead,
    /// Find the commit of the revision.
    Resolve,
    /// Check the commit out, after making sure that this meets no conflict, and put `HEAD` there.
    Checkout(String),
    /// Put `HEAD` at the commit, which is checked out already.
    Detach(String),
    /// Link the hooks.
    LinkHooks,
    /// Nothing more.
    Finish,
    /// Give up.
    Fail(SyncFailure),
}

/// What is to be done next for a project, as a value.
pub enum SyncActionView {
    Look,
    Clone,
    UpdateRefs,
    ReadHead,
    Resolve,
    Checkout(Seq<char>),
    Detach(Seq<char>),
    LinkHooks,
    Finish,
    Fail(SyncFailureView),
}

impl View for SyncAction {
    type V = SyncActionView;

    open spec fn view(&self) -> SyncActionView {
        match self {
            SyncAction::Look => SyncActionView::Look,
            SyncAction::Clone => SyncActionView::Clone,
            SyncAction::UpdateRefs => SyncActionView::UpdateRefs,
            SyncAction::ReadHead => SyncActionView::ReadHead,
            SyncAction::Resolve => SyncActionView::Resolve,
            SyncAction::Checkout(commit) => SyncActionView::Checkout(commit@),
            SyncAction::Detach(commit) => SyncActionView::Detach(commit@),
            SyncAction::LinkHooks => SyncActionView::LinkHooks,
            SyncAction::Finish => SyncActionView::Finish,
            SyncAction::Fail(failure) => SyncActionView::Fail(failure@),
        }
    }
}

/// What came of what was to be done.
pub enum SyncEvent {
    /// The project is in the tree, or is not.
    Exists(bool),
    /// It was done.
    Done,
    /// `HEAD` is there.
    Head(Head),
    /// The revision is this commit.
    Commit(String),
    /// It could not be done, for the reason given.
    Failed(String),
}

/// What came of what was to be done, as a value.
pub enum SyncEventView {
    Exists(bool),
    Done,
    Head(HeadView),
    Commit(Seq<char>),
    Failed(Seq<char>),
}

impl View for SyncEvent {
    type V = SyncEventView;

    open spec fn view(&self) -> SyncEventView {
        match self {
            SyncEvent::Exists(exists) => SyncEventView::Exists(*exists),
            SyncEvent::Done => SyncEventView::Done,
            SyncEvent::Head(head) => SyncEventView::Head(head@),
            SyncEvent::Commit(commit) => SyncEventView::Commit(commit@),
            SyncEvent::Failed(reason) => SyncEventView::Failed(reason@),
        }
    }
}

/// How far the sync of a project has got.
pub enum SyncState {
    Looking,
    Cloning,
    UpdatingRefs,
    ReadingHead,
    /// The commit of the revision is looked for, while `HEAD` is there.
    Resolving(Head),
    Moving,
    Linking,
    Finished,
}

/// How far the sync of a project has got, as a value.
pub enum SyncStateView {
    Looking,
    Cloning,
    UpdatingRefs,
    ReadingHead,
    Resolving(HeadView),
    Moving,
    Linking,
    Finished,
}

impl View for SyncState {
    type V = SyncStateView;

    open spec fn view(&self) -> SyncStateView {
        match self {
            SyncState::Looking => SyncStateView::Looking,
            SyncState::Cloning => SyncStateView::Cloning,
            SyncState::UpdatingRefs => SyncStateView::UpdatingRefs,
            SyncState::ReadingHead => SyncStateView::ReadingHead,
            SyncState::Resolving(head) => SyncStateView::Resolving(head@),
            SyncState::Moving => SyncStateView::Moving,
            SyncState::Linking => SyncStateView::Linking,
            SyncState::Finished => SyncStateView::Finished,
        }
    }
}

/// The end of a project's sync.
pub open spec fn given_up(failure: SyncFailureView) -> (SyncStateView, SyncActionView) {
    (SyncStateView::Finished, SyncActionView::Fail(failure))
}

/// What follows once `HEAD` is known: a project on a branch is left alone, unless it may leave it.
pub open spec fn head_known(head: HeadView, detach: bool) -> (SyncStateView, SyncActionView) {
    if head.detached || detach {
        (SyncStateView::Resolving(head), SyncActionView::Resolve)
    } else {
        match head.shorthand {
            Some(branch) => given_up(SyncFailureView::OnBranch { branch }),
            None => given_up(SyncFailureView::NoShorthand),
        }
    }
}

/// What follows once the commit of the revision is known: `HEAD` goes there, unless it is there.
pub open spec fn commit_known(head: HeadView, commit: Seq<char>) -> (
    SyncStateView,
    SyncActionView,
) {
    match head.target {
        None => given_up(SyncFailureView::NoTarget),
        Some(current) => if current != commit {
            (SyncStateView::Moving, SyncActionView::Checkout(commit))
        } else if !head.detached {
            (SyncStateView::Moving, SyncActionView::Detach(commit))
        } else {
            (SyncStateView::Linking, SyncActionView::LinkHooks)
        },
    }
}

/// What follows an event.
pub open spec fn sync_step(
    state: SyncStateView,
    event: SyncEventView,
    checkout: CheckoutType,
    detach: bool,
) -> (SyncStateView, SyncActionView) {
    match event {
        SyncEventView::Failed(reason) => given_up(SyncFailureView::Failed { reason }),
        SyncEventView::Exists(exists) => if !(state is Looking) {
            given_up(SyncFailureView::Unexpected)
        } else if exists {
            (SyncStateView::UpdatingRefs, SyncActionView::UpdateRefs)
        } else if checkout == CheckoutType::Checkout {
            (SyncStateView::Cloning, SyncActionView::Clone)
        } else {
            (SyncStateView::Finished, SyncActionView::Finish)
        },
        SyncEventView::Done => match state {
            SyncStateView::Cloning => (SyncStateView::Linking, SyncActionView::LinkHooks),
            SyncStateView::UpdatingRefs => if checkout == CheckoutType::Checkout {
                (SyncStateView::ReadingHead, SyncActionView::ReadHead)
            } else {
                (SyncStateView::Finished, SyncActionView::Finish)
            },
            SyncStateView::Moving => (SyncStateView::Linking, SyncActionView::LinkHooks),
            SyncStateView::Linking => (SyncStateView::Finished, SyncActionView::Finish),
            _ => given_up(SyncFailureView::Unexpected),
        },
        SyncEventView::Head(head) => if state is ReadingHead {
            head_known(head, detach)
        } else {
            given_up(SyncFailureView::Unexpected)
        },
        SyncEventView::Commit(commit) => match state {
            SyncStateView::Resolving(head) => commit_known(head, commit),
            _ => given_up(SyncFailureView::Unexpected),
        },
    }
}

/// How the sync of a project begins.
pub open spec fn sync_begin(checkout: CheckoutType) -> (SyncStateView, SyncActionView) {
    if checkout == CheckoutType::NoCheckout {
        (SyncStateView::Finished, SyncActionView::Finish)
    } else {
        (SyncStateView::Looking, SyncActionView::Look)
    }
}

/// The commit of a revision is looked for only while `HEAD` may move.
pub open spec fn may_move(state: SyncStateView, detach: bool) -> bool {
    state matches SyncStateView::Resolving(head) ==> head.detached || detach
}

/// Whatever happens, a commit is checked out only where `HEAD` is on no branch or may leave it; and
/// every step keeps that so.
pub proof fn law_branches_left_alone(
    state: SyncStateView,
    event: SyncEventView,
    checkout: CheckoutType,
    detach: bool,
)
    requires
        may_move(state, detach),
    ensures
        may_move(sync_step(state, event, checkout, detach).0, detach),
        sync_step(state, event, checkout, detach).1 is Checkout ==> (state matches
            SyncStateView::Resolving(head) && (head.detached || detach)),
{
}

/// Nothing is checked out or cloned unless a checkout was asked for.
pub proof fn law_no_unasked_checkout(
    state: SyncStateView,
    event: SyncEventView,
    checkout: CheckoutType,
    detach: bool,
)
    requires
        checkout != CheckoutType::Checkout,
        state is Looking || state is UpdatingRefs || state is Finished,
    ensures
        ({
            let next = sync_step(state, event, checkout, detach);
            &&& next.0 is Looking || next.0 is UpdatingRefs || next.0 is Finished
            &&& !(next.1 is Checkout) && !(next.1 is Clone) && !(next.1 is Detach)
        }),
{
}

/// How far the sync of a project has come after some events, and what is to be done then.
pub open spec fn sync_run(
    events: Seq<SyncEventView>,
    checkout: CheckoutType,
    detach: bool,
) -> (SyncStateView, SyncActionView)
    decreases events.len(),
{
    if events.len() == 0 {
        sync_begin(checkout)
    } else {
        sync_step(sync_run(events.drop_last(), checkout, detach).0, events.last(), checkout, detach)
    }
}

/// Unless branches may be left, whatever has happened, a commit is checked out only once `HEAD` was
/// seen to be on no branch, and no branch is left.
pub proof fn law_run_leaves_branches_alone(
    events: Seq<SyncEventView>,
    checkout: CheckoutType,
    detach: bool,
)
    requires
        !detach,
    ensures
        sync_run(events, checkout, detach).1 is Checkout ==> exists|i: int|
            0 <= i < events.len() && (#[trigger] events[i] matches SyncEventView::Head(head)
                && head.detached),
        !(sync_run(events, checkout, detach).1 is Detach),
{
    if events.len() > 0 {
        lemma_run_saw_head(events.drop_last(), checkout, detach);
        let front = events.drop_last();
        if sync_run(events, checkout, detach).1 is Checkout {
            let i = choose|i: int|
                0 <= i < front.len() && (#[trigger] front[i] matches SyncEventView::Head(head)
                    && head.detached);
            assert(events[i] == front[i]);
        }
    }
}

proof fn lemma_run_saw_head(events: Seq<SyncEventView>, checkout: CheckoutType, detach: bool)
    requires
        !detach,
    ensures
        sync_run(events, checkout, detach).0 matches SyncStateView::Resolving(head)
            ==> head.detached && exists|i: int|
            0 <= i < events.len() && (#[trigger] events[i] matches SyncEventView::Head(head)
                && head.detached),
{
    if events.len() > 0 {
        assert(events[events.len() - 1] == events.last());
    }
}

/// The steps that are left at most.
pub open spec fn steps_to_go(state: SyncStateView) -> nat {
    match state {
        SyncStateView::Looking => 6,
        SyncStateView::UpdatingRefs => 5,
        SyncStateView::ReadingHead => 4,
        SyncStateView::Resolving(_) => 3,
        SyncStateView::Cloning => 2,
        SyncStateView::Moving => 2,
        SyncStateView::Linking => 1,
        SyncStateView::Finished => 0,
    }
}

/// The sync of a project comes to an end: every step leaves fewer steps to go.
pub proof fn law_sync_ends(
    state: SyncStateView,
    event: SyncEventView,
    checkout: CheckoutType,
    detach: bool,
)
    requires
        !(state is Finished),
    ensures
        steps_to_go(sync_step(state, event, checkout, detach).0) < steps_to_go(state),
{
}

/// The sync of one project.
pub struct ProjectSync {
    state: SyncState,
    checkout: CheckoutType,
    detach: bool,
}

/// The sync of one project, as a value.
pub struct ProjectSyncView {
    pub state: SyncStateView,
    pub checkout: CheckoutType,
    pub detach: bool,
}

impl View for ProjectSync {
    type V = ProjectSyncView;

    closed spec fn view(&self) -> ProjectSyncView {
        ProjectSyncView { state: self.state@, checkout: self.checkout, detach: self.detach }
    }
}

impl ProjectSync {
    /// Begins, and says what is to be done first.
    pub fn begin(checkout: CheckoutType, detach: bool) -> (r: (ProjectSync, SyncAction))
        ensures
            r.0@ == (ProjectSyncView { state: sync_begin(checkout).0, checkout, detach }),
            r.1@ == sync_begin(checkout).1,
    {
        if checkout == CheckoutType::NoCheckout {
            (
                ProjectSync { state: SyncState::Finished, checkout, detach },
                SyncAction::Finish,
            )
        } else {
            (ProjectSync { state: SyncState::Looking, checkout, detach }, SyncAction::Look)
        }
    }

    /// Takes what came of the last action, and says what is to be done next.
    pub fn next(&mut self, event: SyncEvent) -> (r: SyncAction)
        ensures
            (final(self)@.state, r@) == sync_step(
                old(self)@.state,
                event@,
                old(self)@.checkout,
                old(self)@.detach,
            ),
            final(self)@.checkout == old(self)@.checkout,
            final(self)@.detach == old(self)@.detach,
    {
        let mut state: SyncState = SyncState::Finished;
        std::mem::swap(&mut state, &mut self.state);
        match event {
            SyncEvent::Failed(reason) => SyncAction::Fail(SyncFailure::Failed { reason }),
            SyncEvent::Exists(exists) => match state {
                SyncState::Looking => if exists {
                    self.state = SyncState::UpdatingRefs;
                    SyncAction::UpdateRefs
                } else if self.checkout == CheckoutType::Checkout {
                    self.state = SyncState::Cloning;
                    SyncAction::Clone
                } else {
                    SyncAction::Finish
                },
                _ => SyncAction::Fail(SyncFailure::Unexpected),
            },
            SyncEvent::Done => match state {
                SyncState::Cloning => {
                    self.state = SyncState::Linking;
                    SyncAction::LinkHooks
                },
                SyncState::UpdatingRefs => if self.checkout == CheckoutType::Checkout {
                    self.state = SyncState::ReadingHead;
                    SyncAction::ReadHead
                } else {
                    SyncAction::Finish
                },
                SyncState::Moving => {
                    self.state = SyncState::Linking;
                    SyncAction::LinkHooks
                },
                SyncState::Linking => SyncAction::Finish,
                _ => SyncAction::Fail(SyncFailure::Unexpected),
            },
            SyncEvent::Head(head) => match state {
                SyncState::ReadingHead => self.head_known(head),
                _ => SyncAction::Fail(SyncFailure::Unexpected),
            },
            SyncEvent::Commit(commit) => match state {
                SyncState::Resolving(head) => self.commit_known(head, commit),
                _ => SyncAction::Fail(SyncFailure::Unexpected),
            },
        }
    }

    /// Goes on once `HEAD` is known.
    fn head_known(&mut self, head: Head) -> (r: SyncAction)
        requires
            old(self)@.state is Finished,
        ensures
            (final(self)@.state, r@) == head_known(head@, old(self)@.detach),
            final(self)@.checkout == old(self)@.checkout,
            final(self)@.detach == old(self)@.detach,
    {
        if head.detached || self.detach {
            self.state = SyncState::Resolving(head);
            return SyncAction::Resolve;
        }
        match head.shorthand {
            Some(branch) => SyncAction::Fail(SyncFailure::OnBranch { branch }),
            None => SyncAction::Fail(SyncFailure::NoShorthand),
        }
    }

    /// Goes on once the commit of the revision is known.
    fn commit_known(&mut self, head: Head, commit: String) -> (r: SyncAction)
        requires
            old(self)@.state is Finished,
        ensures
            (final(self)@.state, r@) == commit_known(head@, commit@),
            final(self)@.checkout == old(self)@.checkout,
            final(self)@.detach == old(self)@.detach,
    {
        match head.target {
            None => SyncAction::Fail(SyncFailure::NoTarget),
            Some(current) => if !same_text(current.as_str(), commit.as_str()) {
                self.state = SyncState::Moving;
                SyncAction::Checkout(commit)
            } else if !head.detached {
                self.state = SyncState::Moving;
                SyncAction::Detach(commit)
            } else {
                self.state = SyncState::Linking;
                SyncAction::LinkHooks
            },
        }
    }
}

/// There is no relative path from one place to the other.
pub struct NoDifference {
    pub from: String,
    pub to: String,
}

/// The directory of a project's hooks.
pub open spec fn hooks_dir(project: Seq<char>) -> Seq<char> {
    joined(joined(project, ".git"@), "hooks"@)
}

/// The link to one of the tree's hooks, where `up` leads from a project's hooks to the root.
pub open spec fn hook_link(up: Seq<char>, project: Seq<char>, name: Seq<char>) -> LinkView {
    LinkView {
        target: joined(joined(joined(up, ".pore"@), "hooks"@), name),
        path: joined(hooks_dir(project), name),
    }
}

/// The links from a project's hooks to those of the tree, where `up` leads from the project's
/// hooks to the root.
pub fn hook_links_from(up: &str, project: &str) -> (r: Vec<Link>)
    ensures
        r.deep_view() == seq![hook_link(up@, project@, "commit-msg"@)],
{
    let hooks: Vec<crate::hooks::Hook> = crate::hooks::hooks();
    let name: &'static str = hooks[0].name;
    let dir: String = join_path(join_path(project, ".git").as_str(), "hooks");
    let source: String = join_path(join_path(up, ".pore").as_str(), "hooks");
    let mut links: Vec<Link> = Vec::new();
    links.push(
        Link {
            target: join_path(source.as_str(), name),
            path: join_path(dir.as_str(), name),
        },
    );
    assert(links.deep_view() =~= seq![hook_link(up@, project@, "commit-msg"@)]);
    links
}

/// The links from a project's hooks to those of the tree.
pub fn hook_links(root: &str, project: &str) -> (r: Result<Vec<Link>, NoDifference>)
    ensures
        match path_difference(root@, hooks_dir(project@)) {
            Some(up) => r is Ok && r->Ok_0.deep_view() == seq![
                hook_link(up, project@, "commit-msg"@),
            ],
            None => r is Err && r->Err_0.from@ == hooks_dir(project@) && r->Err_0.to@ == root@,
        },
{
    let dir: String = join_path(join_path(project, ".git").as_str(), "hooks");
    match diff_paths(root, dir.as_str()) {
        Some(up) => Ok(hook_links_from(up.as_str(), project)),
        None => Err(NoDifference { from: dir, to: root.to_owned() }),
    }
}

/// How a file of a project comes to its other place, where whatever is there is removed first.
pub enum FileStep {
    /// A link with this target is made.
    Link { target: String, path: String },
    /// The file is copied.
    Copy { src: String, path: String },
    /// The place is the root of the file system, so that the sync fails.
    NoParent { path: String },
    /// There is no relative path to the file, so that the sync fails.
    NoDifference { path: String, src: String },
}

/// How a file of a project comes to its other place, as a value.
pub enum FileStepView {
    Link { target: Seq<char>, path: Seq<char> },
    Copy { src: Seq<char>, path: Seq<char> },
    NoParent { path: Seq<char> },
    NoDifference { path: Seq<char>, src: Seq<char> },
}

impl View for FileStep {
    type V = FileStepView;

    open spec fn view(&self) -> FileStepView {
        match self {
            FileStep::Link { target, path } => FileStepView::Link { target: target@, path: path@ },
            FileStep::Copy { src, path } => FileStepView::Copy { src: src@, path: path@ },
            FileStep::NoParent { path } => FileStepView::NoParent { path: path@ },
            FileStep::NoDifference { path, src } => FileStepView::NoDifference {
                path: path@,
                src: src@,
            },
        }
    }
}

impl DeepView for FileStep {
    type V = FileStepView;

    open spec fn deep_view(&self) -> FileStepView {
        self@
    }
}

/// How a file of a project at `project` comes to its other place in the tree at `root`: a link is
/// relative to the directory that holds it.
pub open spec fn file_step(
    root: Seq<char>,
    project: Seq<char>,
    operation: FileOperationView,
) -> FileStepView {
    let src = joined(joined(root, project), operation_src(operation));
    let path = joined(root, operation_dst(operation));
    match operation {
        FileOperationView::CopyFile { .. } => FileStepView::Copy { src, path },
        FileOperationView::LinkFile { .. } => match parent_of(path) {
            None => FileStepView::NoParent { path },
            Some(base) => match path_difference(src, base) {
                Some(target) => FileStepView::Link { target, path },
                None => FileStepView::NoDifference { path, src },
            },
        },
    }
}

/// How the files of a project come to their other places.
pub open spec fn file_steps(root: Seq<char>, project: ProjectInfoView) -> Seq<FileStepView> {
    project.file_ops.map_values(
        |operation: FileOperationView| file_step(root, project.project_path, operation),
    )
}

/// The step for a link, from what the way from its directory to the file is.
pub fn link_step(path: String, src: String, way: Option<String>) -> (r: FileStep)
    ensures
        r@ == match way {
            Some(target) => FileStepView::Link { target: target@, path: path@ },
            None => FileStepView::NoDifference { path: path@, src: src@ },
        },
{
    match way {
        Some(target) => FileStep::Link { target, path },
        None => FileStep::NoDifference { path, src },
    }
}

/// The paths of the projects.
pub open spec fn project_paths(projects: Seq<ProjectInfoView>) -> Seq<Seq<char>> {
    projects.map_values(|p: ProjectInfoView| p.project_path)
}

impl Tree {
    /// The manifest as a project, which is synced before the others.
    pub fn manifest_project(&self) -> (r: ProjectInfo)
        ensures
            r@ == (ProjectInfoView {
                project_path: ".pore/manifest"@,
                project_name: self.config.manifest@,
                revision: self.config.branch@,
                file_ops: Seq::empty(),
            }),
    {
        let file_ops: Vec<FileOperation> = Vec::new();
        assert(file_ops.deep_view() =~= Seq::empty());
        ProjectInfo {
            project_path: ".pore/manifest".to_owned(),
            project_name: self.config.manifest.clone(),
            revision: self.config.branch.clone(),
            file_ops,
        }
    }

    /// How one file of a project comes to its other place.
    fn file_operation(&self, project_path: &str, operation: &FileOperation) -> (r: FileStep)
        ensures
            r@ == file_step(self.path@, project_path@, operation@),
    {
        let project: String = join_path(self.path.as_str(), project_path);
        let src: String = join_path(project.as_str(), operation.src());
        let path: String = join_path(self.path.as_str(), operation.dst());
        match operation {
            FileOperation::CopyFile { .. } => FileStep::Copy { src, path },
            FileOperation::LinkFile { .. } => match parent_path(path.as_str()) {
                None => FileStep::NoParent { path },
                Some(base) => {
                    let way: Option<String> = diff_paths(src.as_str(), base.as_str());
                    link_step(path, src, way)
                },
            },
        }
    }

    /// How the files of a project come to their other places.
    pub fn file_operations(&self, project: &ProjectInfo) -> (r: Vec<FileStep>)
        ensures
            r.deep_view() == file_steps(self.path@, project@),
    {
        let ghost all = project.file_ops.deep_view();
        let ghost expected = file_steps(self.path@, project@);
        let mut r: Vec<FileStep> = Vec::new();
        let mut i: usize = 0;
        assert(r.deep_view() =~= expected.take(0));
        while i < project.file_ops.len()
            invariant
                i <= project.file_ops.len(),
                all == project.file_ops.deep_view(),
                expected == file_steps(self.path@, project@),
                r.deep_view() == expected.take(i as int),
            decreases project.file_ops.len() - i,
        {
            let ghost before = r.deep_view();
            assert(all[i as int] == project.file_ops@[i as int]@);
            let step: FileStep = self.file_operation(
                project.project_path.as_str(),
                &project.file_ops[i],
            );
            assert(step@ == expected[i as int]);
            r.push(step);
            assert(r.deep_view() =~= before.push(expected[i as int]));
            assert(r.deep_view() =~= expected.take(i + 1));
            i += 1;
        }
        assert(r.deep_view() =~= expected);
        r
    }

    /// The place of a project.
    pub fn project_dir(&self, project: &ProjectInfo) -> (r: String)
        ensures
            r@ == joined(self.path@, project@.project_path),
    {
        join_path(self.path.as_str(), project.project_path.as_str())
    }

    /// Remembers which projects the tree holds.
    pub fn record_projects(&mut self, projects: &Vec<ProjectInfo>)
        ensures
            final(self).path@ == old(self).path@,
            final(self).config@ == (TreeConfigView {
                projects: project_paths(projects.deep_view()),
                ..old(self).config@
            }),
    {
        let ghost all = projects.deep_view();
        let mut paths: Vec<String> = Vec::new();
        let mut i: usize = 0;
        assert(paths.deep_view() =~= project_paths(all).take(0));
        while i < projects.len()
            invariant
                i <= projects.len(),
                all == projects.deep_view(),
                paths.deep_view() == project_paths(all).take(i as int),
            decreases projects.len() - i,
        {
            assert(all[i as int] == projects@[i as int]@);
            add_argument(&mut paths, projects[i].project_path.clone());
            assert(paths.deep_view() =~= project_paths(all).take(i + 1));
            i += 1;
        }
        assert(paths.deep_view() =~= project_paths(all));
        self.config.projects = paths;
    }
}

/// A project that is not there yet is cloned and gets its hooks, and nothing else; where no
/// checkout was asked for, it stays away.
pub proof fn law_new_project_is_cloned(checkout: CheckoutType, detach: bool)
    ensures
        ({
            let missing = seq![SyncEventView::Exists(false)];
            let cloned = missing.push(SyncEventView::Done);
            let linked = cloned.push(SyncEventView::Done);
            &&& sync_run(Seq::empty(), CheckoutType::Checkout, detach).1 is Look
            &&& sync_run(missing, CheckoutType::Checkout, detach).1 is Clone
            &&& sync_run(cloned, CheckoutType::Checkout, detach).1 is LinkHooks
            &&& sync_run(linked, CheckoutType::Checkout, detach).1 is Finish
            &&& sync_run(missing, CheckoutType::RefsOnly, detach).1 is Finish
            &&& sync_run(Seq::empty(), CheckoutType::NoCheckout, detach).1 is Finish
        }),
{
    let missing = seq![SyncEventView::Exists(false)];
    let cloned = missing.push(SyncEventView::Done);
    let linked = cloned.push(SyncEventView::Done);
    assert(missing.drop_last() =~= Seq::empty());
    assert(cloned.drop_last() =~= missing);
    assert(linked.drop_last() =~= cloned);
    assert(sync_run(Seq::empty(), CheckoutType::Checkout, detach).0 is Looking);
    assert(sync_run(Seq::empty(), CheckoutType::RefsOnly, detach).0 is Looking);
    assert(sync_run(missing, CheckoutType::Checkout, detach).0 is Cloning);
    assert(sync_run(cloned, CheckoutType::Checkout, detach).0 is Linking);
}

/// A project that is there has its refs updated, and in a checkout goes to the commit of its
/// revision: it is checked out where `HEAD` is elsewhere, and only detached where `HEAD` is at the
/// commit but on a branch; then it gets its hooks. Where refs alone are updated, nothing follows.
pub proof fn law_project_goes_to_its_commit(head: HeadView, commit: Seq<char>, detach: bool)
    requires
        head.detached || detach,
        head.target is Some,
    ensures
        ({
            let there = seq![SyncEventView::Exists(true)];
            let updated = there.push(SyncEventView::Done);
            let read = updated.push(SyncEventView::Head(head));
            let resolved = read.push(SyncEventView::Commit(commit));
            let moved = resolved.push(SyncEventView::Done);
            let linked = moved.push(SyncEventView::Done);
            &&& sync_run(there, CheckoutType::Checkout, detach).1 is UpdateRefs
            &&& sync_run(there, CheckoutType::RefsOnly, detach).1 is UpdateRefs
            &&& sync_run(updated, CheckoutType::RefsOnly, detach).1 is Finish
            &&& sync_run(updated, CheckoutType::Checkout, detach).1 is ReadHead
            &&& sync_run(read, CheckoutType::Checkout, detach).1 is Resolve
            &&& head.target != Some(commit) ==> sync_run(resolved, CheckoutType::Checkout, detach).1
                == SyncActionView::Checkout(commit)
            &&& head.target == Some(commit) && !head.detached ==> sync_run(
                resolved,
                CheckoutType::Checkout,
                detach,
            ).1 == SyncActionView::Detach(commit)
            &&& head.target == Some(commit) && head.detached ==> sync_run(
                resolved,
                CheckoutType::Checkout,
                detach,
            ).1 is LinkHooks && sync_run(moved, CheckoutType::Checkout, detach).1 is Finish
            &&& head.target != Some(commit) || !head.detached ==> sync_run(
                moved,
                CheckoutType::Checkout,
                detach,
            ).1 is LinkHooks && sync_run(linked, CheckoutType::Checkout, detach).1 is Finish
        }),
{
    let there = seq![SyncEventView::Exists(true)];
    let updated = there.push(SyncEventView::Done);
    let read = updated.push(SyncEventView::Head(head));
    let resolved = read.push(SyncEventView::Commit(commit));
    let moved = resolved.push(SyncEventView::Done);
    let linked = moved.push(SyncEventView::Done);
    assert(there.drop_last() =~= Seq::empty());
    assert(updated.drop_last() =~= there);
    assert(read.drop_last() =~= updated);
    assert(resolved.drop_last() =~= read);
    assert(moved.drop_last() =~= resolved);
    assert(linked.drop_last() =~= moved);
    assert(sync_run(Seq::empty(), CheckoutType::Checkout, detach).0 is Looking);
    assert(sync_run(Seq::empty(), CheckoutType::RefsOnly, detach).0 is Looking);
    assert(sync_run(there, CheckoutType::Checkout, detach).0 is UpdatingRefs);
    assert(sync_run(there, CheckoutType::RefsOnly, detach).0 is UpdatingRefs);
    assert(sync_run(updated, CheckoutType::Checkout, detach).0 is ReadingHead);
    assert(sync_run(read, CheckoutType::Checkout, detach).0 == SyncStateView::Resolving(head));
    if head.target == Some(commit) && head.detached {
        assert(sync_run(resolved, CheckoutType::Checkout, detach).0 is Linking);
    } else {
        assert(sync_run(resolved, CheckoutType::Checkout, detach).0 is Moving);
        assert(sync_run(moved, CheckoutType::Checkout, detach).0 is Linking);
    }
}

/// The sync of a project ends at once where something fails, wherever it has come to, and where
/// `HEAD` is on a branch that it may not leave; both are said.
pub proof fn law_sync_is_given_up(
    state: SyncStateView,
    checkout: CheckoutType,
    detach: bool,
    reason: Seq<char>,
    branch: Seq<char>,
    target: Option<Seq<char>>,
)
    ensures
        ({
            let failed = sync_step(state, SyncEventView::Failed(reason), checkout, detach);
            let on_branch = sync_step(
                SyncStateView::ReadingHead,
                SyncEventView::Head(HeadView { detached: false, shorthand: Some(branch), target }),
                checkout,
                false,
            );
            &&& failed.0 is Finished
            &&& failed.1 == SyncActionView::Fail(SyncFailureView::Failed { reason })
            &&& on_branch.0 is Finished
            &&& on_branch.1 == SyncActionView::Fail(SyncFailureView::OnBranch { branch })
        }),
{
}

/// What happens when it cannot have been asked for ends the sync of a project.
pub proof fn law_unasked_events_end_sync(
    state: SyncStateView,
    head: HeadView,
    commit: Seq<char>,
    exists: bool,
    checkout: CheckoutType,
    detach: bool,
)
    ensures
        ({
            let unexpected = SyncActionView::Fail(SyncFailureView::Unexpected);
            &&& !(state is Looking) ==> sync_step(
                state,
                SyncEventView::Exists(exists),
                checkout,
                detach,
            ).1 == unexpected
            &&& !(state is ReadingHead) ==> sync_step(
                state,
                SyncEventView::Head(head),
                checkout,
                detach,
            ).1 == unexpected
            &&& !(state is Resolving) ==> sync_step(
                state,
                SyncEventView::Commit(commit),
                checkout,
                detach,
            ).1 == unexpected
            &&& state is Looking || state is ReadingHead || state is Resolving || state is Finished
                ==> sync_step(state, SyncEventView::Done, checkout, detach).1 == unexpected
        }),
{
}

/// Every file of a project comes to its other place, in order: from the place of the project in the
/// tree to its place in the tree, as a copy or as a link, whichever was asked for. What a link
/// holds is the way from the directory around it.
pub proof fn law_every_file_is_placed(root: Seq<char>, project: ProjectInfoView, i: int)
    requires
        0 <= i < project.file_ops.len(),
    ensures
        ({
            let steps = file_steps(root, project);
            let from = joined(root, project.project_path);
            &&& steps.len() == project.file_ops.len()
            &&& project.file_ops[i] matches FileOperationView::CopyFile { src, dst } ==> steps[i]
                == (FileStepView::Copy { src: joined(from, src), path: joined(root, dst) })
            &&& project.file_ops[i] matches FileOperationView::LinkFile { src, dst } ==> {
                let path = joined(root, dst);
                &&& parent_of(path) is None ==> steps[i] == (FileStepView::NoParent { path })
                &&& parent_of(path) matches Some(around) ==> match path_difference(
                    joined(from, src),
                    around,
                ) {
                    Some(target) => steps[i] == (FileStepView::Link { target, path }),
                    None => steps[i] == (FileStepView::NoDifference {
                        path,
                        src: joined(from, src),
                    }),
                }
            }
        }),
{
}

/// A hook of a project is a link, in the directory of the project's hooks, to the hook of the same
/// name of the tree.
pub proof fn law_hooks_are_linked(up: Seq<char>, project: Seq<char>, name: Seq<char>)
    requires
        up.len() > 0,
        !finishes_with(up, '/'),
        project.len() > 0,
        !finishes_with(project, '/'),
        !begins_with(name, '/'),
    ensures
        hook_link(up, project, name).target == up + "/.pore/hooks/"@ + name,
        hook_link(up, project, name).path == project + "/.git/hooks/"@ + name,
        hooks_dir(project) == project + "/.git/hooks"@,
{
    reveal_strlit(".pore");
    reveal_strlit("hooks");
    reveal_strlit(".git");
    reveal_strlit("/.pore/hooks/");
    reveal_strlit("/.git/hooks/");
    reveal_strlit("/.git/hooks");
    let pore = joined(up, ".pore"@);
    assert(pore =~= up + seq!['/'] + ".pore"@);
    assert(hook_link(up, project, name).target =~= up + "/.pore/hooks/"@ + name);
    let git = joined(project, ".git"@);
    assert(git =~= project + seq!['/'] + ".git"@);
    assert(hooks_dir(project) =~= project + "/.git/hooks"@);
    assert(hook_link(up, project, name).path =~= project + "/.git/hooks/"@ + name);
}

/// A tree remembers the path of every project, in order.
pub proof fn law_paths_are_remembered(projects: Seq<ProjectInfoView>, i: int)
    requires
        0 <= i < projects.len(),
    ensures
        project_paths(projects).len() == projects.len(),
        project_paths(projects)[i] == projects[i].project_path,
{
}

/// All refs are fetched where all are asked for, whatever else is; else the branches that are asked
/// for are, all of them and in order; else the revision of the project.
pub proof fn law_fetched_refs(
    fetch_all: bool,
    branches: Option<Vec<String>>,
    target: FetchTarget,
    revision: &str,
    refs: Option<Vec<String>>,
)
    requires
        call_ensures(FetchTarget::from_options, (fetch_all, branches), target),
        call_ensures(FetchTarget::targets, (&target, revision), refs),
    ensures
        fetch_all ==> refs is None,
        !fetch_all ==> refs is Some,
        !fetch_all ==> (branches matches Some(list) ==> refs->0.deep_view() == list.deep_view()),
        !fetch_all && branches is None ==> refs->0.deep_view() == seq![revision@],
{
}

/// The manifest is a project like the others: it is in the tree under `.pore`, at the branch of the
/// tree.
pub proof fn law_manifest_is_a_project(tree: &Tree, project: ProjectInfo)
    requires
        call_ensures(Tree::manifest_project, (tree,), project),
    ensures
        project@.project_path == ".pore/manifest"@,
        project@.project_name == tree.config.manifest@,
        project@.revision == tree.config.branch@,
        project@.file_ops.len() == 0,
{
}

/// A project is given up where `HEAD` is on a branch without a name that it may not leave, and
/// where it is at no commit; leaving is tried only where it may be.
pub proof fn law_head_must_be_known(
    head: HeadView,
    commit: Seq<char>,
    checkout: CheckoutType,
    detach: bool,
)
    ensures
        ({
            let read = sync_step(
                SyncStateView::ReadingHead,
                SyncEventView::Head(head),
                checkout,
                detach,
            );
            let resolved = sync_step(
                SyncStateView::Resolving(head),
                SyncEventView::Commit(commit),
                checkout,
                detach,
            );
            &&& head.detached || detach ==> read.1 is Resolve
            &&& !head.detached && !detach && head.shorthand is None ==> read.1
                == SyncActionView::Fail(SyncFailureView::NoShorthand)
            &&& head.target is None ==> resolved.1 == SyncActionView::Fail(
                SyncFailureView::NoTarget,
            )
        }),
{
}

/// A project gets the hook of the tree, by the way from its hooks to the root, and none where there
/// is no such way.
pub proof fn law_project_gets_hook(root: &str, project: &str, r: Result<Vec<Link>, NoDifference>)
    requires
        call_ensures(hook_links, (root, project), r),
    ensures
        ({
            let place = joined(joined(project@, ".git"@), "hooks"@);
            let way = path_difference(root@, place);
            &&& r is Ok <==> way is Some
            &&& r is Ok ==> {
                &&& r->Ok_0@.len() == 1
                &&& r->Ok_0@[0].path@ == joined(place, "commit-msg"@)
                &&& r->Ok_0@[0].target@ == joined(
                    joined(joined(way->0, ".pore"@), "hooks"@),
                    "commit-msg"@,
                )
            }
        }),
{
    if r is Ok {
        let links = r->Ok_0.deep_view();
        assert(links.len() == 1);
        assert(links[0] == r->Ok_0@[0]@);
    }
}

/// A link is made where there is a way to its file, and holds that way.
pub proof fn law_link_holds_way(path: String, src: String, way: Option<String>, step: FileStep)
    requires
        call_ensures(link_step, (path, src, way), step),
    ensures
        way matches Some(target) ==> step@ == (FileStepView::Link {
            target: target@,
            path: path@,
        }),
        way is None ==> step@ == (FileStepView::NoDifference { path: path@, src: src@ }),
{
}

} // verus!
