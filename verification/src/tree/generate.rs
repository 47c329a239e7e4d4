//! Writing the current state of a tree into a manifest.
use vstd::prelude::*;

use crate::lists::{find_first, lemma_find_from};
use crate::manifest::collections::{entry_at, ordered_paths};
use crate::manifest::{Manifest, ManifestView, ProjectView};
use crate::manifest::serializer::serialized;
use crate::path::components;
use crate::pool::check_failed;
use crate::tree::Tree;

verus! {

/// The path of a project and the commit that it is at.
pub struct ProjectCommit {
    pub path: String,
    pub commit: String,
}

/// The path of a project and the commit that it is at, as a value.
pub struct ProjectCommitView {
    pub path: Seq<char>,
    pub commit: Seq<char>,
}

impl View for ProjectCommit {
    type V = ProjectCommitView;

    open spec fn view(&self) -> ProjectCommitView {
        ProjectCommitView { path: self.path@, commit: self.commit@ }
    }
}

impl DeepView for ProjectCommit {
    type V = ProjectCommitView;

    open spec fn deep_view(&self) -> ProjectCommitView {
        self@
    }
}

/// The commit that the project at a path is at, however the path is spelt: the last that is given.
pub open spec fn commit_at(commits: Seq<ProjectCommitView>, path: Seq<char>) -> Option<Seq<char>>
    decreases commits.len(),
{
    if commits.len() == 0 {
        None
    } else if components(commits.last().path) == components(path) {
        Some(commits.last().commit)
    } else {
        commit_at(commits.drop_last(), path)
    }
}

/// A project at its commit, if there is one for its path.
pub open spec fn at_commit(
    entry: (Seq<char>, ProjectView),
    commits: Seq<ProjectCommitView>,
) -> (Seq<char>, ProjectView) {
    match commit_at(commits, entry.0) {
        Some(commit) => (entry.0, (ProjectView { revision: Some(commit), ..entry.1 })),
        None => entry,
    }
}

/// The projects, each at its commit.
pub open spec fn at_commits(
    projects: Seq<(Seq<char>, ProjectView)>,
    commits: Seq<ProjectCommitView>,
) -> Seq<(Seq<char>, ProjectView)> {
    Seq::new(projects.len(), |i: int| at_commit(projects[i], commits))
}

/// The first commit of a project that is not there.
pub open spec fn stray_commit(
    projects: Seq<(Seq<char>, ProjectView)>,
    commits: Seq<ProjectCommitView>,
) -> Option<ProjectCommitView> {
    find_first(commits, |c: ProjectCommitView| entry_at(projects, c.path) is None)
}

/// Nothing but revisions changes: the paths, the names and their order stay, and so does the
/// revision of a project without a commit.
pub proof fn law_only_revisions_change(
    projects: Seq<(Seq<char>, ProjectView)>,
    commits: Seq<ProjectCommitView>,
    i: int,
)
    requires
        0 <= i < projects.len(),
    ensures
        ({
            let after = at_commits(projects, commits);
            &&& after.len() == projects.len()
            &&& after[i].0 == projects[i].0
            &&& after[i].1 == (ProjectView { revision: after[i].1.revision, ..projects[i].1 })
            &&& commit_at(commits, projects[i].0) is None ==> after[i] == projects[i]
        }),
{
}

/// Where one commit is the last for its path, it is the one that is found for it.
proof fn lemma_last_commit(commits: Seq<ProjectCommitView>, path: Seq<char>, k: int)
    requires
        0 <= k < commits.len(),
        components(commits[k].path) == components(path),
        forall|j: int|
            k < j < commits.len() ==> components((#[trigger] commits[j]).path) != components(path),
    ensures
        commit_at(commits, path) == Some(commits[k].commit),
    decreases commits.len(),
{
    if k < commits.len() - 1 {
        let rest = commits.drop_last();
        assert(components(commits[commits.len() - 1].path) != components(path));
        lemma_last_commit(rest, path, k);
    }
}

/// The manifest corresponds to the state of the tree: where every commit is of a project of the
/// manifest, each project that has a commit is at the last one for its path, whatever other
/// projects share its name.
pub proof fn law_commits_recorded(
    projects: Seq<(Seq<char>, ProjectView)>,
    commits: Seq<ProjectCommitView>,
    k: int,
)
    requires
        stray_commit(projects, commits) is None,
        0 <= k < commits.len(),
        forall|j: int|
            k < j < commits.len() ==> components((#[trigger] commits[j]).path) != components(
                commits[k].path,
            ),
    ensures
        ({
            let before = entry_at(projects, commits[k].path);
            let after = entry_at(at_commits(projects, commits), commits[k].path);
            &&& before is Some
            &&& after == Some(
                (
                    (before->0).0,
                    (ProjectView { revision: Some(commits[k].commit), ..(before->0).1 }),
                ),
            )
        }),
{
    let path = commits[k].path;
    let after = at_commits(projects, commits);
    let stray = |c: ProjectCommitView| entry_at(projects, c.path) is None;
    let holds = |e: (Seq<char>, ProjectView)| components(e.0) == components(path);
    crate::lists::law_find_first(commits, stray);
    assert(!stray(commits[k]));
    crate::lists::law_find_first(projects, holds);
    crate::lists::lemma_first_position(projects, holds);
    let i = choose|i: int|
        0 <= i < projects.len() && projects[i] == find_first(projects, holds)->0 && forall|j: int|
            0 <= j < i ==> !holds(#[trigger] projects[j]);
    assert(holds(projects[i]));
    assert forall|j: int| 0 <= j < i implies !holds(#[trigger] after[j]) by {
        assert(!holds(projects[j]));
    }
    lemma_last_commit(commits, projects[i].0, k);
    assert(holds(after[i]));
    crate::lists::lemma_find_from(after, holds, i);
}

/// The path of a project of the tree that is not in the manifest.
pub struct NotInManifest {
    pub path: String,
}

impl Manifest {
    /// Puts each project at its commit. Where the manifest does not hold one of them, nothing
    /// changes.
    pub fn set_revisions(&mut self, commits: &Vec<ProjectCommit>) -> (r: Result<(), NotInManifest>)
        ensures
            match stray_commit(old(self)@.projects, commits.deep_view()) {
                None => {
                    &&& r is Ok
                    &&& final(self)@ == (ManifestView {
                        projects: at_commits(old(self)@.projects, commits.deep_view()),
                        ..old(self)@
                    })
                },
                Some(commit) => {
                    &&& r is Err
                    &&& r->Err_0.path@ == commit.path
                    &&& final(self)@ == old(self)@
                },
            },
    {
        let ghost all = commits.deep_view();
        let ghost before = self@.projects;
        let ghost stray = |c: ProjectCommitView| entry_at(before, c.path) is None;
        let mut positions: Vec<usize> = Vec::new();
        while positions.len() < commits.len()
            invariant
                positions.len() <= commits.len(),
                all == commits.deep_view(),
                before == self@.projects,
                *self == *old(self),
                stray == (|c: ProjectCommitView| entry_at(before, c.path) is None),
                forall|j: int| 0 <= j < positions.len() ==> !stray(#[trigger] all[j]),
                forall|j: int|
                    0 <= j < positions.len() ==> (#[trigger] positions@[j]) < before.len()
                        && components(before[positions@[j] as int].0) == components(all[j].path),
            decreases commits.len() - positions.len(),
        {
            let k: usize = positions.len();
            assert(all[k as int] == commits@[k as int]@);
            match self.projects.position_by_path(commits[k].path.as_str()) {
                None => {
                    proof {
                        assert(stray(all[k as int]));
                        crate::lists::lemma_find_from(all, stray, k as int);
                    }
                    return Err(NotInManifest { path: commits[k].path.clone() });
                },
                Some(i) => {
                    positions.push(i);
                },
            }
        }
        proof {
            crate::lists::lemma_find_from(all, stray, all.len() as int);
        }
        let _ = self.projects.len();
        let mut k: usize = 0;
        assert(at_commits(before, all.take(0)) =~= before);
        while k < positions.len()
            invariant
                k <= positions.len(),
                positions.len() == commits.len(),
                all == commits.deep_view(),
                ordered_paths(before),
                self@.projects == at_commits(before, all.take(k as int)),
                self@ == (ManifestView { projects: self@.projects, ..old(self)@ }),
                forall|j: int|
                    0 <= j < positions.len() ==> (#[trigger] positions@[j]) < before.len()
                        && components(before[positions@[j] as int].0) == components(all[j].path),
            decreases positions.len() - k,
        {
            let i: usize = positions[k];
            assert(all[k as int] == commits@[k as int]@);
            self.projects.set_revision(i, commits[k].commit.clone());
            proof {
                let next = all.take(k + 1);
                assert(next.drop_last() =~= all.take(k as int));
                assert(next.last() == all[k as int]);
                assert forall|j: int| 0 <= j < before.len() implies self@.projects[j] == at_commit(
                    before[j],
                    next,
                ) by {
                    if j < i {
                        crate::manifest::collections::lemma_same_order_unless(
                            before[j].0,
                            before[i as int].0,
                        );
                    } else if i < j {
                        crate::manifest::collections::lemma_same_order_unless(
                            before[i as int].0,
                            before[j].0,
                        );
                    }
                }
                assert(self@.projects =~= at_commits(before, next));
            }
            k += 1;
        }
        assert(all.take(all.len() as int) =~= all);
        Ok(())
    }
}

/// What comes of writing the state of a tree into a manifest: an exit code, and the document, if
/// there is one to write.
pub struct GeneratedManifest {
    pub code: i32,
    pub document: Option<String>,
}

impl Tree {
    /// The manifest of a tree with each project at its commit, as a document; nothing is to be
    /// written where the commits of some projects could not be found.
    pub fn generate_manifest(
        manifest: Manifest,
        commits: &Vec<ProjectCommit>,
        failed: usize,
    ) -> (r: Result<GeneratedManifest, NotInManifest>)
        ensures
            if failed > 0 {
                r is Ok && r->Ok_0.code == 1 && r->Ok_0.document is None
            } else {
                match stray_commit(manifest@.projects, commits.deep_view()) {
                    Some(commit) => r is Err && r->Err_0.path@ == commit.path,
                    None => {
                        &&& r is Ok
                        &&& r->Ok_0.code == 0
                        &&& r->Ok_0.document.deep_view() == Some(
                            serialized(
                                ManifestView {
                                    projects: at_commits(
                                        manifest@.projects,
                                        commits.deep_view(),
                                    ),
                                    ..manifest@
                                },
                            ),
                        )
                    },
                }
            },
    {
        match check_failed(failed) {
            Ok(()) => {},
            Err(_) => {
                return Ok(GeneratedManifest { code: 1, document: None });
            },
        }
        let mut manifest: Manifest = manifest;
        match manifest.set_revisions(commits) {
            Ok(()) => Ok(GeneratedManifest { code: 0, document: Some(manifest.serialize()) }),
            Err(error) => Err(error),
        }
    }
}

/// The commit of a path is the last that is given for it, however the path is spelt; commits of
/// other paths make no difference.
pub proof fn law_last_commit_counts(
    commits: Seq<ProjectCommitView>,
    last: ProjectCommitView,
    path: Seq<char>,
)
    ensures
        components(last.path) == components(path) ==> commit_at(commits.push(last), path) == Some(
            last.commit,
        ),
        components(last.path) != components(path) ==> commit_at(commits.push(last), path)
            == commit_at(commits, path),
        commit_at(Seq::empty(), path) is None,
{
    assert(commits.push(last).drop_last() =~= commits);
}

/// The first commit of a path at which there is no project is refused, wherever it stands, and none
/// is where there are projects at all the paths.
pub proof fn law_first_stray_commit(
    projects: Seq<(Seq<char>, ProjectView)>,
    commits: Seq<ProjectCommitView>,
    i: int,
)
    requires
        0 <= i <= commits.len(),
        forall|j: int|
            0 <= j < i ==> entry_at(projects, (#[trigger] commits[j]).path) is Some,
        i < commits.len() ==> entry_at(projects, commits[i].path) is None,
    ensures
        i < commits.len() ==> stray_commit(projects, commits) == Some(commits[i]),
        i == commits.len() ==> stray_commit(projects, commits) is None,
{
    lemma_find_from(
        commits,
        |c: ProjectCommitView| entry_at(projects, c.path) is None,
        i,
    );
}

/// A manifest is written exactly where every commit was found and belongs to a project of it; what
/// was not found is told by the code, and what does not belong by its path.
pub proof fn law_manifest_is_generated(
    manifest: Manifest,
    commits: &Vec<ProjectCommit>,
    failed: usize,
    r: Result<GeneratedManifest, NotInManifest>,
)
    requires
        call_ensures(Tree::generate_manifest, (manifest, commits, failed), r),
    ensures
        failed > 0 ==> r is Ok && r->Ok_0.code == 1 && r->Ok_0.document is None,
        failed == 0 && stray_commit(manifest@.projects, commits.deep_view()) is Some ==> r is Err,
        failed == 0 && stray_commit(manifest@.projects, commits.deep_view()) is None ==> {
            &&& r is Ok
            &&& r->Ok_0.code == 0
            &&& r->Ok_0.document matches Some(document) && document@ == serialized(
                (ManifestView {
                    projects: at_commits(manifest@.projects, commits.deep_view()),
                    ..manifest@
                }),
            )
        },
{
}

} // verus!
