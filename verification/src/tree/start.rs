//! Starting a branch in a project.
use vstd::prelude::*;

use crate::depot::{parse_revision, revision_names};
use crate::lists::{find_first, law_find_first};
use crate::manifest::collections::entry_at;
use crate::manifest::{Manifest, ManifestView, Project, ProjectView};
use crate::path::{
    components, diff_paths, file_name, is_name, joined, last_name, law_directory_not_beneath,
    law_last_name, law_parent_components, parent_of, parent_path, path_difference, PartView,
};
use crate::text::{concat2, concat3, same_text};
use crate::tree::select::tree_revision;
use crate::tree::Tree;

verus! {

/// How a branch is started.
pub struct StartPlan {
    /// The names of the revision that the branch begins at, in the order in which they are tried.
    pub revisions: Vec<String>,
    /// The branch that it follows.
    pub upstream: String,
    /// What `HEAD` becomes.
    pub head: String,
}

/// Why a branch cannot be started.
pub enum StartError {
    /// There is no way from the root of the tree to the repository.
    NoDifference,
    /// The repository is not at a `.git`.
    UnexpectedPath { path: String },
    /// No project of the manifest is at the path.
    NoProject { path: String },
}

/// Why a branch cannot be started, as a value.
pub enum StartErrorView {
    NoDifference,
    UnexpectedPath { path: Seq<char> },
    NoProject { path: Seq<char> },
}

impl View for StartError {
    type V = StartErrorView;

    open spec fn view(&self) -> StartErrorView {
        match self {
            StartError::NoDifference => StartErrorView::NoDifference,
            StartError::UnexpectedPath { path } => StartErrorView::UnexpectedPath { path: path@ },
            StartError::NoProject { path } => StartErrorView::NoProject { path: path@ },
        }
    }
}

/// The path of the project whose git directory is at the path, as both are seen from the root.
pub open spec fn project_of_git(git: Seq<char>, manifest: ManifestView) -> Result<
    Seq<char>,
    StartErrorView,
> {
    if last_name(git) != Some(".git"@) {
        Err(StartErrorView::UnexpectedPath { path: git })
    } else {
        match parent_of(git) {
            None => Err(StartErrorView::UnexpectedPath { path: git }),
            Some(path) => if entry_at(manifest.projects, path) is None {
                Err(StartErrorView::NoProject { path })
            } else {
                Ok(path)
            },
        }
    }
}

impl Tree {
    /// How a branch is started in the project whose git directory is at the path `git` from the
    /// root of the tree. It begins at the given revision, or else at the one of the project.
    pub fn start_at(
        &self,
        manifest: &Manifest,
        remote: &str,
        branch: &str,
        revision: Option<&str>,
        git: &str,
    ) -> (r: Result<StartPlan, StartError>)
        ensures
            match project_of_git(git@, manifest@) {
                Ok(path) => {
                    let project = (entry_at(manifest@.projects, path)->0).1;
                    let named = tree_revision(project, manifest@, self.config.branch@);
                    &&& r is Ok
                    &&& r->Ok_0.revisions.deep_view() == revision_names(
                        remote@,
                        match revision {
                            Some(given) => given@,
                            None => named,
                        },
                    )
                    &&& r->Ok_0.upstream@ == remote@ + "/"@ + named
                    &&& r->Ok_0.head@ == "refs/heads/"@ + branch@
                },
                Err(e) => r is Err && r->Err_0@ == e,
            },
    {
        match file_name(git) {
            Some(name) => {
                if !same_text(name.as_str(), ".git") {
                    return Err(StartError::UnexpectedPath { path: git.to_owned() });
                }
            },
            None => {
                return Err(StartError::UnexpectedPath { path: git.to_owned() });
            },
        }
        let path: String = match parent_path(git) {
            Some(path) => path,
            None => {
                return Err(StartError::UnexpectedPath { path: git.to_owned() });
            },
        };
        let project: &Project = match manifest.projects.get(path.as_str()) {
            Some(project) => project,
            None => {
                return Err(StartError::NoProject { path });
            },
        };
        let named: String = self.project_revision(manifest, project);
        let revisions: Vec<String> = match revision {
            Some(given) => parse_revision(remote, given),
            None => parse_revision(remote, named.as_str()),
        };
        Ok(
            StartPlan {
                revisions,
                upstream: concat3(remote, "/", named.as_str()),
                head: concat2("refs/heads/", branch),
            },
        )
    }

    /// How a branch is started in the project whose git directory is at the path `git`.
    pub fn start(
        &self,
        manifest: &Manifest,
        remote: &str,
        branch: &str,
        revision: Option<&str>,
        git: &str,
    ) -> (r: Result<StartPlan, StartError>)
        ensures
            match path_difference(git@, self.path@) {
                None => r is Err && r->Err_0@ == StartErrorView::NoDifference,
                Some(relative) => match project_of_git(relative, manifest@) {
                    Ok(path) => {
                        let project = (entry_at(manifest@.projects, path)->0).1;
                        let named = tree_revision(project, manifest@, self.config.branch@);
                        &&& r is Ok
                        &&& r->Ok_0.revisions.deep_view() == revision_names(
                            remote@,
                            match revision {
                                Some(given) => given@,
                                None => named,
                            },
                        )
                        &&& r->Ok_0.upstream@ == remote@ + "/"@ + named
                        &&& r->Ok_0.head@ == "refs/heads/"@ + branch@
                    },
                    Err(e) => r is Err && r->Err_0@ == e,
                },
            },
    {
        match diff_paths(git, self.path.as_str()) {
            Some(relative) => self.start_at(manifest, remote, branch, revision, relative.as_str()),
            None => Err(StartError::NoDifference),
        }
    }
}

/// The git directory of a project leads to the project, wherever in the manifest it stands; without
/// a project there, the path around the git directory is what has none.
pub proof fn law_git_directory_leads_to_project(place: Seq<char>, manifest: ManifestView)
    ensures
        ({
            let found = project_of_git(joined(place, ".git"@), manifest);
            &&& found is Ok <==> exists|i: int|
                0 <= i < manifest.projects.len() && components((#[trigger] manifest.projects[i]).0)
                    == components(place)
            &&& found is Ok ==> components(found->Ok_0) == components(place)
            &&& found is Err ==> found->Err_0 is NoProject && components(
                found->Err_0->NoProject_path,
            ) == components(place)
        }),
{
    let git = joined(place, ".git"@);
    reveal_strlit(".git");
    assert(is_name(".git"@)) by {
        assert(seq!['.', '.'].len() != ".git"@.len() && seq!['.'].len() != ".git"@.len());
        assert forall|i: int| 0 <= i < ".git"@.len() implies ".git"@[i] != '/' by {}
    }
    law_last_name(place, ".git"@);
    law_directory_not_beneath(place, ".git"@);
    law_parent_components(git);
    assert(components(git).last() != PartView::Root);
    let path = parent_of(git)->0;
    assert(components(git).drop_last() =~= components(place));
    let holds = |e: (Seq<char>, ProjectView)| components(e.0) == components(path);
    law_find_first(manifest.projects, holds);
    if entry_at(manifest.projects, path) is Some {
        let found = find_first(manifest.projects, holds)->0;
        let i = choose|i: int|
            0 <= i < manifest.projects.len() && manifest.projects[i] == found;
        assert(components(manifest.projects[i].0) == components(place));
    }
}

/// A path that does not end in the name of a git directory leads to no project.
pub proof fn law_other_directories_lead_nowhere(
    place: Seq<char>,
    name: Seq<char>,
    manifest: ManifestView,
)
    requires
        is_name(name),
        name != ".git"@,
    ensures
        project_of_git(joined(place, name), manifest) is Err,
        project_of_git(joined(place, name), manifest)->Err_0 == (StartErrorView::UnexpectedPath {
            path: joined(place, name),
        }),
{
    law_last_name(place, name);
}

/// A branch begins at the revision that is given, and at the project's only where none is; it
/// follows the project's revision in either case, and `HEAD` comes to be on it. A revision is
/// looked for as a branch of the remote first.
pub proof fn law_branch_begins_and_follows(
    tree: &Tree,
    manifest: &Manifest,
    remote: &str,
    branch: &str,
    revision: Option<&str>,
    git: &str,
    r: Result<StartPlan, StartError>,
)
    requires
        call_ensures(Tree::start_at, (tree, manifest, remote, branch, revision, git), r),
    ensures
        r is Ok <==> project_of_git(git@, manifest@) is Ok,
        r matches Ok(plan) ==> {
            let path = project_of_git(git@, manifest@)->Ok_0;
            let own = tree_revision(
                (entry_at(manifest@.projects, path)->0).1,
                manifest@,
                tree.config.branch@,
            );
            &&& plan.revisions@.len() == 2
            &&& revision matches Some(given) ==> plan.revisions@[0]@ == remote@ + "/"@ + given@
                && plan.revisions@[1]@ == given@
            &&& revision is None ==> plan.revisions@[0]@ == remote@ + "/"@ + own
                && plan.revisions@[1]@ == own
            &&& plan.upstream@ == remote@ + "/"@ + own
            &&& plan.head@ == "refs/heads/"@ + branch@
        },
{
    if let Ok(plan) = r {
        let names = plan.revisions.deep_view();
        assert(names.len() == 2);
        assert(names[0] == plan.revisions@[0]@);
        assert(names[1] == plan.revisions@[1]@);
    }
}

/// A branch is started where the way from the root to the git directory leads, and not at all where
/// there is no such way.
pub proof fn law_started_by_way_from_root(
    tree: &Tree,
    manifest: &Manifest,
    remote: &str,
    branch: &str,
    revision: Option<&str>,
    git: &str,
    way: &str,
    there: Result<StartPlan, StartError>,
    r: Result<StartPlan, StartError>,
)
    requires
        call_ensures(Tree::start, (tree, manifest, remote, branch, revision, git), r),
        call_ensures(Tree::start_at, (tree, manifest, remote, branch, revision, way), there),
    ensures
        path_difference(git@, tree.path@) is None ==> r is Err && r->Err_0@ is NoDifference,
        path_difference(git@, tree.path@) == Some(way@) ==> {
            &&& r is Ok <==> there is Ok
            &&& r is Err ==> r->Err_0@ == there->Err_0@
            &&& r is Ok ==> r->Ok_0.revisions.deep_view() == there->Ok_0.revisions.deep_view()
                && r->Ok_0.upstream@ == there->Ok_0.upstream@ && r->Ok_0.head@
                == there->Ok_0.head@
        },
{
}

} // verus!
