//! Rebasing projects onto their upstream branches.
use vstd::prelude::*;

use crate::lists::{find_first, lemma_find_from};
use crate::manifest::{Manifest, ManifestView};
use crate::path::{join_path, joined};
use crate::text::concat3;
use crate::tree::command::{exit_code, law_zero_means_success, overall_code, CommandResult};
use crate::tree::select::ProjectInfoView;
use crate::tree::upload::{find_upstream, upstream_of, GitCommand, RemoteBranch, UploadError};
use crate::tree::{ProjectInfo, Tree};

verus! {

/// Why nothing is rebased.
pub enum RebaseError {
    /// An interactive rebase is possible for one project only.
    MultipleProjects,
    /// Squashing is possible in an interactive rebase only.
    AutosquashNeedsInteractive,
    /// A project has no upstream branch.
    NoUpstream(UploadError),
}

/// An argument, where it is asked for.
pub open spec fn argument_if(wanted: bool, argument: Seq<char>) -> Seq<Seq<char>> {
    if wanted {
        seq![argument]
    } else {
        Seq::empty()
    }
}

/// The arguments with which `git` rebases onto a branch of a remote.
pub open spec fn rebase_arguments(
    interactive: bool,
    autosquash: bool,
    remote: Seq<char>,
    branch: Seq<char>,
) -> Seq<Seq<char>> {
    seq!["rebase"@] + argument_if(interactive, "--interactive"@) + argument_if(
        autosquash,
        "--autosquash"@,
    ) + seq![remote + "/"@ + branch]
}

/// The first of the projects that has no upstream branch.
pub open spec fn without_upstream(
    manifest: ManifestView,
    projects: Seq<ProjectInfoView>,
) -> Option<ProjectInfoView> {
    find_first(projects, |p: ProjectInfoView| upstream_of(manifest, p.project_path) is Err)
}

/// The command rebases the project of a tree onto its upstream branch.
pub open spec fn rebases(
    command: GitCommand,
    root: Seq<char>,
    manifest: ManifestView,
    interactive: bool,
    autosquash: bool,
    project: ProjectInfoView,
) -> bool {
    upstream_of(manifest, project.project_path) matches Ok((remote, branch)) && {
        &&& command.directory@ == joined(root, project.project_path)
        &&& command.arguments.deep_view() == rebase_arguments(
            interactive,
            autosquash,
            remote,
            branch,
        )
    }
}

/// The exit code of a rebase: whatever comes of an interactive one, the user has seen it, so that
/// it counts as done; else it is that of a command that ran in many projects.
pub fn rebase_code(interactive: bool, results: &Vec<CommandResult>, failed: usize) -> (r: i32)
    ensures
        r == if interactive {
            0
        } else {
            overall_code(results.deep_view(), failed as nat)
        },
{
    if interactive {
        0
    } else {
        exit_code(results, failed)
    }
}

impl Tree {
    /// The commands that rebase the projects, one for each, or why there are none.
    pub fn rebase(
        &self,
        manifest: &Manifest,
        interactive: bool,
        autosquash: bool,
        projects: &Vec<ProjectInfo>,
    ) -> (r: Result<Vec<GitCommand>, RebaseError>)
        ensures
            if interactive && projects@.len() != 1 {
                r matches Err(RebaseError::MultipleProjects)
            } else if !interactive && autosquash {
                r matches Err(RebaseError::AutosquashNeedsInteractive)
            } else {
                match without_upstream(manifest@, projects.deep_view()) {
                    Some(project) => r matches Err(RebaseError::NoUpstream(error)) && (
                    upstream_of(manifest@, project.project_path) matches Err(e) && error@ == e),
                    None => {
                        &&& r is Ok
                        &&& r->Ok_0@.len() == projects@.len()
                        &&& forall|i: int|
                            0 <= i < projects@.len() ==> rebases(
                                #[trigger] r->Ok_0@[i],
                                self.path@,
                                manifest@,
                                interactive,
                                autosquash,
                                projects@[i]@,
                            )
                    },
                }
            },
    {
        if interactive {
            if projects.len() != 1 {
                return Err(RebaseError::MultipleProjects);
            }
        } else if autosquash {
            return Err(RebaseError::AutosquashNeedsInteractive);
        }
        let ghost all = projects.deep_view();
        let ghost lacks = |p: ProjectInfoView| upstream_of(manifest@, p.project_path) is Err;
        let mut commands: Vec<GitCommand> = Vec::new();
        while commands.len() < projects.len()
            invariant
                commands.len() <= projects.len(),
                all == projects.deep_view(),
                lacks == (|p: ProjectInfoView| upstream_of(manifest@, p.project_path) is Err),
                forall|j: int| 0 <= j < commands.len() ==> !lacks(#[trigger] all[j]),
                forall|j: int|
                    0 <= j < commands.len() ==> rebases(
                        #[trigger] commands@[j],
                        self.path@,
                        manifest@,
                        interactive,
                        autosquash,
                        projects@[j]@,
                    ),
                interactive ==> projects@.len() == 1,
                !interactive ==> !autosquash,
            decreases projects.len() - commands.len(),
        {
            let i: usize = commands.len();
            assert(all[i as int] == projects@[i as int]@);
            match self.rebase_project(manifest, interactive, autosquash, &projects[i]) {
                Ok(command) => {
                    commands.push(command);
                },
                Err(error) => {
                    proof {
                        assert(lacks(all[i as int]));
                        crate::lists::lemma_find_from(all, lacks, i as int);
                    }
                    return Err(RebaseError::NoUpstream(error));
                },
            }
        }
        proof {
            crate::lists::lemma_find_from(all, lacks, all.len() as int);
        }
        Ok(commands)
    }

    /// The command that rebases a project.
    fn rebase_project(
        &self,
        manifest: &Manifest,
        interactive: bool,
        autosquash: bool,
        project: &ProjectInfo,
    ) -> (r: Result<GitCommand, UploadError>)
        ensures
            match r {
                Ok(command) => rebases(
                    command,
                    self.path@,
                    manifest@,
                    interactive,
                    autosquash,
                    project@,
                ),
                Err(error) => upstream_of(manifest@, project@.project_path) matches Err(e)
                    && error@ == e,
            },
    {
        let upstream: RemoteBranch = match find_upstream(manifest, project.project_path.as_str()) {
            Ok(upstream) => upstream,
            Err(error) => {
                return Err(error);
            },
        };
        let mut arguments: Vec<String> = Vec::new();
        arguments.push("rebase".to_owned());
        if interactive {
            arguments.push("--interactive".to_owned());
        }
        if autosquash {
            arguments.push("--autosquash".to_owned());
        }
        arguments.push(concat3(upstream.remote.as_str(), "/", upstream.branch.as_str()));
        assert(arguments.deep_view() =~= rebase_arguments(
            interactive,
            autosquash,
            upstream.remote@,
            upstream.branch@,
        ));
        Ok(
            GitCommand {
                directory: join_path(self.path.as_str(), project.project_path.as_str()),
                arguments,
            },
        )
    }
}

/// A rebase goes onto the branch of the remote, which is named last; each of the two options is
/// there exactly where it is asked for, whatever the other.
pub proof fn law_rebase_options_are_independent(
    interactive: bool,
    autosquash: bool,
    remote: Seq<char>,
    branch: Seq<char>,
)
    ensures
        ({
            let arguments = rebase_arguments(interactive, autosquash, remote, branch);
            let at: int = if interactive {
                2
            } else {
                1
            };
            &&& arguments[0] == "rebase"@
            &&& interactive ==> arguments[1] == "--interactive"@
            &&& autosquash ==> arguments[at] == "--autosquash"@
            &&& arguments.last() == remote + "/"@ + branch
            &&& arguments.len() == at + (if autosquash {
                2int
            } else {
                1
            })
        }),
{
}

/// Where a project has no upstream branch, the first of those is named, wherever it stands.
pub proof fn law_first_without_upstream(
    manifest: ManifestView,
    projects: Seq<ProjectInfoView>,
    i: int,
)
    requires
        0 <= i <= projects.len(),
        forall|j: int|
            0 <= j < i ==> upstream_of(manifest, (#[trigger] projects[j]).project_path) is Ok,
        i < projects.len() ==> upstream_of(manifest, projects[i].project_path) is Err,
    ensures
        i < projects.len() ==> without_upstream(manifest, projects) == Some(projects[i]),
        i == projects.len() ==> without_upstream(manifest, projects) is None,
{
    lemma_find_from(
        projects,
        |p: ProjectInfoView| upstream_of(manifest, p.project_path) is Err,
        i,
    );
}

/// An interactive rebase is of one project, and squashing needs one; else every project is rebased,
/// in order and in its place, onto the branch that it belongs to, and none is where one of them
/// belongs to none.
pub proof fn law_every_project_is_rebased(
    tree: &Tree,
    manifest: &Manifest,
    interactive: bool,
    autosquash: bool,
    projects: &Vec<ProjectInfo>,
    r: Result<Vec<GitCommand>, RebaseError>,
    i: int,
)
    requires
        call_ensures(Tree::rebase, (tree, manifest, interactive, autosquash, projects), r),
    ensures
        interactive && projects@.len() != 1 ==> r is Err,
        !interactive && autosquash ==> r is Err,
        r is Ok && 0 <= i < projects@.len() ==> {
            let command = r->Ok_0@[i];
            let upstream = upstream_of(manifest@, projects@[i].project_path@);
            &&& r->Ok_0@.len() == projects@.len()
            &&& upstream is Ok
            &&& command.directory@ == joined(tree.path@, projects@[i].project_path@)
            &&& command.arguments.deep_view().last() == upstream->Ok_0.0 + "/"@ + upstream->Ok_0.1
        },
        (interactive ==> projects@.len() == 1) && (autosquash ==> interactive) && (forall|j: int|
            0 <= j < projects@.len() ==> upstream_of(
                manifest@,
                (#[trigger] projects@[j]).project_path@,
            ) is Ok) ==> r is Ok,
{
    let all = projects.deep_view();
    if forall|j: int|
        0 <= j < projects@.len() ==> upstream_of(
            manifest@,
            (#[trigger] projects@[j]).project_path@,
        ) is Ok {
        assert forall|j: int| 0 <= j < all.len() implies upstream_of(
            manifest@,
            (#[trigger] all[j]).project_path,
        ) is Ok by {
            assert(all[j] == projects@[j]@);
        }
        law_first_without_upstream(manifest@, all, all.len() as int);
    }
    if r is Ok && 0 <= i < projects@.len() {
        assert(rebases(
            r->Ok_0@[i],
            tree.path@,
            manifest@,
            interactive,
            autosquash,
            projects@[i]@,
        ));
    }
}

/// The code of a rebase is that of the commands, unless the user was there to see what came of it.
pub proof fn law_rebase_code(
    results: &Vec<CommandResult>,
    failed: usize,
    interactive: i32,
    unattended: i32,
)
    requires
        call_ensures(rebase_code, (true, results, failed), interactive),
        call_ensures(rebase_code, (false, results, failed), unattended),
    ensures
        interactive == 0,
        unattended == 0 <==> failed == 0 && forall|i: int|
            0 <= i < results.deep_view().len() ==> (#[trigger] results.deep_view()[i]).rc == 0,
{
    law_zero_means_success(results.deep_view(), failed as nat);
}

} // verus!
