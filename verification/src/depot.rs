//! Depots: mirrors of repositories that trees share.
//!
//! A depot decides which directories, URLs and commands there are; whoever asks carries them out.
use vstd::prelude::*;

use crate::config::RemoteConfig;
use crate::lists::{find_first, lemma_find_from};
use crate::path::{join_path, joined};
use crate::rename::{renamed, ProjectRename};
use crate::text::{
    begins_with, begins_with_char, concat2, concat3, concat4, decimal, decimal_of, decimal_of_i32,
    finishes_with, finishes_with_char, law_digits_value, law_numeral_read_back, numeral,
};

verus! {

/// A store of mirrored repositories.
pub struct Depot {
    pub name: String,
    pub path: String,
}

/// The name of a project in a depot.
pub struct ProjectName {
    name: String,
}

impl View for ProjectName {
    type V = Seq<char>;

    closed spec fn view(&self) -> Seq<char> {
        self.name@
    }
}

/// The first name that is there, or else the given one.
pub open spec fn first_name(candidates: Seq<Option<Seq<char>>>, project: Seq<char>) -> Seq<char> {
    match find_first(candidates, |c: Option<Seq<char>>| c is Some) {
        Some(found) => found->0,
        None => project,
    }
}

/// The names of a project after each of the renames, where they apply.
pub open spec fn candidate_names(renames: Seq<ProjectRename>, project: Seq<char>) -> Seq<
    Option<Seq<char>>,
> {
    renames.map_values(
        |r: ProjectRename| renamed(r.pattern_text(), r.replacement_text(), project),
    )
}

/// The name of a project in a depot: the first rename that applies counts.
pub open spec fn local_name(renames: Seq<ProjectRename>, project: Seq<char>) -> Seq<char> {
    first_name(candidate_names(renames, project), project)
}

/// The directory in which a depot at the path holds the objects of a project.
pub open spec fn objects_path(depot: Seq<char>, project: Seq<char>) -> Seq<char> {
    joined(joined(depot, "objects"@), project + ".git"@)
}

/// The directory in which a depot at the path holds the refs of a remote's project.
pub open spec fn refs_path(depot: Seq<char>, remote: Seq<char>, project: Seq<char>) -> Seq<char> {
    joined(joined(joined(depot, "refs"@), remote), project + ".git"@)
}

/// The directory of refs inside a git directory.
pub open spec fn refs_of(git: Seq<char>, kind: Seq<char>) -> Seq<char> {
    joined(joined(git, "refs"@), kind)
}

/// The directory of a remote's refs inside a git directory.
pub open spec fn remote_refs_of(git: Seq<char>, remote: Seq<char>) -> Seq<char> {
    joined(refs_of(git, "remotes"@), remote)
}

/// The contents of one directory are to become those of another.
pub struct Replacement {
    pub src: String,
    pub dst: String,
}

/// A replacement, as a value.
pub struct ReplacementView {
    pub src: Seq<char>,
    pub dst: Seq<char>,
}

impl View for Replacement {
    type V = ReplacementView;

    open spec fn view(&self) -> ReplacementView {
        ReplacementView { src: self.src@, dst: self.dst@ }
    }
}

/// What the heads of a depot become after a fetch: the branches of the remote.
pub open spec fn fetched_heads(
    depot: Seq<char>,
    remote: Seq<char>,
    local: Seq<char>,
) -> ReplacementView {
    ReplacementView {
        src: remote_refs_of(objects_path(depot, local), remote),
        dst: refs_of(refs_path(depot, remote, local), "heads"@),
    }
}

/// What the tags of a depot become after a fetch.
pub open spec fn fetched_tags(
    depot: Seq<char>,
    remote: Seq<char>,
    local: Seq<char>,
) -> ReplacementView {
    ReplacementView {
        src: refs_of(objects_path(depot, local), "tags"@),
        dst: refs_of(refs_path(depot, remote, local), "tags"@),
    }
}

/// What the branches of the remote become in a tree's git directory: the heads of the depot.
pub open spec fn taken_heads(
    depot: Seq<char>,
    remote: Seq<char>,
    local: Seq<char>,
    git: Seq<char>,
) -> ReplacementView {
    ReplacementView {
        src: refs_of(refs_path(depot, remote, local), "heads"@),
        dst: remote_refs_of(git, remote),
    }
}

/// What the tags become in a tree's git directory.
pub open spec fn taken_tags(
    depot: Seq<char>,
    remote: Seq<char>,
    local: Seq<char>,
    git: Seq<char>,
) -> ReplacementView {
    ReplacementView {
        src: refs_of(refs_path(depot, remote, local), "tags"@),
        dst: refs_of(git, "tags"@),
    }
}

/// A new repository that borrows its objects from another.
pub struct Alternates {
    pub repository: String,
    pub bare: bool,
    /// The file that names where objects are borrowed from.
    pub file: String,
    pub contents: String,
}

/// A new repository that borrows its objects from another, as a value.
pub struct AlternatesView {
    pub repository: Seq<char>,
    pub bare: bool,
    pub file: Seq<char>,
    pub contents: Seq<char>,
}

impl View for Alternates {
    type V = AlternatesView;

    open spec fn view(&self) -> AlternatesView {
        AlternatesView {
            repository: self.repository@,
            bare: self.bare,
            file: self.file@,
            contents: self.contents@,
        }
    }
}

/// A new repository at `dst` that borrows the objects of `src`.
pub open spec fn alternates(src: Seq<char>, dst: Seq<char>, bare: bool) -> AlternatesView {
    let git = if bare {
        dst
    } else {
        joined(dst, ".git"@)
    };
    AlternatesView {
        repository: dst,
        bare,
        file: joined(joined(joined(git, "objects"@), "info"@), "alternates"@),
        contents: joined(src, "objects"@) + "\n"@,
    }
}

/// How a project is fetched into a depot.
pub struct FetchPlan {
    /// The bare repository that holds the objects.
    pub objects: String,
    /// The URL of the remote in it.
    pub url: String,
    /// The arguments of `git`.
    pub arguments: Vec<String>,
    /// The value of `GIT_SSH_COMMAND`.
    pub ssh_command: String,
    /// The repository of refs, which is made where it is not there.
    pub refs: Alternates,
    /// What the refs become then: heads, and tags.
    pub heads: Replacement,
    pub tags: Replacement,
}

/// The project's name cannot be part of a path.
pub struct InvalidProject {
    pub project: String,
}

/// A name that can be part of a path.
pub open spec fn is_project_name(project: Seq<char>) -> bool {
    !begins_with(project, '/') && !finishes_with(project, '/')
}

/// What is asked for of a remote, each under a tag of its own, from number `first` on.
pub open spec fn ref_specs(targets: Seq<Seq<char>>, first: nat) -> Seq<Seq<char>> {
    Seq::new(
        targets.len(),
        |i: int|
            "+"@ + targets[i] + ":refs/tags/PORE_FETCH_LAST_"@ + decimal(first + i),
    )
}

/// The arguments with which `git` fetches.
pub open spec fn fetch_arguments(
    objects: Seq<char>,
    remote: Seq<char>,
    targets: Option<Seq<Seq<char>>>,
    tags: bool,
    depth: Option<i32>,
) -> Seq<Seq<char>> {
    seq!["-C"@, objects, "fetch"@, remote] + (if tags {
        seq!["--tags"@]
    } else {
        Seq::empty()
    }) + (match depth {
        Some(n) => seq!["--depth"@, decimal(n as int)],
        None => Seq::empty(),
    }) + (match targets {
        Some(list) => ref_specs(list, 0),
        None => Seq::empty(),
    })
}

/// How a project comes into a tree.
pub struct ClonePlan {
    /// The new repository.
    pub repository: Alternates,
    /// The URL of the remote: the refs in the depot.
    pub url: String,
    /// The URL that is pushed to.
    pub push_url: String,
    /// The names of the revision that is checked out, in the order in which they are tried.
    pub revisions: Vec<String>,
}

/// The names under which a revision of a remote is looked for, in turn.
pub open spec fn revision_names(remote: Seq<char>, revision: Seq<char>) -> Seq<Seq<char>> {
    seq![remote + "/"@ + revision, revision]
}

/// The names under which a revision of a remote is looked for, in turn: the branch of the remote
/// comes first, so that a local branch of the same name does not hide it.
pub fn parse_revision(remote: &str, revision: &str) -> (r: Vec<String>)
    ensures
        r.deep_view() == revision_names(remote@, revision@),
{
    let mut r: Vec<String> = Vec::new();
    r.push(concat3(remote, "/", revision));
    r.push(revision.to_owned());
    assert(r.deep_view() =~= revision_names(remote@, revision@));
    r
}

/// Adds an argument to a list.
pub(crate) fn add_argument(list: &mut Vec<String>, argument: String)
    ensures
        final(list).deep_view() == old(list).deep_view().push(argument@),
{
    let ghost before = list.deep_view();
    let ghost added = argument@;
    list.push(argument);
    assert(list.deep_view() =~= before.push(added));
}

impl Depot {
    /// The depot of the given name at the given path.
    pub fn new(name: String, path: String) -> (r: Depot)
        ensures
            r.name@ == name@,
            r.path@ == path@,
    {
        Depot { name, path }
    }

    /// The first name that is there, or else the given one.
    pub fn choose_name(candidates: &Vec<Option<String>>, project: &str) -> (r: ProjectName)
        ensures
            r@ == first_name(candidates.deep_view(), project@),
    {
        let ghost all = candidates.deep_view();
        let ghost holds = |c: Option<Seq<char>>| c is Some;
        let mut i: usize = 0;
        while i < candidates.len()
            invariant
                i <= candidates.len(),
                all == candidates.deep_view(),
                holds == (|c: Option<Seq<char>>| c is Some),
                forall|j: int| 0 <= j < i ==> !holds(#[trigger] all[j]),
            decreases candidates.len() - i,
        {
            assert(all[i as int] == candidates@[i as int].deep_view());
            proof {
                lemma_find_from(all, holds, i as int);
            }
            match &candidates[i] {
                Some(name) => {
                    return ProjectName { name: name.clone() };
                },
                None => {},
            }
            assert(!holds(all[i as int]));
            i += 1;
        }
        proof {
            lemma_find_from(all, holds, i as int);
        }
        ProjectName { name: project.to_owned() }
    }

    /// The name of a remote's project in depots.
    pub fn apply_project_renames(remote_config: &RemoteConfig, project: &str) -> (r: ProjectName)
        ensures
            r@ == local_name(remote_config.project_renames@, project@),
    {
        let renames: &Vec<ProjectRename> = &remote_config.project_renames;
        let ghost expected = candidate_names(renames@, project@);
        let mut candidates: Vec<Option<String>> = Vec::new();
        let mut i: usize = 0;
        assert(candidates.deep_view() =~= expected.take(0));
        while i < renames.len()
            invariant
                i <= renames.len(),
                expected == candidate_names(renames@, project@),
                candidates.deep_view() == expected.take(i as int),
            decreases renames.len() - i,
        {
            let ghost before = candidates.deep_view();
            let candidate: Option<String> = renames[i].rename(project);
            assert(candidate.deep_view() == expected[i as int]);
            candidates.push(candidate);
            assert(candidates.deep_view() =~= before.push(expected[i as int]));
            assert(candidates.deep_view() =~= expected.take(i + 1));
            i += 1;
        }
        assert(candidates.deep_view() =~= expected);
        Depot::choose_name(&candidates, project)
    }

    /// The directory of a project's objects.
    pub fn objects_mirror(&self, remote_config: &RemoteConfig, project: &ProjectName) -> (r: String)
        ensures
            r@ == objects_path(self.path@, project@),
    {
        let repo_name: String = concat2(project.name.as_str(), ".git");
        join_path(join_path(self.path.as_str(), "objects").as_str(), repo_name.as_str())
    }

    /// The directory of the refs of a remote's project.
    pub fn refs_mirror(&self, remote_config: &RemoteConfig, project: &ProjectName) -> (r: String)
        ensures
            r@ == refs_path(self.path@, remote_config.name@, project@),
    {
        let repo_name: String = concat2(project.name.as_str(), ".git");
        let refs: String = join_path(self.path.as_str(), "refs");
        join_path(
            join_path(refs.as_str(), remote_config.name.as_str()).as_str(),
            repo_name.as_str(),
        )
    }

    /// The directory of refs inside a git directory.
    fn refs_dir(git: &str, kind: &str) -> (r: String)
        ensures
            r@ == refs_of(git@, kind@),
    {
        join_path(join_path(git, "refs").as_str(), kind)
    }

    /// The git directory of a repository at a path: `.git` inside it where that exists, else the
    /// path itself.
    pub fn git_path(path: &str, nonbare: bool) -> (r: String)
        ensures
            r@ == if nonbare {
                joined(path@, ".git"@)
            } else {
                path@
            },
    {
        if nonbare {
            join_path(path, ".git")
        } else {
            path.to_owned()
        }
    }

    /// A new repository that borrows its objects from another.
    pub fn clone_alternates(src: &str, dst: &str, bare: bool) -> (r: Alternates)
        ensures
            r@ == alternates(src@, dst@, bare),
    {
        let git_path: String = if bare {
            dst.to_owned()
        } else {
            join_path(dst, ".git")
        };
        let info: String = join_path(join_path(git_path.as_str(), "objects").as_str(), "info");
        Alternates {
            repository: dst.to_owned(),
            bare,
            file: join_path(info.as_str(), "alternates"),
            contents: concat2(join_path(src, "objects").as_str(), "\n"),
        }
    }

    /// How a project is fetched, unless its name cannot be part of a path.
    pub fn fetch_repo(
        &self,
        remote_config: &RemoteConfig,
        project: &str,
        targets: Option<&Vec<String>>,
        fetch_tags: bool,
        depth: Option<i32>,
        ssh_mux_path: &str,
    ) -> (r: Result<FetchPlan, InvalidProject>)
        ensures
            r is Ok <==> is_project_name(project@),
            r is Err ==> r->Err_0.project@ == project@,
            r is Ok ==> {
                let plan = r->Ok_0;
                let local = local_name(remote_config.project_renames@, project@);
                let objects = objects_path(self.path@, local);
                let refs = refs_path(self.path@, remote_config.name@, local);
                &&& plan.objects@ == objects
                &&& plan.url@ == remote_config.url@ + project@ + ".git"@
                &&& plan.arguments.deep_view() == fetch_arguments(
                    objects,
                    remote_config.name@,
                    match targets {
                        Some(list) => Some(list.deep_view()),
                        None => None,
                    },
                    fetch_tags,
                    depth,
                )
                &&& plan.ssh_command@ == "ssh -o 'ControlMaster no' -o 'ControlPath "@
                    + ssh_mux_path@ + "'"@
                &&& plan.refs@ == alternates(objects, refs, true)
                &&& plan.heads@ == fetched_heads(self.path@, remote_config.name@, local)
                &&& plan.tags@ == fetched_tags(self.path@, remote_config.name@, local)
            },
    {
        if begins_with_char(project, '/') || finishes_with_char(project, '/') {
            return Err(InvalidProject { project: project.to_owned() });
        }
        let local: ProjectName = Depot::apply_project_renames(remote_config, project);
        let objects: String = self.objects_mirror(remote_config, &local);
        let refs: String = self.refs_mirror(remote_config, &local);
        let mut arguments: Vec<String> = Vec::new();
        arguments.push("-C".to_owned());
        arguments.push(objects.clone());
        arguments.push("fetch".to_owned());
        arguments.push(remote_config.name.clone());
        if fetch_tags {
            arguments.push("--tags".to_owned());
        }
        match depth {
            Some(n) => {
                arguments.push("--depth".to_owned());
                arguments.push(decimal_of_i32(n));
            },
            None => {},
        }
        let ghost fixed = arguments.deep_view();
        assert(fixed =~= fetch_arguments(objects@, remote_config.name@, None, fetch_tags, depth));
        match targets {
            Some(list) => {
                let ghost all = list.deep_view();
                let mut i: usize = 0;
                assert(fixed + ref_specs(all, 0).take(0) =~= fixed);
                while i < list.len()
                    invariant
                        i <= list.len(),
                        all == list.deep_view(),
                        arguments.deep_view() == fixed + ref_specs(all, 0).take(i as int),
                    decreases list.len() - i,
                {
                    assert(all[i as int] == list@[i as int]@);
                    let number: String = decimal_of(i as u64);
                    add_argument(
                        &mut arguments,
                        concat4(
                            "+",
                            list[i].as_str(),
                            ":refs/tags/PORE_FETCH_LAST_",
                            number.as_str(),
                        ),
                    );
                    assert(arguments.deep_view() =~= fixed + ref_specs(all, 0).take(i + 1));
                    i += 1;
                }
                assert(ref_specs(all, 0).take(all.len() as int) =~= ref_specs(all, 0));
                assert(arguments.deep_view() =~= fetch_arguments(
                    objects@,
                    remote_config.name@,
                    Some(all),
                    fetch_tags,
                    depth,
                ));
            },
            None => {},
        }
        let heads: Replacement = Replacement {
            src: join_path(
                Depot::refs_dir(objects.as_str(), "remotes").as_str(),
                remote_config.name.as_str(),
            ),
            dst: Depot::refs_dir(refs.as_str(), "heads"),
        };
        let tags: Replacement = Replacement {
            src: Depot::refs_dir(objects.as_str(), "tags"),
            dst: Depot::refs_dir(refs.as_str(), "tags"),
        };
        Ok(
            FetchPlan {
                url: concat3(remote_config.url.as_str(), project, ".git"),
                ssh_command: concat3(
                    "ssh -o 'ControlMaster no' -o 'ControlPath ",
                    ssh_mux_path,
                    "'",
                ),
                refs: Depot::clone_alternates(objects.as_str(), refs.as_str(), true),
                objects,
                arguments,
                heads,
                tags,
            },
        )
    }

    /// How a project comes into a tree at a path.
    pub fn clone_repo(
        &self,
        remote_config: &RemoteConfig,
        project: &str,
        branch: &str,
        path: &str,
    ) -> (r: ClonePlan)
        ensures
            ({
                let local = local_name(remote_config.project_renames@, project@);
                &&& r.repository@ == alternates(objects_path(self.path@, local), path@, false)
                &&& r.url@ == refs_path(self.path@, remote_config.name@, local)
                &&& r.push_url@ == remote_config.url@ + project@
                &&& r.revisions.deep_view() == revision_names(remote_config.name@, branch@)
            }),
    {
        let local: ProjectName = Depot::apply_project_renames(remote_config, project);
        let objects: String = self.objects_mirror(remote_config, &local);
        ClonePlan {
            repository: Depot::clone_alternates(objects.as_str(), path, false),
            url: self.refs_mirror(remote_config, &local),
            push_url: concat2(remote_config.url.as_str(), project),
            revisions: parse_revision(remote_config.name.as_str(), branch),
        }
    }

    /// How the refs of a project in a tree become those of the depot: the heads become the remote's
    /// branches, and tags become tags.
    pub fn update_remote_refs(
        &self,
        remote_config: &RemoteConfig,
        project: &str,
        path: &str,
        nonbare: bool,
    ) -> (r: (Replacement, Replacement))
        ensures
            ({
                let local = local_name(remote_config.project_renames@, project@);
                let git = if nonbare {
                    joined(path@, ".git"@)
                } else {
                    path@
                };
                &&& r.0@ == taken_heads(self.path@, remote_config.name@, local, git)
                &&& r.1@ == taken_tags(self.path@, remote_config.name@, local, git)
            }),
    {
        let local: ProjectName = Depot::apply_project_renames(remote_config, project);
        let mirror: String = self.refs_mirror(remote_config, &local);
        let git: String = Depot::git_path(path, nonbare);
        let branches: Replacement = Replacement {
            src: Depot::refs_dir(mirror.as_str(), "heads"),
            dst: join_path(
                Depot::refs_dir(git.as_str(), "remotes").as_str(),
                remote_config.name.as_str(),
            ),
        };
        let tags: Replacement = Replacement {
            src: Depot::refs_dir(mirror.as_str(), "tags"),
            dst: Depot::refs_dir(git.as_str(), "tags"),
        };
        (branches, tags)
    }
}

/// Projects of different names have their objects in different directories.
pub proof fn law_mirrors_distinct(depot: Seq<char>, a: Seq<char>, b: Seq<char>)
    requires
        is_project_name(a),
        is_project_name(b),
        a != b,
    ensures
        objects_path(depot, a) != objects_path(depot, b),
{
    reveal_strlit("objects");
    reveal_strlit(".git");
    let base = joined(depot, "objects"@);
    assert(base.len() > 0 && base.last() == 's');
    let dir = base + seq!['/'];
    assert(!begins_with(a + ".git"@, '/') && !begins_with(b + ".git"@, '/'));
    let left = objects_path(depot, a);
    let right = objects_path(depot, b);
    assert(left == dir + (a + ".git"@));
    assert(right == dir + (b + ".git"@));
    if left == right {
        assert(a.len() == b.len());
        assert forall|i: int| 0 <= i < a.len() implies a[i] == b[i] by {
            assert(left[dir.len() + i] == a[i]);
            assert(right[dir.len() + i] == b[i]);
        }
        assert(a =~= b);
    }
}

/// The branches and tags of a project in a tree are taken from where a fetch has put them.
pub proof fn law_fetched_refs_are_taken(
    depot: Seq<char>,
    remote: Seq<char>,
    local: Seq<char>,
    git: Seq<char>,
)
    ensures
        fetched_heads(depot, remote, local).dst == taken_heads(depot, remote, local, git).src,
        fetched_tags(depot, remote, local).dst == taken_tags(depot, remote, local, git).src,
{
}

/// Every target is asked for, whatever else is: the last arguments are the targets in order, each
/// under a tag of its own number.
pub proof fn law_every_target_fetched(
    objects: Seq<char>,
    remote: Seq<char>,
    list: Seq<Seq<char>>,
    tags: bool,
    depth: Option<i32>,
    i: int,
)
    requires
        0 <= i < list.len(),
    ensures
        ({
            let arguments = fetch_arguments(objects, remote, Some(list), tags, depth);
            &&& arguments.len() >= 4 + list.len()
            &&& arguments[arguments.len() - list.len() + i] == "+"@ + list[i]
                + ":refs/tags/PORE_FETCH_LAST_"@ + decimal(i)
        }),
{
}

/// A fetch names the repository and the remote. Asking for tags adds `--tags` and nothing else, and
/// asking for a depth adds `--depth` and the number and nothing else, whatever else is asked for;
/// targets are added behind all of these, and without them nothing is.
pub proof fn law_fetch_options_are_independent(
    objects: Seq<char>,
    remote: Seq<char>,
    targets: Option<Seq<Seq<char>>>,
    tags: bool,
    depth: Option<i32>,
    n: i32,
)
    ensures
        fetch_arguments(objects, remote, None, false, None) == seq![
            "-C"@,
            objects,
            "fetch"@,
            remote,
        ],
        fetch_arguments(objects, remote, targets, true, depth) == ({
            let untagged = fetch_arguments(objects, remote, targets, false, depth);
            untagged.take(4) + seq!["--tags"@] + untagged.skip(4)
        }),
        fetch_arguments(objects, remote, targets, tags, Some(n)) == ({
            let whole = fetch_arguments(objects, remote, targets, tags, None);
            let at: int = if tags {
                5
            } else {
                4
            };
            whole.take(at) + seq!["--depth"@, decimal(n as int)] + whole.skip(at)
        }),
        ({
            let plain = fetch_arguments(objects, remote, None, tags, depth);
            let arguments = fetch_arguments(objects, remote, targets, tags, depth);
            &&& plain.is_prefix_of(arguments)
            &&& arguments.len() == plain.len() + (match targets {
                Some(list) => list.len(),
                None => 0nat,
            })
        }),
{
    assert(fetch_arguments(objects, remote, None, false, None) =~= seq![
        "-C"@,
        objects,
        "fetch"@,
        remote,
    ]);
    let untagged = fetch_arguments(objects, remote, targets, false, depth);
    assert(fetch_arguments(objects, remote, targets, true, depth) =~= untagged.take(4) + seq![
        "--tags"@,
    ] + untagged.skip(4));
    let whole = fetch_arguments(objects, remote, targets, tags, None);
    let at: int = if tags {
        5
    } else {
        4
    };
    assert(fetch_arguments(objects, remote, targets, tags, Some(n)) =~= whole.take(at) + seq![
        "--depth"@,
        decimal(n as int),
    ] + whole.skip(at));
    assert(fetch_arguments(objects, remote, None, tags, depth).is_prefix_of(
        fetch_arguments(objects, remote, targets, tags, depth),
    ));
}

/// Behind the remote, `--tags` stands exactly where tags are asked for, and `--depth` exactly where a
/// depth is, with the number behind it; neither a target nor a number is taken for one of them.
pub proof fn law_fetch_flags_where_asked(
    objects: Seq<char>,
    remote: Seq<char>,
    targets: Option<Seq<Seq<char>>>,
    tags: bool,
    depth: Option<i32>,
)
    ensures
        ({
            let arguments = fetch_arguments(objects, remote, targets, tags, depth);
            &&& tags <==> exists|k: int|
                4 <= k < arguments.len() && #[trigger] arguments[k] == "--tags"@
            &&& depth is Some <==> exists|k: int|
                4 <= k < arguments.len() && #[trigger] arguments[k] == "--depth"@
            &&& forall|k: int|
                4 <= k < arguments.len() && #[trigger] arguments[k] == "--depth"@ ==> depth is Some
                    && k + 1 < arguments.len() && arguments[k + 1] == decimal(depth->0 as int)
        }),
{
    reveal_strlit("--tags");
    reveal_strlit("--depth");
    reveal_strlit("+");
    let arguments = fetch_arguments(objects, remote, targets, tags, depth);
    let at: int = if tags {
        5
    } else {
        4
    };
    if tags {
        assert(arguments[4] == "--tags"@);
    }
    if let Some(n) = depth {
        assert(arguments[at] == "--depth"@);
        assert(arguments[at + 1] == decimal(n as int));
        lemma_number_is_no_option(n as int);
    }
    assert("--tags"@.len() != "--depth"@.len());
    let first: int = if depth is Some {
        at + 2
    } else {
        at
    };
    assert forall|k: int| first <= k < arguments.len() implies (#[trigger] arguments[k])[0]
        == '+' by {
        let list = targets->0;
        let i = k - first;
        assert(arguments[k] == "+"@ + list[i] + ":refs/tags/PORE_FETCH_LAST_"@ + decimal(i));
        assert(("+"@ + list[i])[0] == '+');
    }
}

/// A number does not begin with two hyphens.
proof fn lemma_number_is_no_option(n: int)
    ensures
        decimal(n).len() > 1 ==> decimal(n)[0] != '-' || decimal(n)[1] != '-',
        decimal(n).len() > 0,
{
    let m: nat = if n < 0 {
        (-n) as nat
    } else {
        n as nat
    };
    law_numeral_read_back(m);
    law_digits_value(numeral(m, 10));
    assert('0' <= numeral(m, 10)[0] <= '9');
    if n < 0 {
        assert(decimal(n)[1] == numeral(m, 10)[0]);
    }
}

/// The first rename that applies gives a project its name in depots, wherever it stands; where none
/// applies, the name stays.
pub proof fn law_first_rename_counts(renames: Seq<ProjectRename>, project: Seq<char>, i: int)
    requires
        0 <= i < renames.len(),
        forall|j: int|
            0 <= j < i ==> renamed(
                (#[trigger] renames[j]).pattern_text(),
                renames[j].replacement_text(),
                project,
            ) is None,
    ensures
        renamed(renames[i].pattern_text(), renames[i].replacement_text(), project) matches Some(
            name,
        ) ==> local_name(renames, project) == name,
        i == renames.len() - 1 && renamed(
            renames[i].pattern_text(),
            renames[i].replacement_text(),
            project,
        ) is None ==> local_name(renames, project) == project,
        local_name(Seq::empty(), project) == project,
{
    let holds = |c: Option<Seq<char>>| c is Some;
    let all = candidate_names(renames, project);
    assert forall|j: int| 0 <= j < i implies !holds(#[trigger] all[j]) by {
        assert(all[j] == renamed(
            renames[j].pattern_text(),
            renames[j].replacement_text(),
            project,
        ));
    }
    lemma_find_from(all, holds, i);
    if all[i] is None {
        assert forall|j: int| 0 <= j < i + 1 implies !holds(#[trigger] all[j]) by {}
        lemma_find_from(all, holds, i + 1);
    }
    lemma_find_from(candidate_names(Seq::empty(), project), holds, 0);
}

/// Where a depot keeps the objects and the refs of a project, spelled out.
pub proof fn law_mirror_places(depot: Seq<char>, remote: Seq<char>, project: Seq<char>)
    requires
        depot.len() > 0,
        !finishes_with(depot, '/'),
        remote.len() > 0,
        !begins_with(remote, '/'),
        !finishes_with(remote, '/'),
        is_project_name(project),
    ensures
        objects_path(depot, project) == depot + "/objects/"@ + project + ".git"@,
        refs_path(depot, remote, project) == depot + "/refs/"@ + remote + "/"@ + project + ".git"@,
        objects_path(depot, project) != refs_path(depot, remote, project),
{
    reveal_strlit("objects");
    reveal_strlit("/objects/");
    reveal_strlit("refs");
    reveal_strlit("/refs/");
    reveal_strlit("/");
    reveal_strlit(".git");
    assert(!begins_with(project + ".git"@, '/'));
    assert(objects_path(depot, project) =~= depot + "/objects/"@ + project + ".git"@);
    let refs = joined(depot, "refs"@);
    assert(refs =~= depot + seq!['/'] + "refs"@);
    assert(joined(refs, remote) =~= depot + "/refs/"@ + remote);
    assert(refs_path(depot, remote, project) =~= depot + "/refs/"@ + remote + "/"@ + project
        + ".git"@);
    assert(objects_path(depot, project)[depot.len() as int + 1] == 'o');
    assert(refs_path(depot, remote, project)[depot.len() as int + 1] == 'r');
}

/// Where refs lie in a git directory, spelled out: a remote's branches, and heads and tags.
pub proof fn law_ref_places(git: Seq<char>, remote: Seq<char>, kind: Seq<char>)
    requires
        git.len() > 0,
        !finishes_with(git, '/'),
        !begins_with(remote, '/'),
        kind.len() > 0,
        !begins_with(kind, '/'),
    ensures
        refs_of(git, kind) == git + "/refs/"@ + kind,
        remote_refs_of(git, remote) == git + "/refs/remotes/"@ + remote,
{
    reveal_strlit("refs");
    reveal_strlit("/refs/");
    reveal_strlit("remotes");
    reveal_strlit("/refs/remotes/");
    assert(refs_of(git, kind) =~= git + "/refs/"@ + kind);
    assert(remote_refs_of(git, remote) =~= git + "/refs/remotes/"@ + remote);
}

/// A fetch copies the branches of the remote, as they are among the objects, to heads, and tags to
/// tags; and a tree takes heads as the branches of the remote, and tags as tags. So what the tree
/// then has of the remote is what was fetched.
pub proof fn law_refs_go_round(
    depot: Seq<char>,
    remote: Seq<char>,
    local: Seq<char>,
    git: Seq<char>,
)
    ensures
        ({
            let objects = objects_path(depot, local);
            let refs = refs_path(depot, remote, local);
            &&& fetched_heads(depot, remote, local).src == joined(
                joined(joined(objects, "refs"@), "remotes"@),
                remote,
            )
            &&& fetched_heads(depot, remote, local).dst == joined(joined(refs, "refs"@), "heads"@)
            &&& fetched_tags(depot, remote, local).src == joined(joined(objects, "refs"@), "tags"@)
            &&& fetched_tags(depot, remote, local).dst == joined(joined(refs, "refs"@), "tags"@)
            &&& taken_heads(depot, remote, local, git).dst == joined(
                joined(joined(git, "refs"@), "remotes"@),
                remote,
            )
            &&& taken_tags(depot, remote, local, git).dst == joined(joined(git, "refs"@), "tags"@)
        }),
{
}

/// A repository borrows its objects through the file that git looks into, which names the objects
/// of the other repository on a line of its own: in the repository itself where it is bare, else in
/// its `.git`.
pub proof fn law_objects_borrowed(src: Seq<char>, dst: Seq<char>, bare: bool)
    requires
        src.len() > 0,
        !finishes_with(src, '/'),
        dst.len() > 0,
        !finishes_with(dst, '/'),
    ensures
        alternates(src, dst, bare).repository == dst,
        alternates(src, dst, bare).bare == bare,
        alternates(src, dst, true).file == dst + "/objects/info/alternates"@,
        alternates(src, dst, false).file == dst + "/.git/objects/info/alternates"@,
        alternates(src, dst, bare).contents == src + "/objects\n"@,
{
    reveal_strlit(".git");
    reveal_strlit("objects");
    reveal_strlit("info");
    reveal_strlit("alternates");
    reveal_strlit("/objects/info/alternates");
    reveal_strlit("/.git/objects/info/alternates");
    reveal_strlit("/objects\n");
    reveal_strlit("\n");
    assert(alternates(src, dst, true).file =~= dst + "/objects/info/alternates"@);
    let git = joined(dst, ".git"@);
    assert(git =~= dst + seq!['/'] + ".git"@);
    assert(joined(git, "objects"@) =~= dst + seq!['/'] + ".git"@ + seq!['/'] + "objects"@);
    assert(alternates(src, dst, false).file =~= dst + "/.git/objects/info/alternates"@);
    assert(alternates(src, dst, bare).contents =~= src + "/objects\n"@);
}

/// A revision is looked for as a branch of the remote first, and only then under its own name.
pub proof fn law_remote_branch_comes_first(remote: Seq<char>, revision: Seq<char>)
    ensures
        revision_names(remote, revision).len() == 2,
        revision_names(remote, revision)[0] == remote + "/"@ + revision,
        revision_names(remote, revision)[1] == revision,
{
}

/// A project's name is refused exactly where it begins or ends with a `/`.
pub proof fn law_project_names(name: Seq<char>, c: char)
    ensures
        !is_project_name(seq!['/'] + name),
        !is_project_name(name.push('/')),
        is_project_name(Seq::empty()),
        c != '/' ==> (is_project_name(seq![c] + name) <==> (name.len() == 0 || name.last() != '/')),
{
    let whole = seq![c] + name;
    assert(name.len() > 0 ==> whole.last() == name.last());
    assert((seq!['/'] + name)[0] == '/');
    assert(name.push('/').last() == '/');
}

/// A project is fetched from its own name at the remote, and into its name in the depot, whether or
/// not the two are the same; and it is refused only for its name.
pub proof fn law_fetched_under_own_name(
    depot: &Depot,
    remote: &RemoteConfig,
    project: &str,
    targets: Option<&Vec<String>>,
    tags: bool,
    depth: Option<i32>,
    mux: &str,
    r: Result<FetchPlan, InvalidProject>,
)
    requires
        call_ensures(Depot::fetch_repo, (depot, remote, project, targets, tags, depth, mux), r),
    ensures
        r is Ok <==> !begins_with(project@, '/') && !finishes_with(project@, '/'),
        r matches Ok(plan) ==> {
            let local = local_name(remote.project_renames@, project@);
            &&& plan.url@ == remote.url@ + project@ + ".git"@
            &&& plan.objects@ == objects_path(depot.path@, local)
            &&& plan.arguments@.len() >= 4
            &&& plan.arguments@[1]@ == plan.objects@
            &&& plan.arguments@[3]@ == remote.name@
            &&& plan.refs.repository@ == refs_path(depot.path@, remote.name@, local)
            &&& targets matches Some(list) ==> forall|i: int|
                0 <= i < list@.len() ==> #[trigger] plan.arguments@[plan.arguments@.len()
                    - list@.len() + i]@ == "+"@ + list@[i]@ + ":refs/tags/PORE_FETCH_LAST_"@
                    + decimal(i)
        },
{
    if let Ok(plan) = r {
        let arguments = plan.arguments.deep_view();
        assert(plan.refs@.repository == plan.refs.repository@);
        assert(arguments.len() == plan.arguments@.len() && arguments.len() >= 4);
        assert(arguments[1] == plan.arguments@[1]@);
        assert(arguments[3] == plan.arguments@[3]@);
        if let Some(list) = targets {
            let all = list.deep_view();
            assert forall|i: int| 0 <= i < list@.len() implies #[trigger] plan.arguments@[
            plan.arguments@.len() - list@.len() + i]@ == "+"@ + list@[i]@
                + ":refs/tags/PORE_FETCH_LAST_"@ + decimal(i) by {
                let at = plan.arguments@.len() - list@.len() + i;
                law_every_target_fetched(plan.objects@, remote.name@, all, tags, depth, i);
                assert(arguments[at] == plan.arguments@[at]@);
                assert(all[i] == list@[i]@);
            }
        }
    }
}

/// A project in a tree is pushed to its own name at the remote, and takes its objects and refs from
/// its name in the depot.
pub proof fn law_cloned_from_depot(
    depot: &Depot,
    remote: &RemoteConfig,
    project: &str,
    branch: &str,
    path: &str,
    plan: ClonePlan,
)
    requires
        call_ensures(Depot::clone_repo, (depot, remote, project, branch, path), plan),
    ensures
        ({
            let local = local_name(remote.project_renames@, project@);
            &&& plan.push_url@ == remote.url@ + project@
            &&& plan.url@ == refs_path(depot.path@, remote.name@, local)
            &&& plan.repository.repository@ == path@
            &&& !plan.repository.bare
            &&& plan.repository.contents@ == joined(
                objects_path(depot.path@, local),
                "objects"@,
            ) + "\n"@
            &&& plan.revisions@.len() == 2
            &&& plan.revisions@[0]@ == remote.name@ + "/"@ + branch@
            &&& plan.revisions@[1]@ == branch@
        }),
{
    let names = plan.revisions.deep_view();
    assert(names.len() == 2);
    assert(names[0] == plan.revisions@[0]@);
    assert(names[1] == plan.revisions@[1]@);
    assert(plan.repository@.repository == plan.repository.repository@);
    assert(plan.repository@.contents == plan.repository.contents@);
}

/// The refs of a project in a tree are replaced in its git directory: in `.git` where it has one,
/// and in the repository itself where it is bare.
pub proof fn law_refs_updated_in_git_directory(
    depot: &Depot,
    remote: &RemoteConfig,
    project: &str,
    path: &str,
    nonbare: bool,
    git: String,
    r: (Replacement, Replacement),
)
    requires
        call_ensures(Depot::git_path, (path, nonbare), git),
        call_ensures(Depot::update_remote_refs, (depot, remote, project, path, nonbare), r),
    ensures
        nonbare ==> git@ == joined(path@, ".git"@),
        !nonbare ==> git@ == path@,
        r.0.dst@ == remote_refs_of(git@, remote.name@),
        r.1.dst@ == refs_of(git@, "tags"@),
        ({
            let refs = refs_path(
                depot.path@,
                remote.name@,
                local_name(remote.project_renames@, project@),
            );
            r.0.src@ == refs_of(refs, "heads"@) && r.1.src@ == refs_of(refs, "tags"@)
        }),
{
    assert(r.0@.dst == r.0.dst@ && r.0@.src == r.0.src@);
    assert(r.1@.dst == r.1.dst@ && r.1@.src == r.1.src@);
}

} // verus!
