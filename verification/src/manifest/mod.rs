//! Manifests: which projects a tree holds, and where they come from.
use vstd::prelude::*;

use crate::text::{copy_list, copy_option, same_text};

pub mod attributes;
pub mod builder;
pub mod collections;
pub mod contents;
pub mod elements;
pub mod flat;
pub mod given;
pub mod lookup;
pub mod parser;
pub mod properties;
pub mod readback;
pub mod reading;
pub mod serializer;
pub mod writing;

pub use collections::{ProjectEntry, ProjectMap, RemoteMap};

verus! {

/// A manifest.
pub struct Manifest {
    pub remotes: RemoteMap,
    pub projects: ProjectMap,
    pub default: Option<Default>,
    pub manifest_server: Option<ManifestServer>,
    pub superproject: Option<SuperProject>,
    pub contactinfo: Option<ContactInfo>,
    pub repo_hooks: Option<RepoHooks>,
}

/// A manifest, as a value.
#[verifier::ext_equal]
pub struct ManifestView {
    pub remotes: Seq<RemoteView>,
    pub projects: Seq<(Seq<char>, ProjectView)>,
    pub default: Option<DefaultView>,
    pub manifest_server: Option<Seq<char>>,
    pub superproject: Option<SuperProjectView>,
    pub contactinfo: Option<Seq<char>>,
    pub repo_hooks: Option<RepoHooksView>,
}

impl View for Manifest {
    type V = ManifestView;

    open spec fn view(&self) -> ManifestView {
        ManifestView {
            remotes: self.remotes@,
            projects: self.projects@,
            default: match self.default {
                Some(d) => Some(d@),
                None => None,
            },
            manifest_server: match self.manifest_server {
                Some(s) => Some(s.url@),
                None => None,
            },
            superproject: match self.superproject {
                Some(s) => Some(s@),
                None => None,
            },
            contactinfo: match self.contactinfo {
                Some(c) => Some(c.bug_url@),
                None => None,
            },
            repo_hooks: match self.repo_hooks {
                Some(h) => Some(h@),
                None => None,
            },
        }
    }
}

/// The manifest that says nothing.
pub open spec fn empty_manifest() -> ManifestView {
    ManifestView {
        remotes: Seq::empty(),
        projects: Seq::empty(),
        default: None,
        manifest_server: None,
        superproject: None,
        contactinfo: None,
        repo_hooks: None,
    }
}

/// A place that projects come from.
pub struct Remote {
    pub name: String,
    pub alias: Option<String>,
    pub fetch: String,
    pub review: Option<String>,
    pub revision: Option<String>,
}

/// A place that projects come from, as a value.
pub struct RemoteView {
    pub name: Seq<char>,
    pub alias: Option<Seq<char>>,
    pub fetch: Seq<char>,
    pub review: Option<Seq<char>>,
    pub revision: Option<Seq<char>>,
}

impl View for Remote {
    type V = RemoteView;

    open spec fn view(&self) -> RemoteView {
        RemoteView {
            name: self.name@,
            alias: self.alias.deep_view(),
            fetch: self.fetch@,
            review: self.review.deep_view(),
            revision: self.revision.deep_view(),
        }
    }
}

impl DeepView for Remote {
    type V = RemoteView;

    open spec fn deep_view(&self) -> RemoteView {
        self@
    }
}

/// What holds of a project that does not say otherwise.
pub struct Default {
    pub revision: Option<String>,
    pub remote: Option<String>,
    pub sync_j: Option<u32>,
    pub sync_c: Option<bool>,
}

/// What holds of a project that does not say otherwise, as a value.
pub struct DefaultView {
    pub revision: Option<Seq<char>>,
    pub remote: Option<Seq<char>>,
    pub sync_j: Option<u32>,
    pub sync_c: Option<bool>,
}

impl View for Default {
    type V = DefaultView;

    open spec fn view(&self) -> DefaultView {
        DefaultView {
            revision: self.revision.deep_view(),
            remote: self.remote.deep_view(),
            sync_j: self.sync_j,
            sync_c: self.sync_c,
        }
    }
}

/// A server that knows of manifests.
pub struct ManifestServer {
    pub url: String,
}

/// A project that holds all projects.
pub struct SuperProject {
    pub name: String,
    pub remote: String,
}

/// A project that holds all projects, as a value.
pub struct SuperProjectView {
    pub name: Seq<char>,
    pub remote: Seq<char>,
}

impl View for SuperProject {
    type V = SuperProjectView;

    open spec fn view(&self) -> SuperProjectView {
        SuperProjectView { name: self.name@, remote: self.remote@ }
    }
}

/// Where bugs are reported.
pub struct ContactInfo {
    pub bug_url: String,
}

/// A project: a git repository and its place in the tree.
pub struct Project {
    pub name: String,
    pub path: Option<String>,
    pub remote: Option<String>,
    pub revision: Option<String>,
    pub dest_branch: Option<String>,
    pub groups: Option<Vec<String>>,
    pub sync_c: Option<bool>,
    pub clone_depth: Option<u32>,
    pub file_operations: Vec<FileOperation>,
    pub annotations: Vec<(String, String)>,
}

/// A project, as a value.
#[verifier::ext_equal]
pub struct ProjectView {
    pub name: Seq<char>,
    pub path: Option<Seq<char>>,
    pub remote: Option<Seq<char>>,
    pub revision: Option<Seq<char>>,
    pub dest_branch: Option<Seq<char>>,
    pub groups: Option<Seq<Seq<char>>>,
    pub sync_c: Option<bool>,
    pub clone_depth: Option<u32>,
    pub file_operations: Seq<FileOperationView>,
    pub annotations: Seq<(Seq<char>, Seq<char>)>,
}

impl View for Project {
    type V = ProjectView;

    open spec fn view(&self) -> ProjectView {
        ProjectView {
            name: self.name@,
            path: self.path.deep_view(),
            remote: self.remote.deep_view(),
            revision: self.revision.deep_view(),
            dest_branch: self.dest_branch.deep_view(),
            groups: self.groups.deep_view(),
            sync_c: self.sync_c,
            clone_depth: self.clone_depth,
            file_operations: self.file_operations.deep_view(),
            annotations: self.annotations.deep_view(),
        }
    }
}

/// A change to the projects of a name.
pub struct ExtendProject {
    pub name: String,
    pub path: Option<String>,
    pub groups: Option<Vec<String>>,
    pub revision: Option<String>,
    pub remote: Option<String>,
}

/// A file of a project that also appears elsewhere in the tree.
pub enum FileOperation {
    /// A link to the file.
    LinkFile { src: String, dst: String },
    /// A copy of the file.
    CopyFile { src: String, dst: String },
}

/// A file of a project that also appears elsewhere in the tree, as a value.
pub enum FileOperationView {
    LinkFile { src: Seq<char>, dst: Seq<char> },
    CopyFile { src: Seq<char>, dst: Seq<char> },
}

impl View for FileOperation {
    type V = FileOperationView;

    open spec fn view(&self) -> FileOperationView {
        match self {
            FileOperation::LinkFile { src, dst } => FileOperationView::LinkFile {
                src: src@,
                dst: dst@,
            },
            FileOperation::CopyFile { src, dst } => FileOperationView::CopyFile {
                src: src@,
                dst: dst@,
            },
        }
    }
}

impl DeepView for FileOperation {
    type V = FileOperationView;

    open spec fn deep_view(&self) -> FileOperationView {
        self@
    }
}

/// The file in the project.
pub open spec fn operation_src(op: FileOperationView) -> Seq<char> {
    match op {
        FileOperationView::LinkFile { src, .. } => src,
        FileOperationView::CopyFile { src, .. } => src,
    }
}

/// The place where the file also appears.
pub open spec fn operation_dst(op: FileOperationView) -> Seq<char> {
    match op {
        FileOperationView::LinkFile { dst, .. } => dst,
        FileOperationView::CopyFile { dst, .. } => dst,
    }
}

/// The project that holds hooks, and which of them are enabled.
pub struct RepoHooks {
    pub in_project: Option<String>,
    pub enabled_list: Option<String>,
}

/// The project that holds hooks, and which of them are enabled, as a value.
pub struct RepoHooksView {
    pub in_project: Option<Seq<char>>,
    pub enabled_list: Option<Seq<char>>,
}

impl View for RepoHooks {
    type V = RepoHooksView;

    open spec fn view(&self) -> RepoHooksView {
        RepoHooksView {
            in_project: self.in_project.deep_view(),
            enabled_list: self.enabled_list.deep_view(),
        }
    }
}

impl FileOperation {
    /// The file in the project, as a path from the project.
    pub fn src(&self) -> (r: &str)
        ensures
            r@ == operation_src(self@),
    {
        match self {
            FileOperation::LinkFile { src, .. } => src.as_str(),
            FileOperation::CopyFile { src, .. } => src.as_str(),
        }
    }

    /// The place where the file also appears, as a path from the root of the tree.
    pub fn dst(&self) -> (r: &str)
        ensures
            r@ == operation_dst(self@),
    {
        match self {
            FileOperation::LinkFile { dst, .. } => dst.as_str(),
            FileOperation::CopyFile { dst, .. } => dst.as_str(),
        }
    }
}

impl Clone for FileOperation {
    fn clone(&self) -> (r: FileOperation)
        ensures
            r@ == self@,
    {
        match self {
            FileOperation::LinkFile { src, dst } => FileOperation::LinkFile {
                src: src.clone(),
                dst: dst.clone(),
            },
            FileOperation::CopyFile { src, dst } => FileOperation::CopyFile {
                src: src.clone(),
                dst: dst.clone(),
            },
        }
    }
}

/// A copy of a list of file operations.
pub fn copy_operations(ops: &Vec<FileOperation>) -> (r: Vec<FileOperation>)
    ensures
        r.deep_view() == ops.deep_view(),
{
    let mut r: Vec<FileOperation> = Vec::new();
    let mut i: usize = 0;
    while i < ops.len()
        invariant
            i <= ops.len(),
            r.deep_view() == ops.deep_view().take(i as int),
        decreases ops.len() - i,
    {
        let ghost before = r.deep_view();
        r.push(ops[i].clone());
        assert(r.deep_view() =~= before.push(ops@[i as int]@));
        assert(r.deep_view() =~= ops.deep_view().take(i + 1));
        i += 1;
    }
    assert(ops.deep_view().take(ops@.len() as int) =~= ops.deep_view());
    r
}

/// A copy of a list of pairs of texts.
fn copy_pairs(pairs: &Vec<(String, String)>) -> (r: Vec<(String, String)>)
    ensures
        r.deep_view() == pairs.deep_view(),
{
    let mut r: Vec<(String, String)> = Vec::new();
    let mut i: usize = 0;
    while i < pairs.len()
        invariant
            i <= pairs.len(),
            r.deep_view() == pairs.deep_view().take(i as int),
        decreases pairs.len() - i,
    {
        let ghost before = r.deep_view();
        r.push((pairs[i].0.clone(), pairs[i].1.clone()));
        assert(r.deep_view() =~= before.push((pairs@[i as int].0@, pairs@[i as int].1@)));
        assert(r.deep_view() =~= pairs.deep_view().take(i + 1));
        i += 1;
    }
    assert(pairs.deep_view().take(pairs@.len() as int) =~= pairs.deep_view());
    r
}

impl Clone for Project {
    fn clone(&self) -> (r: Project)
        ensures
            r@ == self@,
    {
        Project {
            name: self.name.clone(),
            path: copy_option(&self.path),
            remote: copy_option(&self.remote),
            revision: copy_option(&self.revision),
            dest_branch: copy_option(&self.dest_branch),
            groups: match &self.groups {
                Some(groups) => Some(copy_list(groups)),
                None => None,
            },
            sync_c: self.sync_c,
            clone_depth: self.clone_depth,
            file_operations: copy_operations(&self.file_operations),
            annotations: copy_pairs(&self.annotations),
        }
    }
}

/// The place of a project in the tree: its path, or its name where it has none.
pub open spec fn project_path(project: ProjectView) -> Seq<char> {
    match project.path {
        Some(path) => path,
        None => project.name,
    }
}

/// A project after a change: only at the path that the change names, if it names one, groups are
/// added, and revision and remote are replaced where the change has one.
pub open spec fn extended_project(
    path: Option<Seq<char>>,
    groups: Option<Seq<Seq<char>>>,
    revision: Option<Seq<char>>,
    remote: Option<Seq<char>>,
    project: ProjectView,
) -> ProjectView {
    if path is Some && path->0 != project_path(project) {
        project
    } else {
        ProjectView {
            groups: match groups {
                Some(added) => Some(
                    match project.groups {
                        Some(old_groups) => old_groups + added,
                        None => added,
                    },
                ),
                None => project.groups,
            },
            revision: match revision {
                Some(r) => Some(r),
                None => project.revision,
            },
            remote: match remote {
                Some(r) => Some(r),
                None => project.remote,
            },
            ..project
        }
    }
}

/// A change leaves a project where it is, under its name and with its files.
pub proof fn law_extension_keeps_place(
    path: Option<Seq<char>>,
    groups: Option<Seq<Seq<char>>>,
    revision: Option<Seq<char>>,
    remote: Option<Seq<char>>,
    project: ProjectView,
)
    ensures
        ({
            let after = extended_project(path, groups, revision, remote, project);
            &&& after.name == project.name
            &&& project_path(after) == project_path(project)
            &&& after.file_operations == project.file_operations
        }),
{
}

impl Project {
    /// The place of the project in the tree.
    pub fn path(&self) -> (r: String)
        ensures
            r@ == project_path(self@),
    {
        match &self.path {
            Some(path) => path.clone(),
            None => self.name.clone(),
        }
    }
}

impl ExtendProject {
    /// The project with the change made to it.
    pub fn extend(&self, project: &Project) -> (r: Project)
        ensures
            r@ == extended_project(
                self.path.deep_view(),
                self.groups.deep_view(),
                self.revision.deep_view(),
                self.remote.deep_view(),
                project@,
            ),
    {
        match &self.path {
            Some(path) => {
                if !same_text(path.as_str(), project.path().as_str()) {
                    return project.clone();
                }
            },
            None => {},
        }
        let mut extended: Project = project.clone();
        match &self.groups {
            Some(groups) => {
                let mut all: Vec<String> = match &project.groups {
                    Some(present) => copy_list(present),
                    None => Vec::new(),
                };
                let ghost before = all.deep_view();
                let mut added: Vec<String> = copy_list(groups);
                let ghost added_view = added.deep_view();
                all.append(&mut added);
                assert(all.deep_view() =~= before + added_view);
                assert(project.groups is None ==> before + added_view =~= added_view);
                extended.groups = Some(all);
            },
            None => {},
        }
        match &self.revision {
            Some(revision) => {
                extended.revision = Some(revision.clone());
            },
            None => {},
        }
        match &self.remote {
            Some(remote) => {
                extended.remote = Some(remote.clone());
            },
            None => {},
        }
        extended
    }
}

impl Manifest {
    /// The manifest that says nothing.
    pub fn new() -> (r: Manifest)
        ensures
            r@ == empty_manifest(),
    {
        Manifest {
            remotes: RemoteMap::new(),
            projects: ProjectMap::new(),
            default: None,
            manifest_server: None,
            superproject: None,
            contactinfo: None,
            repo_hooks: None,
        }
    }
}

/// A change that names another path leaves a project as it is. Otherwise the revision, the remote
/// and the groups change each on its own: revision and remote are replaced where the change has
/// one, and groups are added behind those that are there; all else stays.
pub proof fn law_extension_changes_each_on_its_own(
    path: Option<Seq<char>>,
    groups: Option<Seq<Seq<char>>>,
    revision: Option<Seq<char>>,
    remote: Option<Seq<char>>,
    project: ProjectView,
)
    ensures
        ({
            let after = extended_project(path, groups, revision, remote, project);
            let place = match project.path {
                Some(own) => own,
                None => project.name,
            };
            &&& path matches Some(other) ==> other != place ==> after == project
            &&& path is None || path->0 == place ==> {
                &&& revision matches Some(new) ==> after.revision == Some(new)
                &&& revision is None ==> after.revision == project.revision
                &&& remote matches Some(new) ==> after.remote == Some(new)
                &&& remote is None ==> after.remote == project.remote
                &&& groups is None ==> after.groups == project.groups
                &&& groups matches Some(added) ==> {
                    &&& project.groups is None ==> after.groups == Some(added)
                    &&& project.groups matches Some(own) ==> after.groups == Some(own + added)
                }
                &&& after == (ProjectView {
                    revision: after.revision,
                    remote: after.remote,
                    groups: after.groups,
                    ..project
                })
            }
        }),
{
}

/// A project is at its path, and at its name only where it has none.
pub proof fn law_project_is_at_its_path(project: ProjectView, path: Seq<char>)
    ensures
        project_path((ProjectView { path: Some(path), ..project })) == path,
        project_path((ProjectView { path: None, ..project })) == project.name,
{
}

/// Where a file of a project comes from and where it goes do not depend on whether it is copied or
/// linked.
pub proof fn law_operation_places(src: Seq<char>, dst: Seq<char>)
    ensures
        operation_src((FileOperationView::CopyFile { src, dst })) == src,
        operation_src((FileOperationView::LinkFile { src, dst })) == src,
        operation_dst((FileOperationView::CopyFile { src, dst })) == dst,
        operation_dst((FileOperationView::LinkFile { src, dst })) == dst,
{
}

} // verus!
