//! Which projects of a manifest a command works on.
use vstd::prelude::*;

use crate::depot::add_argument;
use crate::lists::law_find_first;
use crate::manifest::collections::entry_at;
use crate::manifest::lookup::named_revision;
use crate::manifest::{
    copy_operations, FileOperation, FileOperationView, Manifest, ManifestView, Project,
    ProjectEntry, ProjectView,
};
use crate::path::{components, diff_paths, lies_beneath, path_difference, starts_with_path};
use crate::tree::groups::{groups_or_none, passes, GroupFilterView};
use crate::tree::{GroupFilter, Tree};

verus! {

/// A project that a command works on.
pub struct ProjectInfo {
    pub project_path: String,
    pub project_name: String,
    pub revision: String,
    pub file_ops: Vec<FileOperation>,
}

/// A project that a command works on, as a value.
#[verifier::ext_equal]
pub struct ProjectInfoView {
    pub project_path: Seq<char>,
    pub project_name: Seq<char>,
    pub revision: Seq<char>,
    pub file_ops: Seq<FileOperationView>,
}

impl View for ProjectInfo {
    type V = ProjectInfoView;

    open spec fn view(&self) -> ProjectInfoView {
        ProjectInfoView {
            project_path: self.project_path@,
            project_name: self.project_name@,
            revision: self.revision@,
            file_ops: self.file_ops.deep_view(),
        }
    }
}

impl DeepView for ProjectInfo {
    type V = ProjectInfoView;

    open spec fn deep_view(&self) -> ProjectInfoView {
        self@
    }
}

impl Clone for ProjectInfo {
    fn clone(&self) -> (r: ProjectInfo)
        ensures
            r@ == self@,
    {
        ProjectInfo {
            project_path: self.project_path.clone(),
            project_name: self.project_name.clone(),
            revision: self.revision.clone(),
            file_ops: copy_operations(&self.file_ops),
        }
    }
}

/// How requested paths select projects.
#[derive(Copy, Clone, PartialEq, Eq, Structural, Debug)]
pub enum Reach {
    /// A path selects the project that it lies in.
    Containing,
    /// A path selects the project that it lies in, and all projects beneath it.
    Beneath,
}

/// The path selects the project.
pub open spec fn selects(reach: Reach, path: Seq<char>, project_path: Seq<char>) -> bool {
    lies_beneath(path, project_path) || (reach == Reach::Beneath && lies_beneath(
        project_path,
        path,
    ))
}

/// The project is selected: no path was requested, or one of them selects it.
pub open spec fn selected(reach: Reach, paths: Seq<Seq<char>>, project_path: Seq<char>) -> bool {
    paths.len() == 0 || exists|i: int|
        0 <= i < paths.len() && #[trigger] selects(reach, paths[i], project_path)
}

/// The revision of a project: its own, or that of the default, or the branch of the tree.
pub open spec fn tree_revision(
    project: ProjectView,
    manifest: ManifestView,
    branch: Seq<char>,
) -> Seq<char> {
    match named_revision(project, manifest) {
        Some(revision) => revision,
        None => branch,
    }
}

/// What a command has to know of a project.
pub open spec fn info_of(
    entry: (Seq<char>, ProjectView),
    manifest: ManifestView,
    branch: Seq<char>,
) -> ProjectInfoView {
    ProjectInfoView {
        project_path: entry.0,
        project_name: entry.1.name,
        revision: tree_revision(entry.1, manifest, branch),
        file_ops: entry.1.file_operations,
    }
}

/// The filters of a tree; without any it has none.
pub open spec fn filters_or_none(filters: Option<Seq<GroupFilterView>>) -> Seq<GroupFilterView> {
    match filters {
        Some(list) => list,
        None => Seq::empty(),
    }
}

/// The projects among the entries that pass the filters and are selected, in their order.
pub open spec fn collected(
    entries: Seq<(Seq<char>, ProjectView)>,
    manifest: ManifestView,
    branch: Seq<char>,
    filters: Seq<GroupFilterView>,
    reach: Reach,
    paths: Seq<Seq<char>>,
) -> Seq<ProjectInfoView>
    decreases entries.len(),
{
    if entries.len() == 0 {
        Seq::empty()
    } else {
        let front = collected(entries.drop_last(), manifest, branch, filters, reach, paths);
        let entry = entries.last();
        if passes(filters, groups_or_none(entry.1.groups)) && selected(reach, paths, entry.0) {
            front.push(info_of(entry, manifest, branch))
        } else {
            front
        }
    }
}

/// The requested paths as seen from the root of the tree; the first that cannot be is named.
pub open spec fn relative_paths(requested: Seq<Seq<char>>, root: Seq<char>) -> Result<
    Seq<Seq<char>>,
    Seq<char>,
>
    decreases requested.len(),
{
    if requested.len() == 0 {
        Ok(Seq::empty())
    } else {
        match relative_paths(requested.drop_last(), root) {
            Err(path) => Err(path),
            Ok(front) => match path_difference(requested.last(), root) {
                Some(relative) => Ok(front.push(relative)),
                None => Err(requested.last()),
            },
        }
    }
}

/// The paths at which the entries have no project, in their order.
pub open spec fn gone(
    paths: Seq<Seq<char>>,
    entries: Seq<(Seq<char>, ProjectView)>,
) -> Seq<Seq<char>>
    decreases paths.len(),
{
    if paths.len() == 0 {
        Seq::empty()
    } else {
        let front = gone(paths.drop_last(), entries);
        if entry_at(entries, paths.last()) is None {
            front.push(paths.last())
        } else {
            front
        }
    }
}

/// Every project that a command works on is in the manifest, passes the filters and is selected.
pub proof fn law_collected_are_wanted(
    entries: Seq<(Seq<char>, ProjectView)>,
    manifest: ManifestView,
    branch: Seq<char>,
    filters: Seq<GroupFilterView>,
    reach: Reach,
    paths: Seq<Seq<char>>,
    k: int,
)
    requires
        0 <= k < collected(entries, manifest, branch, filters, reach, paths).len(),
    ensures
        exists|i: int|
            0 <= i < entries.len() && passes(
                filters,
                groups_or_none((#[trigger] entries[i]).1.groups),
            ) && selected(reach, paths, entries[i].0) && collected(
                entries,
                manifest,
                branch,
                filters,
                reach,
                paths,
            )[k] == info_of(entries[i], manifest, branch),
    decreases entries.len(),
{
    let front = entries.drop_last();
    let first = collected(front, manifest, branch, filters, reach, paths);
    if k < first.len() {
        law_collected_are_wanted(front, manifest, branch, filters, reach, paths, k);
        let i = choose|i: int|
            0 <= i < front.len() && passes(filters, groups_or_none((#[trigger] front[i]).1.groups))
                && selected(reach, paths, front[i].0) && first[k] == info_of(
                front[i],
                manifest,
                branch,
            );
        assert(entries[i] == front[i]);
    } else {
        assert(entries[entries.len() - 1] == entries.last());
    }
}

/// No project that passes the filters and is selected is left out.
pub proof fn law_wanted_are_collected(
    entries: Seq<(Seq<char>, ProjectView)>,
    manifest: ManifestView,
    branch: Seq<char>,
    filters: Seq<GroupFilterView>,
    reach: Reach,
    paths: Seq<Seq<char>>,
    i: int,
)
    requires
        0 <= i < entries.len(),
        passes(filters, groups_or_none(entries[i].1.groups)),
        selected(reach, paths, entries[i].0),
    ensures
        collected(entries, manifest, branch, filters, reach, paths).contains(
            info_of(entries[i], manifest, branch),
        ),
    decreases entries.len(),
{
    let front = entries.drop_last();
    let first = collected(front, manifest, branch, filters, reach, paths);
    let all = collected(entries, manifest, branch, filters, reach, paths);
    if i < front.len() {
        assert(front[i] == entries[i]);
        law_wanted_are_collected(front, manifest, branch, filters, reach, paths, i);
        let k = choose|k: int| 0 <= k < first.len() && first[k] == info_of(front[i], manifest, branch);
        assert(all[k] == first[k]);
    } else {
        assert(all[all.len() - 1] == info_of(entries[i], manifest, branch));
    }
}

/// Whatever a path selects by lying in a project it also selects by reaching beneath itself, and
/// then it selects every project beneath it too.
pub proof fn law_beneath_reaches_further(path: Seq<char>, project_path: Seq<char>)
    ensures
        selects(Reach::Containing, path, project_path) ==> selects(
            Reach::Beneath,
            path,
            project_path,
        ),
        lies_beneath(project_path, path) ==> selects(Reach::Beneath, path, project_path),
{
}

/// Whether one of the paths selects the project.
fn is_selected(reach: Reach, paths: &Vec<String>, project_path: &str) -> (r: bool)
    ensures
        r == selected(reach, paths.deep_view(), project_path@),
{
    if paths.len() == 0 {
        return true;
    }
    let ghost all = paths.deep_view();
    let mut i: usize = 0;
    while i < paths.len()
        invariant
            i <= paths.len(),
            all == paths.deep_view(),
            all.len() > 0,
            forall|j: int| 0 <= j < i ==> !#[trigger] selects(reach, all[j], project_path@),
        decreases paths.len() - i,
    {
        assert(all[i as int] == paths@[i as int]@);
        if starts_with_path(paths[i].as_str(), project_path) || (reach == Reach::Beneath
            && starts_with_path(project_path, paths[i].as_str())) {
            assert(selects(reach, all[i as int], project_path@));
            return true;
        }
        i += 1;
    }
    false
}

/// A requested path cannot be seen from the root of the tree.
pub struct NotRelative {
    pub path: String,
}

/// The requested paths as seen from the root of the tree.
pub fn relative_to_root(requested: &Vec<String>, root: &str) -> (r: Result<
    Vec<String>,
    NotRelative,
>)
    ensures
        match relative_paths(requested.deep_view(), root@) {
            Ok(paths) => r is Ok && r->Ok_0.deep_view() == paths,
            Err(path) => r is Err && r->Err_0.path@ == path,
        },
        r is Ok ==> r->Ok_0@.len() == requested@.len() && forall|i: int|
            0 <= i < requested@.len() && lies_beneath(#[trigger] requested@[i]@, root@)
                ==> components(r->Ok_0@[i]@) == components(requested@[i]@).skip(
                components(root@).len() as int,
            ),
        (forall|i: int| 0 <= i < requested@.len() ==> lies_beneath(#[trigger] requested@[i]@, root@))
            ==> r is Ok,
{
    let ghost all = requested.deep_view();
    let mut paths: Vec<String> = Vec::new();
    let mut i: usize = 0;
    assert(paths.deep_view() =~= Seq::empty());
    while i < requested.len()
        invariant
            i <= requested.len(),
            all == requested.deep_view(),
            relative_paths(all.take(i as int), root@) == Ok::<Seq<Seq<char>>, Seq<char>>(
                paths.deep_view(),
            ),
            paths@.len() == i,
            forall|j: int|
                0 <= j < i && lies_beneath(#[trigger] requested@[j]@, root@) ==> components(
                    paths@[j]@,
                ) == components(requested@[j]@).skip(components(root@).len() as int),
        decreases requested.len() - i,
    {
        assert(all[i as int] == requested@[i as int]@);
        assert(all.take(i + 1).drop_last() =~= all.take(i as int));
        match diff_paths(requested[i].as_str(), root) {
            Some(relative) => {
                let ghost before = paths.deep_view();
                let ghost added = relative@;
                paths.push(relative);
                assert(paths.deep_view() =~= before.push(added));
            },
            None => {
                proof {
                    lemma_relative_fails(all, root@, i + 1);
                }
                return Err(NotRelative { path: requested[i].clone() });
            },
        }
        i += 1;
    }
    assert(all.take(all.len() as int) =~= all);
    Ok(paths)
}

/// The first failure is the one that counts.
proof fn lemma_relative_fails(requested: Seq<Seq<char>>, root: Seq<char>, n: int)
    requires
        0 <= n <= requested.len(),
        relative_paths(requested.take(n), root) is Err,
    ensures
        relative_paths(requested, root) == relative_paths(requested.take(n), root),
    decreases requested.len(),
{
    if n == requested.len() {
        assert(requested.take(n) =~= requested);
    } else {
        assert(requested.drop_last().take(n) =~= requested.take(n));
        lemma_relative_fails(requested.drop_last(), root, n);
    }
}

impl Tree {
    /// The projects of the manifest that pass the tree's filters and that the paths select, where
    /// the paths are seen from the root of the tree.
    pub fn select_projects(&self, manifest: &Manifest, paths: &Vec<String>, reach: Reach) -> (r: Vec<
        ProjectInfo,
    >)
        ensures
            r.deep_view() == collected(
                manifest@.projects,
                manifest@,
                self.config.branch@,
                filters_or_none(self.config@.group_filters),
                reach,
                paths.deep_view(),
            ),
    {
        let none: Vec<GroupFilter> = Vec::new();
        let filters: &Vec<GroupFilter> = match &self.config.group_filters {
            Some(filters) => filters,
            None => &none,
        };
        let ghost filter_views = filters.deep_view();
        assert(filter_views =~= filters_or_none(self.config@.group_filters));
        let ghost entries = manifest@.projects;
        let mut r: Vec<ProjectInfo> = Vec::new();
        let mut i: usize = 0;
        assert(r.deep_view() =~= Seq::empty());
        while i < manifest.projects.len()
            invariant
                i <= entries.len(),
                entries == manifest@.projects,
                filter_views == filters.deep_view(),
                r.deep_view() == collected(
                    entries.take(i as int),
                    manifest@,
                    self.config.branch@,
                    filter_views,
                    reach,
                    paths.deep_view(),
                ),
            decreases entries.len() - i,
        {
            assert(entries.take(i + 1).drop_last() =~= entries.take(i as int));
            let entry: &ProjectEntry = manifest.projects.at(i);
            let project: &Project = &entry.project;
            if GroupFilter::filter_project(filters, project) && is_selected(
                reach,
                paths,
                entry.path.as_str(),
            ) {
                let ghost before = r.deep_view();
                let info: ProjectInfo = ProjectInfo {
                    project_path: entry.path.clone(),
                    project_name: project.name.clone(),
                    revision: self.project_revision(manifest, project),
                    file_ops: copy_operations(&project.file_operations),
                };
                let ghost added = info@;
                r.push(info);
                assert(r.deep_view() =~= before.push(added));
            }
            i += 1;
        }
        assert(entries.take(entries.len() as int) =~= entries);
        r
    }

    /// The revision of a project in the tree.
    pub fn project_revision(&self, manifest: &Manifest, project: &Project) -> (r: String)
        ensures
            r@ == tree_revision(project@, manifest@, self.config.branch@),
    {
        match &project.revision {
            Some(revision) => {
                return revision.clone();
            },
            None => {},
        }
        match &manifest.default {
            Some(default) => match &default.revision {
                Some(revision) => {
                    return revision.clone();
                },
                None => {},
            },
            None => {},
        }
        self.config.branch.clone()
    }

    /// The projects of the manifest that a command works on, where `root` is the canonical path of
    /// the tree and `under` are canonical paths.
    pub fn collect_manifest_projects(
        &self,
        manifest: &Manifest,
        root: &str,
        under: &Vec<String>,
        reach: Reach,
    ) -> (r: Result<Vec<ProjectInfo>, NotRelative>)
        ensures
            match relative_paths(under.deep_view(), root@) {
                Ok(paths) => r is Ok && r->Ok_0.deep_view() == collected(
                    manifest@.projects,
                    manifest@,
                    self.config.branch@,
                    filters_or_none(self.config@.group_filters),
                    reach,
                    paths,
                ),
                Err(path) => r is Err && r->Err_0.path@ == path,
            },
            (forall|i: int| 0 <= i < under@.len() ==> lies_beneath(#[trigger] under@[i]@, root@))
                ==> r is Ok,
    {
        match relative_to_root(under, root) {
            Ok(paths) => Ok(self.select_projects(manifest, &paths, reach)),
            Err(error) => Err(error),
        }
    }

    /// The projects of the tree that were removed from the manifest.
    pub fn find_deleted(&self, manifest: &Manifest) -> (r: Vec<String>)
        ensures
            r.deep_view() == gone(self.config@.projects, manifest@.projects),
    {
        let ghost all = self.config@.projects;
        let mut r: Vec<String> = Vec::new();
        let mut i: usize = 0;
        assert(r.deep_view() =~= Seq::empty());
        while i < self.config.projects.len()
            invariant
                i <= self.config.projects.len(),
                all == self.config.projects.deep_view(),
                r.deep_view() == gone(all.take(i as int), manifest@.projects),
            decreases self.config.projects.len() - i,
        {
            assert(all[i as int] == self.config.projects@[i as int]@);
            assert(all.take(i + 1).drop_last() =~= all.take(i as int));
            let path: &String = &self.config.projects[i];
            if manifest.projects.get(path.as_str()).is_none() {
                add_argument(&mut r, path.clone());
            }
            i += 1;
        }
        assert(all.take(all.len() as int) =~= all);
        r
    }
}

/// Each project is selected or not on its own: of two lists of entries, what is collected from the
/// first comes before what is collected from the second.
pub proof fn law_collected_one_by_one(
    a: Seq<(Seq<char>, ProjectView)>,
    b: Seq<(Seq<char>, ProjectView)>,
    manifest: ManifestView,
    branch: Seq<char>,
    filters: Seq<GroupFilterView>,
    reach: Reach,
    paths: Seq<Seq<char>>,
)
    ensures
        collected(a + b, manifest, branch, filters, reach, paths) == collected(
            a,
            manifest,
            branch,
            filters,
            reach,
            paths,
        ) + collected(b, manifest, branch, filters, reach, paths),
    decreases b.len(),
{
    if b.len() == 0 {
        assert(a + b =~= a);
        assert(collected(a, manifest, branch, filters, reach, paths) + collected(
            b,
            manifest,
            branch,
            filters,
            reach,
            paths,
        ) =~= collected(a, manifest, branch, filters, reach, paths));
    } else {
        law_collected_one_by_one(a, b.drop_last(), manifest, branch, filters, reach, paths);
        assert((a + b).drop_last() =~= a + b.drop_last());
        assert((a + b).last() == b.last());
        assert(collected(a + b, manifest, branch, filters, reach, paths) =~= collected(
            a,
            manifest,
            branch,
            filters,
            reach,
            paths,
        ) + collected(b, manifest, branch, filters, reach, paths));
    }
}

/// A project that passes the filters is collected where one of the paths, whichever it is, lies in
/// it or at it, and, where paths reach beneath themselves, where it lies beneath one of them; and
/// where no path was requested. What is collected has its place, its name, its files and its
/// revision: its own, else that of the default, else the tree's branch.
pub proof fn law_every_path_selects(
    entries: Seq<(Seq<char>, ProjectView)>,
    manifest: ManifestView,
    branch: Seq<char>,
    filters: Seq<GroupFilterView>,
    reach: Reach,
    paths: Seq<Seq<char>>,
    i: int,
    k: int,
)
    requires
        0 <= i < entries.len(),
        passes(filters, groups_or_none(entries[i].1.groups)),
        paths.len() == 0 || (0 <= k < paths.len() && (components(entries[i].0).is_prefix_of(
            components(paths[k]),
        ) || (reach == Reach::Beneath && components(paths[k]).is_prefix_of(
            components(entries[i].0),
        )))),
    ensures
        collected(entries, manifest, branch, filters, reach, paths).contains(
            ProjectInfoView {
                project_path: entries[i].0,
                project_name: entries[i].1.name,
                revision: match entries[i].1.revision {
                    Some(own) => own,
                    None => match manifest.default {
                        Some(default) => match default.revision {
                            Some(given) => given,
                            None => branch,
                        },
                        None => branch,
                    },
                },
                file_ops: entries[i].1.file_operations,
            },
        ),
{
    if paths.len() > 0 {
        assert(selects(reach, paths[k], entries[i].0));
    }
    law_wanted_are_collected(entries, manifest, branch, filters, reach, paths, i);
}

/// A project is left alone where paths were requested and none of them lies in it, or reaches it
/// from above where that counts; and where it does not pass the filters.
pub proof fn law_unselected_left_alone(
    entry: (Seq<char>, ProjectView),
    manifest: ManifestView,
    branch: Seq<char>,
    filters: Seq<GroupFilterView>,
    reach: Reach,
    paths: Seq<Seq<char>>,
)
    requires
        !passes(filters, groups_or_none(entry.1.groups)) || (paths.len() > 0 && forall|k: int|
            0 <= k < paths.len() ==> !components(entry.0).is_prefix_of(
                components(#[trigger] paths[k]),
            ) && (reach == Reach::Beneath ==> !components(paths[k]).is_prefix_of(
                components(entry.0),
            ))),
    ensures
        collected(seq![entry], manifest, branch, filters, reach, paths).len() == 0,
{
    reveal_with_fuel(collected, 2);
    assert(seq![entry].drop_last() =~= Seq::empty());
}

/// Asking for the paths of two lists selects exactly what asking for those of the one or of the
/// other selects, in any order.
pub proof fn law_selection_is_union(
    p: Seq<Seq<char>>,
    q: Seq<Seq<char>>,
    manifest: ManifestView,
    branch: Seq<char>,
    filters: Seq<GroupFilterView>,
    reach: Reach,
    entry: (Seq<char>, ProjectView),
)
    requires
        p.len() > 0,
        q.len() > 0,
    ensures
        selected(reach, p + q, entry.0) <==> selected(reach, p, entry.0) || selected(
            reach,
            q,
            entry.0,
        ),
        collected(seq![entry], manifest, branch, filters, reach, p + q).len() == 1 <==> collected(
            seq![entry],
            manifest,
            branch,
            filters,
            reach,
            p,
        ).len() == 1 || collected(seq![entry], manifest, branch, filters, reach, q).len() == 1,
        collected(seq![entry], manifest, branch, filters, reach, p + q) == collected(
            seq![entry],
            manifest,
            branch,
            filters,
            reach,
            q + p,
        ),
{
    reveal_with_fuel(collected, 2);
    assert(seq![entry].drop_last() =~= Seq::empty());
    lemma_selection_is_union(p, q, reach, entry.0);
    lemma_selection_is_union(q, p, reach, entry.0);
}

/// The paths of two lists select what those of the one or of the other select.
proof fn lemma_selection_is_union(
    p: Seq<Seq<char>>,
    q: Seq<Seq<char>>,
    reach: Reach,
    path: Seq<char>,
)
    requires
        p.len() > 0,
        q.len() > 0,
    ensures
        selected(reach, p + q, path) <==> selected(reach, p, path) || selected(reach, q, path),
{
    let both = p + q;
    if selected(reach, both, path) {
        let i = choose|i: int| 0 <= i < both.len() && #[trigger] selects(reach, both[i], path);
        if i < p.len() {
            assert(selects(reach, p[i], path));
        } else {
            assert(selects(reach, q[i - p.len()], path));
        }
    }
    if selected(reach, p, path) {
        let i = choose|i: int| 0 <= i < p.len() && #[trigger] selects(reach, p[i], path);
        assert(selects(reach, both[i], path));
    }
    if selected(reach, q, path) {
        let i = choose|i: int| 0 <= i < q.len() && #[trigger] selects(reach, q[i], path);
        assert(selects(reach, both[p.len() + i], path));
    }
}

/// Every requested path is seen from the root, each on its own and in order; the first that cannot
/// be is named, and then nothing is selected.
pub proof fn law_paths_relative_in_order(requested: Seq<Seq<char>>, root: Seq<char>, i: int)
    requires
        0 <= i < requested.len(),
        forall|j: int| 0 <= j < i ==> path_difference(#[trigger] requested[j], root) is Some,
    ensures
        path_difference(requested[i], root) is None ==> relative_paths(requested, root) is Err
            && relative_paths(requested, root)->Err_0 == requested[i],
        (forall|j: int| 0 <= j < requested.len() ==> path_difference(#[trigger] requested[j], root)
            is Some) ==> {
            &&& relative_paths(requested, root) is Ok
            &&& relative_paths(requested, root)->Ok_0.len() == requested.len()
            &&& relative_paths(requested, root)->Ok_0[i] == path_difference(requested[i], root)->0
        },
    decreases requested.len(),
{
    let front = requested.drop_last();
    if front.len() == 0 {
        reveal_with_fuel(relative_paths, 2);
    } else if i < front.len() {
        assert(front[i] == requested[i]);
        law_paths_relative_in_order(front, root, i);
    } else {
        assert forall|j: int| 0 <= j < front.len() implies path_difference(
            #[trigger] front[j],
            root,
        ) is Some by {
            assert(front[j] == requested[j]);
        }
        law_paths_relative_in_order(front, root, 0);
    }
}

/// A path of the tree is gone exactly where the manifest has no project at it, however it is spelt;
/// the gone paths keep their order.
pub proof fn law_gone_are_not_in_manifest(
    a: Seq<Seq<char>>,
    path: Seq<char>,
    entries: Seq<(Seq<char>, ProjectView)>,
)
    ensures
        (forall|i: int|
            0 <= i < entries.len() ==> components((#[trigger] entries[i]).0) != components(path))
            ==> gone(a.push(path), entries) == gone(a, entries).push(path),
        (exists|i: int|
            0 <= i < entries.len() && components((#[trigger] entries[i]).0) == components(path))
            ==> gone(a.push(path), entries) == gone(a, entries),
        gone(Seq::empty(), entries).len() == 0,
{
    assert(a.push(path).drop_last() =~= a);
    law_find_first(
        entries,
        |e: (Seq<char>, ProjectView)| components(e.0) == components(path),
    );
}

/// Where paths lie in the tree, the projects at them are found, whatever the paths are and however
/// many; without paths all projects that pass the tree's filters are.
pub proof fn law_projects_of_command(
    tree: &Tree,
    manifest: &Manifest,
    root: &str,
    under: &Vec<String>,
    reach: Reach,
    r: Result<Vec<ProjectInfo>, NotRelative>,
    i: int,
)
    requires
        call_ensures(Tree::collect_manifest_projects, (tree, manifest, root, under, reach), r),
        0 <= i < manifest@.projects.len(),
        passes(
            filters_or_none(tree.config@.group_filters),
            groups_or_none(manifest@.projects[i].1.groups),
        ),
    ensures
        (forall|j: int| 0 <= j < under@.len() ==> lies_beneath(#[trigger] under@[j]@, root@)) ==> r
            is Ok,
        under@.len() == 0 ==> r is Ok && r->Ok_0.deep_view().contains(
            info_of(manifest@.projects[i], manifest@, tree.config.branch@),
        ),
{
    if under@.len() == 0 {
        assert(under.deep_view().len() == 0);
        law_wanted_are_collected(
            manifest@.projects,
            manifest@,
            tree.config.branch@,
            filters_or_none(tree.config@.group_filters),
            reach,
            Seq::empty(),
            i,
        );
    }
}

/// The filters of a tree that has none let every project pass.
pub proof fn law_tree_without_filters(groups: Option<Seq<Seq<char>>>)
    ensures
        passes(filters_or_none(None), groups_or_none(groups)),
        filters_or_none(None).len() == 0,
        groups_or_none(None).len() == 0,
        groups matches Some(list) ==> groups_or_none(groups) == list,
{
}

/// A project that passes the tree's filters is selected by any of the paths that lie in it,
/// whichever of them it is.
pub proof fn law_selected_by_any_path(
    tree: &Tree,
    manifest: &Manifest,
    paths: &Vec<String>,
    reach: Reach,
    r: Vec<ProjectInfo>,
    i: int,
    k: int,
)
    requires
        call_ensures(Tree::select_projects, (tree, manifest, paths, reach), r),
        0 <= i < manifest@.projects.len(),
        passes(
            filters_or_none(tree.config@.group_filters),
            groups_or_none(manifest@.projects[i].1.groups),
        ),
        0 <= k < paths@.len(),
        components(manifest@.projects[i].0).is_prefix_of(components(paths@[k]@)),
    ensures
        exists|n: int|
            0 <= n < r@.len() && (#[trigger] r@[n]).project_path@ == manifest@.projects[i].0
                && r@[n].project_name@ == manifest@.projects[i].1.name,
{
    let all = paths.deep_view();
    assert(all[k] == paths@[k]@);
    law_every_path_selects(
        manifest@.projects,
        manifest@,
        tree.config.branch@,
        filters_or_none(tree.config@.group_filters),
        reach,
        all,
        i,
        k,
    );
    let found = r.deep_view();
    let n = choose|n: int|
        0 <= n < found.len() && found[n].project_path == manifest@.projects[i].0
            && found[n].project_name == manifest@.projects[i].1.name;
    assert(found[n] == r@[n]@);
}

} // verus!
