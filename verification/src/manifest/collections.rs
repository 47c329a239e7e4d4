//! The remotes and the projects of a manifest.
use vstd::prelude::*;

use crate::lists::{find_first, law_find_first, lemma_find_from};
use crate::manifest::{Project, ProjectView, Remote, RemoteView};
use crate::path::{components, is_path_before, path_before, same_path};
use crate::text::same_text;

verus! {

/// No two remotes have the same name.
pub open spec fn distinct_names(remotes: Seq<RemoteView>) -> bool {
    forall|i: int, j: int|
        0 <= i < j < remotes.len() ==> #[trigger] remotes[i].name != #[trigger] remotes[j].name
}

/// The remote of a name.
pub open spec fn remote_named(remotes: Seq<RemoteView>, name: Seq<char>) -> Option<RemoteView> {
    find_first(remotes, |r: RemoteView| r.name == name)
}

/// The remotes of a manifest, each name at most once, in the order in which they were added.
pub struct RemoteMap {
    entries: Vec<Remote>,
}

impl View for RemoteMap {
    type V = Seq<RemoteView>;

    closed spec fn view(&self) -> Seq<RemoteView> {
        self.entries.deep_view()
    }
}

impl RemoteMap {
    #[verifier::type_invariant]
    spec fn well_formed(self) -> bool {
        distinct_names(self.entries.deep_view())
    }

    /// No remotes.
    pub fn new() -> (r: RemoteMap)
        ensures
            r@ == Seq::<RemoteView>::empty(),
    {
        let entries: Vec<Remote> = Vec::new();
        assert(entries.deep_view() =~= Seq::empty());
        RemoteMap { entries }
    }

    /// How many remotes there are; their names are distinct.
    pub fn len(&self) -> (r: usize)
        ensures
            r == self@.len(),
            distinct_names(self@),
    {
        proof {
            use_type_invariant(self);
        }
        self.entries.len()
    }

    /// The remote at a position.
    pub fn at(&self, i: usize) -> (r: &Remote)
        requires
            i < self@.len(),
        ensures
            r@ == self@[i as int],
    {
        &self.entries[i]
    }

    /// The remote of the given name.
    pub fn get(&self, name: &str) -> (r: Option<&Remote>)
        ensures
            match r {
                Some(remote) => remote_named(self@, name@) == Some(remote@),
                None => remote_named(self@, name@) is None,
            },
    {
        let ghost holds = |r: RemoteView| r.name == name@;
        let mut i: usize = 0;
        while i < self.entries.len()
            invariant
                i <= self.entries.len(),
                holds == (|r: RemoteView| r.name == name@),
                forall|j: int| 0 <= j < i ==> !holds(#[trigger] self@[j]),
            decreases self.entries.len() - i,
        {
            assert(self@[i as int] == self.entries@[i as int]@);
            proof {
                lemma_find_from(self@, holds, i as int);
            }
            if same_text(self.entries[i].name.as_str(), name) {
                return Some(&self.entries[i]);
            }
            i += 1;
        }
        proof {
            lemma_find_from(self@, holds, i as int);
        }
        None
    }

    /// Adds a remote; where there is one of its name already, nothing changes and it is refused.
    pub fn insert(&mut self, remote: Remote) -> (r: bool)
        ensures
            r == remote_named(old(self)@, remote@.name) is None,
            final(self)@ == if r {
                old(self)@.push(remote@)
            } else {
                old(self)@
            },
    {
        proof {
            use_type_invariant(&*self);
            law_find_first(self@, |r: RemoteView| r.name == remote@.name);
        }
        if self.get(remote.name.as_str()).is_some() {
            return false;
        }
        let ghost before = self@;
        let ghost added = remote@;
        let mut entries: Vec<Remote> = Vec::new();
        std::mem::swap(&mut entries, &mut self.entries);
        entries.push(remote);
        assert(entries.deep_view() =~= before.push(added));
        proof {
            let holds = |r: RemoteView| r.name == added.name;
            assert forall|i: int| 0 <= i < before.len() implies #[trigger] before[i].name
                != added.name by {
                assert(!holds(before[i]));
            }
        }
        self.entries = entries;
        true
    }
}

/// The paths come in order, so that no two are the same.
pub open spec fn ordered_paths(projects: Seq<(Seq<char>, ProjectView)>) -> bool {
    forall|i: int, j: int|
        0 <= i < j < projects.len() ==> path_before(
            #[trigger] projects[i].0,
            #[trigger] projects[j].0,
        )
}

/// The number of leading entries whose paths come before the given one.
pub open spec fn entries_before(projects: Seq<(Seq<char>, ProjectView)>, path: Seq<char>) -> nat
    decreases projects.len(),
{
    if projects.len() > 0 && path_before(projects[0].0, path) {
        1 + entries_before(projects.drop_first(), path)
    } else {
        0
    }
}

/// The entry at a path, however the path is spelt.
pub open spec fn entry_at(
    projects: Seq<(Seq<char>, ProjectView)>,
    path: Seq<char>,
) -> Option<(Seq<char>, ProjectView)> {
    find_first(
        projects,
        |e: (Seq<char>, ProjectView)| components(e.0) == components(path),
    )
}

/// The entries with one more, at its place in the order.
pub open spec fn with_entry(
    projects: Seq<(Seq<char>, ProjectView)>,
    path: Seq<char>,
    project: ProjectView,
) -> Seq<(Seq<char>, ProjectView)> {
    projects.insert(entries_before(projects, path) as int, (path, project))
}

/// What `entries_before` counts.
pub proof fn lemma_entries_before(projects: Seq<(Seq<char>, ProjectView)>, path: Seq<char>)
    ensures
        entries_before(projects, path) <= projects.len(),
        forall|i: int|
            0 <= i < entries_before(projects, path) ==> path_before(
                #[trigger] projects[i].0,
                path,
            ),
        entries_before(projects, path) < projects.len() ==> !path_before(
            projects[entries_before(projects, path) as int].0,
            path,
        ),
    decreases projects.len(),
{
    if projects.len() > 0 && path_before(projects[0].0, path) {
        let rest = projects.drop_first();
        lemma_entries_before(rest, path);
        assert forall|i: int| 0 <= i < entries_before(projects, path) implies path_before(
            #[trigger] projects[i].0,
            path,
        ) by {
            if i > 0 {
                assert(projects[i] == rest[i - 1]);
            }
        }
        let n = entries_before(rest, path) as int;
        if n < rest.len() {
            assert(rest[n] == projects[n + 1]);
        }
    }
}

/// A new entry at its place keeps the entries in order.
pub proof fn law_entry_keeps_order(
    projects: Seq<(Seq<char>, ProjectView)>,
    path: Seq<char>,
    project: ProjectView,
)
    requires
        ordered_paths(projects),
        entry_at(projects, path) is None,
    ensures
        ordered_paths(with_entry(projects, path, project)),
{
    lemma_entries_before(projects, path);
    let holds = |e: (Seq<char>, ProjectView)| components(e.0) == components(path);
    law_find_first(projects, holds);
    let n = entries_before(projects, path) as int;
    let all = with_entry(projects, path, project);
    assert forall|i: int, j: int| 0 <= i < j < all.len() implies path_before(
        #[trigger] all[i].0,
        #[trigger] all[j].0,
    ) by {
        if i < n && j < n {
            assert(all[i] == projects[i] && all[j] == projects[j]);
        } else if i < n && j == n {
            assert(all[i] == projects[i]);
        } else if i < n {
            assert(all[i] == projects[i] && all[j] == projects[j - 1]);
        } else {
            assert(all[j] == projects[j - 1]);
            assert(!holds(projects[n]));
            crate::path::law_path_order_total(projects[n].0, path);
            assert(path_before(path, projects[n].0));
            if i == n {
                if j - 1 > n {
                    assert(path_before(projects[n].0, projects[j - 1].0));
                    crate::path::law_path_order_transitive(path, projects[n].0, projects[j - 1].0);
                }
            } else {
                assert(all[i] == projects[i - 1]);
            }
        }
    }
}

/// What was entered is found again, and nothing else is lost or found by it.
pub proof fn law_entry_found(
    projects: Seq<(Seq<char>, ProjectView)>,
    path: Seq<char>,
    project: ProjectView,
    other: Seq<char>,
)
    requires
        ordered_paths(projects),
        entry_at(projects, path) is None,
    ensures
        entry_at(with_entry(projects, path, project), other) == if components(other) == components(
            path,
        ) {
            Some((path, project))
        } else {
            entry_at(projects, other)
        },
{
    let all = with_entry(projects, path, project);
    let n = entries_before(projects, path) as int;
    lemma_entries_before(projects, path);
    let holds = |e: (Seq<char>, ProjectView)| components(e.0) == components(other);
    law_find_first(projects, |e: (Seq<char>, ProjectView)| components(e.0) == components(path));
    law_find_first(projects, holds);
    law_find_first(all, holds);
    law_entry_keeps_order(projects, path, project);
    if components(other) == components(path) {
        assert(all[n] == (path, project));
        assert(holds(all[n]));
        let found = entry_at(all, other);
        let at = choose|i: int| 0 <= i < all.len() && all[i] == found->0;
        if at != n {
            crate::path::law_path_order_total(path, (found->0).0);
            lemma_same_order((found->0).0, path);
        }
    } else {
        match entry_at(projects, other) {
            Some(e) => {
                let i = choose|i: int| 0 <= i < projects.len() && projects[i] == e;
                let k = if i < n { i } else { i + 1 };
                assert(all[k] == e);
                let found = entry_at(all, other);
                assert(holds(all[k]));
                let at = choose|j: int| 0 <= j < all.len() && all[j] == found->0;
                if at != k {
                    lemma_same_order((found->0).0, e.0);
                }
            },
            None => {
                assert forall|k: int| 0 <= k < all.len() implies !holds(#[trigger] all[k]) by {
                    if k < n {
                        assert(all[k] == projects[k]);
                    } else if k > n {
                        assert(all[k] == projects[k - 1]);
                    }
                }
            },
        }
    }
}

/// Spellings of one path do not come before each other.
proof fn lemma_same_order(a: Seq<char>, b: Seq<char>)
    requires
        components(a) == components(b),
    ensures
        !path_before(a, b),
        !path_before(b, a),
{
    crate::path::law_path_order_total(a, a);
}

/// Of two paths that come one before the other no spelling is the same.
pub proof fn lemma_same_order_unless(a: Seq<char>, b: Seq<char>)
    ensures
        path_before(a, b) ==> components(a) != components(b),
{
    if components(a) == components(b) {
        lemma_same_order(a, b);
    }
}

/// A project and its path.
pub struct ProjectEntry {
    pub path: String,
    pub project: Project,
}

impl View for ProjectEntry {
    type V = (Seq<char>, ProjectView);

    open spec fn view(&self) -> (Seq<char>, ProjectView) {
        (self.path@, self.project@)
    }
}

impl DeepView for ProjectEntry {
    type V = (Seq<char>, ProjectView);

    open spec fn deep_view(&self) -> (Seq<char>, ProjectView) {
        self@
    }
}

/// The projects of a manifest by their paths, in the order of the paths.
pub struct ProjectMap {
    entries: Vec<ProjectEntry>,
}

impl View for ProjectMap {
    type V = Seq<(Seq<char>, ProjectView)>;

    closed spec fn view(&self) -> Seq<(Seq<char>, ProjectView)> {
        self.entries.deep_view()
    }
}

impl ProjectMap {
    #[verifier::type_invariant]
    spec fn well_formed(self) -> bool {
        ordered_paths(self.entries.deep_view())
    }

    /// No projects.
    pub fn new() -> (r: ProjectMap)
        ensures
            r@ == Seq::<(Seq<char>, ProjectView)>::empty(),
    {
        let entries: Vec<ProjectEntry> = Vec::new();
        assert(entries.deep_view() =~= Seq::empty());
        ProjectMap { entries }
    }

    /// How many projects there are; their paths are in order.
    pub fn len(&self) -> (r: usize)
        ensures
            r == self@.len(),
            ordered_paths(self@),
    {
        proof {
            use_type_invariant(self);
        }
        self.entries.len()
    }

    /// The entry at a position.
    pub fn at(&self, i: usize) -> (r: &ProjectEntry)
        requires
            i < self@.len(),
        ensures
            r@ == self@[i as int],
    {
        &self.entries[i]
    }

    /// The project at a path, however the path is spelt.
    pub fn get(&self, path: &str) -> (r: Option<&Project>)
        ensures
            match r {
                Some(project) => entry_at(self@, path@) is Some && (entry_at(self@, path@)->0).1
                    == project@,
                None => entry_at(self@, path@) is None,
            },
    {
        match self.position_by_path(path) {
            Some(i) => Some(&self.entries[i].project),
            None => None,
        }
    }

    /// Enters a project at a path; where there is one already, nothing changes and it is refused.
    pub fn insert(&mut self, path: String, project: Project) -> (r: bool)
        ensures
            r == entry_at(old(self)@, path@) is None,
            final(self)@ == if r {
                with_entry(old(self)@, path@, project@)
            } else {
                old(self)@
            },
    {
        proof {
            use_type_invariant(&*self);
        }
        if self.get(path.as_str()).is_some() {
            return false;
        }
        let ghost before = self@;
        let mut n: usize = 0;
        assert(before.skip(0) =~= before);
        while n < self.entries.len() && is_path_before(
            self.entries[n].path.as_str(),
            path.as_str(),
        )
            invariant
                n <= self.entries.len(),
                before == self@,
                entries_before(before, path@) == n + entries_before(before.skip(n as int), path@),
            decreases self.entries.len() - n,
        {
            assert(before.skip(n as int)[0] == self.entries@[n as int]@);
            assert(before.skip(n as int).drop_first() =~= before.skip(n + 1));
            n += 1;
        }
        assert(n < before.len() ==> before.skip(n as int)[0] == self.entries@[n as int]@);
        assert(entries_before(before, path@) == n);
        proof {
            law_entry_keeps_order(before, path@, project@);
        }
        let ghost added = (path@, project@);
        let mut entries: Vec<ProjectEntry> = Vec::new();
        assert(entries.deep_view() =~= Seq::empty());
        std::mem::swap(&mut entries, &mut self.entries);
        entries.insert(n, ProjectEntry { path, project });
        assert(entries.deep_view() =~= before.insert(n as int, added));
        self.entries = entries;
        true
    }

    /// The position of the first project of the given name.
    pub fn position_by_name(&self, name: &str) -> (r: Option<usize>)
        ensures
            match r {
                Some(i) => {
                    &&& i < self@.len()
                    &&& self@[i as int].1.name == name@
                    &&& forall|j: int| 0 <= j < i ==> #[trigger] self@[j].1.name != name@
                },
                None => forall|j: int|
                    0 <= j < self@.len() ==> #[trigger] self@[j].1.name != name@,
            },
    {
        let mut i: usize = 0;
        while i < self.entries.len()
            invariant
                i <= self.entries.len(),
                forall|j: int| 0 <= j < i ==> #[trigger] self@[j].1.name != name@,
            decreases self.entries.len() - i,
        {
            assert(self@[i as int] == self.entries@[i as int]@);
            if same_text(self.entries[i].project.name.as_str(), name) {
                return Some(i);
            }
            i += 1;
        }
        None
    }

    /// The position of the project at a path, however the path is spelt.
    pub fn position_by_path(&self, path: &str) -> (r: Option<usize>)
        ensures
            match r {
                Some(i) => {
                    &&& i < self@.len()
                    &&& components(self@[i as int].0) == components(path@)
                    &&& entry_at(self@, path@) == Some(self@[i as int])
                },
                None => entry_at(self@, path@) is None,
            },
    {
        let ghost holds = |e: (Seq<char>, ProjectView)| components(e.0) == components(path@);
        let mut i: usize = 0;
        while i < self.entries.len()
            invariant
                i <= self.entries.len(),
                holds == (|e: (Seq<char>, ProjectView)| components(e.0) == components(path@)),
                forall|j: int| 0 <= j < i ==> !holds(#[trigger] self@[j]),
            decreases self.entries.len() - i,
        {
            assert(self@[i as int] == self.entries@[i as int]@);
            proof {
                lemma_find_from(self@, holds, i as int);
            }
            if same_path(self.entries[i].path.as_str(), path) {
                return Some(i);
            }
            i += 1;
        }
        proof {
            lemma_find_from(self@, holds, i as int);
        }
        None
    }

    /// Gives the project at a position a revision.
    pub fn set_revision(&mut self, i: usize, revision: String)
        requires
            i < old(self)@.len(),
        ensures
            final(self)@ == old(self)@.update(
                i as int,
                (
                    old(self)@[i as int].0,
                    (ProjectView { revision: Some(revision@), ..old(self)@[i as int].1 }),
                ),
            ),
    {
        proof {
            use_type_invariant(&*self);
        }
        let ghost before = self@;
        let mut entries: Vec<ProjectEntry> = Vec::new();
        assert(entries.deep_view() =~= Seq::empty());
        std::mem::swap(&mut entries, &mut self.entries);
        assert(entries.deep_view() == before);
        assert(before[i as int] == entries@[i as int]@);
        let path: String = entries[i].path.clone();
        let mut project: Project = entries[i].project.clone();
        project.revision = Some(revision);
        let entry: ProjectEntry = ProjectEntry { path, project };
        let ghost added = entry@;
        entries.set(i, entry);
        assert(entries.deep_view() =~= before.update(i as int, added));
        self.entries = entries;
    }
}

/// A remote is found by its name, and a project at its path, however the path is spelt, wherever
/// among the others they stand.
pub proof fn law_found_wherever_they_stand(
    remotes: Seq<RemoteView>,
    projects: Seq<(Seq<char>, ProjectView)>,
    path: Seq<char>,
    i: int,
)
    ensures
        distinct_names(remotes) && 0 <= i < remotes.len() ==> remote_named(remotes, remotes[i].name)
            == Some(remotes[i]),
        ordered_paths(projects) && 0 <= i < projects.len() && components(projects[i].0)
            == components(path) ==> entry_at(projects, path) == Some(projects[i]),
{
    if distinct_names(remotes) && 0 <= i < remotes.len() {
        let name = remotes[i].name;
        let holds = |r: RemoteView| r.name == name;
        assert forall|j: int| 0 <= j < i implies !holds(#[trigger] remotes[j]) by {
            assert(remotes[j].name != remotes[i].name);
        }
        lemma_find_from(remotes, holds, i);
    }
    if ordered_paths(projects) && 0 <= i < projects.len() && components(projects[i].0)
        == components(path) {
        let holds = |e: (Seq<char>, ProjectView)| components(e.0) == components(path);
        assert forall|j: int| 0 <= j < i implies !holds(#[trigger] projects[j]) by {
            assert(path_before(projects[j].0, projects[i].0));
            lemma_same_order_unless(projects[j].0, projects[i].0);
        }
        lemma_find_from(projects, holds, i);
    }
}

/// What has no name or path among the others is not found.
pub proof fn law_not_found_elsewhere(
    remotes: Seq<RemoteView>,
    projects: Seq<(Seq<char>, ProjectView)>,
    name: Seq<char>,
    path: Seq<char>,
)
    ensures
        (forall|i: int| 0 <= i < remotes.len() ==> (#[trigger] remotes[i]).name != name)
            ==> remote_named(remotes, name) is None,
        (forall|i: int|
            0 <= i < projects.len() ==> components((#[trigger] projects[i]).0) != components(path))
            ==> entry_at(projects, path) is None,
{
    law_find_first(remotes, |r: RemoteView| r.name == name);
    law_find_first(
        projects,
        |e: (Seq<char>, ProjectView)| components(e.0) == components(path),
    );
}

} // verus!
