//! Trees of projects.
use vstd::prelude::*;

use crate::config::{ManifestConfig, RemoteConfig};
use crate::lists::{find_first, lemma_find_from};
use crate::path::{enclosing, enclosing_paths, join_path, joined};
use crate::text::{concat2, list_contains};

pub mod command;
pub mod generate;
pub mod groups;
pub mod preupload;
pub mod prune;
pub mod project_upload;
pub mod rebase;
pub mod select;
pub mod start;
pub mod status;
pub mod sync;
pub mod tree_sync;
pub mod upload;

pub use groups::{GroupFilter, GroupFilterView};
pub use select::ProjectInfo;

verus! {

/// A tree of projects: where it is, and what it is made from.
pub struct Tree {
    pub path: String,
    pub config: TreeConfig,
}

/// What is fetched before a sync.
#[derive(Copy, Clone, PartialEq, Eq, Structural, Debug)]
pub enum FetchType {
    /// Fetch the manifest, then fetch everything.
    Fetch,
    /// Fetch everything but the manifest.
    FetchExceptManifest,
    /// Don't fetch anything, use only the local cache.
    NoFetch,
}

/// What a sync does to the projects.
#[derive(Copy, Clone, PartialEq, Eq, Structural, Debug)]
pub enum CheckoutType {
    /// Refs are updated, and the projects are checked out.
    Checkout,
    /// Refs are updated, and nothing else.
    RefsOnly,
    /// Nothing.
    NoCheckout,
}

/// What a tree is made from.
pub struct TreeConfig {
    pub remote: String,
    pub branch: String,
    pub manifest: String,
    pub tags: Vec<String>,
    pub projects: Vec<String>,
    pub group_filters: Option<Vec<GroupFilter>>,
}

/// What a tree is made from, as a value.
#[verifier::ext_equal]
pub struct TreeConfigView {
    pub remote: Seq<char>,
    pub branch: Seq<char>,
    pub manifest: Seq<char>,
    pub tags: Seq<Seq<char>>,
    pub projects: Seq<Seq<char>>,
    pub group_filters: Option<Seq<GroupFilterView>>,
}

impl View for TreeConfig {
    type V = TreeConfigView;

    open spec fn view(&self) -> TreeConfigView {
        TreeConfigView {
            remote: self.remote@,
            branch: self.branch@,
            manifest: self.manifest@,
            tags: self.tags.deep_view(),
            projects: self.projects.deep_view(),
            group_filters: self.group_filters.deep_view(),
        }
    }
}

/// Why there is no tree.
pub enum TreeError {
    /// There is no tree at the path.
    NoTree { path: String },
    /// The configuration of the tree cannot be read, for the reason given.
    BadConfig { reason: String },
    /// There is no tree around the path.
    NoEnclosingTree { path: String },
    /// The path is no empty directory.
    NotEmpty { path: String },
    /// The path cannot be read, for the reason given.
    Unreadable { path: String, reason: String },
}

/// Why there is no tree, as a value.
pub enum TreeErrorView {
    NoTree { path: Seq<char> },
    BadConfig { reason: Seq<char> },
    NoEnclosingTree { path: Seq<char> },
    NotEmpty { path: Seq<char> },
    Unreadable { path: Seq<char>, reason: Seq<char> },
}

impl View for TreeError {
    type V = TreeErrorView;

    open spec fn view(&self) -> TreeErrorView {
        match self {
            TreeError::NoTree { path } => TreeErrorView::NoTree { path: path@ },
            TreeError::BadConfig { reason } => TreeErrorView::BadConfig { reason: reason@ },
            TreeError::NoEnclosingTree { path } => TreeErrorView::NoEnclosingTree { path: path@ },
            TreeError::NotEmpty { path } => TreeErrorView::NotEmpty { path: path@ },
            TreeError::Unreadable { path, reason } => TreeErrorView::Unreadable {
                path: path@,
                reason: reason@,
            },
        }
    }
}

/// A symbolic link that has to be there.
pub struct Link {
    pub target: String,
    pub path: String,
}

/// A symbolic link, as a value.
pub struct LinkView {
    pub target: Seq<char>,
    pub path: Seq<char>,
}

impl View for Link {
    type V = LinkView;

    open spec fn view(&self) -> LinkView {
        LinkView { target: self.target@, path: self.path@ }
    }
}

impl DeepView for Link {
    type V = LinkView;

    open spec fn deep_view(&self) -> LinkView {
        self@
    }
}

/// How a new tree begins.
pub struct Construction {
    pub tree: Tree,
    /// The directory of what belongs to the tree as a whole.
    pub pore_path: String,
    /// The place of the manifest project.
    pub manifest_path: String,
    /// The link to the manifest.
    pub manifest_link: Link,
}

/// The directory of what belongs to a tree as a whole.
pub open spec fn pore_dir(root: Seq<char>) -> Seq<char> {
    joined(root, ".pore"@)
}

/// What came of an attempt to list a directory.
pub enum Listing {
    /// It has this many entries.
    Entries(usize),
    /// It cannot be read, for the reason given.
    Failed(String),
}

/// Accepts a directory only where it can be read and is empty.
pub fn assert_empty_directory(path: &str, listing: Listing) -> (r: Result<(), TreeError>)
    ensures
        match listing {
            Listing::Entries(n) => if n == 0 {
                r is Ok
            } else {
                r is Err && r->Err_0@ == (TreeErrorView::NotEmpty { path: path@ })
            },
            Listing::Failed(reason) => r is Err && r->Err_0@ == (TreeErrorView::Unreadable {
                path: path@,
                reason: reason@,
            }),
        },
{
    match listing {
        Listing::Entries(n) => if n == 0 {
            Ok(())
        } else {
            Err(TreeError::NotEmpty { path: path.to_owned() })
        },
        Listing::Failed(reason) => Err(TreeError::Unreadable { path: path.to_owned(), reason }),
    }
}

/// What came of an attempt to make a symbolic link.
pub enum LinkAttempt {
    /// It was made.
    Made,
    /// There is one already, and it points to this.
    Points(String),
    /// There is something already, but it cannot be read as a link, for the reason given.
    Unreadable(String),
    /// It could not be made, for the reason given.
    Failed(String),
}

/// Why a symbolic link is not there.
pub enum LinkError {
    /// It points elsewhere.
    Mismatch { path: String, wanted: String, actual: String },
    Unreadable { path: String, reason: String },
    Failed { reason: String },
}

/// Accepts a symbolic link that was made, or that points to the right place already.
pub fn create_symlink(target: &str, path: &str, attempt: LinkAttempt) -> (r: Result<(), LinkError>)
    ensures
        match attempt {
            LinkAttempt::Made => r is Ok,
            LinkAttempt::Points(actual) => if crate::path::components(actual@)
                == crate::path::components(target@) {
                r is Ok
            } else {
                r matches Err(LinkError::Mismatch { path: p, wanted, actual: a }) && p@ == path@
                    && wanted@ == target@ && a@ == actual@
            },
            LinkAttempt::Unreadable(reason) => r matches Err(
                LinkError::Unreadable { path: p, reason: why },
            ) && p@ == path@ && why@ == reason@,
            LinkAttempt::Failed(reason) => r matches Err(LinkError::Failed { reason: why }) && why@
                == reason@,
        },
{
    match attempt {
        LinkAttempt::Made => Ok(()),
        LinkAttempt::Points(actual) => if crate::path::same_path(actual.as_str(), target) {
            Ok(())
        } else {
            Err(
                LinkError::Mismatch {
                    path: path.to_owned(),
                    wanted: target.to_owned(),
                    actual,
                },
            )
        },
        LinkAttempt::Unreadable(reason) => Err(
            LinkError::Unreadable { path: path.to_owned(), reason },
        ),
        LinkAttempt::Failed(reason) => Err(LinkError::Failed { reason }),
    }
}

impl Tree {
    /// How a new tree begins.
    pub fn construct(
        path: &str,
        manifest_config: &ManifestConfig,
        remote_config: &RemoteConfig,
        branch: &str,
        file: &str,
        group_filters: Vec<GroupFilter>,
    ) -> (r: Construction)
        ensures
            r.tree.path@ == path@,
            r.tree.config@ == (TreeConfigView {
                remote: remote_config.name@,
                branch: branch@,
                manifest: manifest_config.project@,
                tags: Seq::empty(),
                projects: Seq::empty(),
                group_filters: Some(group_filters.deep_view()),
            }),
            r.pore_path@ == pore_dir(path@),
            r.manifest_path@ == joined(pore_dir(path@), "manifest"@),
            r.manifest_link@ == (LinkView {
                target: "manifest/"@ + file@,
                path: joined(pore_dir(path@), "manifest.xml"@),
            }),
    {
        let pore_path: String = join_path(path, ".pore");
        let tags: Vec<String> = Vec::new();
        let projects: Vec<String> = Vec::new();
        assert(tags.deep_view() =~= Seq::empty());
        assert(projects.deep_view() =~= Seq::empty());
        let config: TreeConfig = TreeConfig {
            remote: remote_config.name.clone(),
            branch: branch.to_owned(),
            manifest: manifest_config.project.clone(),
            tags,
            projects,
            group_filters: Some(group_filters),
        };
        Construction {
            tree: Tree { path: path.to_owned(), config },
            manifest_path: join_path(pore_path.as_str(), "manifest"),
            manifest_link: Link {
                target: concat2("manifest/", file),
                path: join_path(pore_path.as_str(), "manifest.xml"),
            },
            pore_path,
        }
    }

    /// The tree at a path, from its configuration; there is none where there is no `.pore`.
    pub fn from_path(path: String, config: Option<Result<TreeConfig, String>>) -> (r: Result<
        Tree,
        TreeError,
    >)
        ensures
            match config {
                Some(Ok(config)) => r is Ok && r->Ok_0.path@ == path@ && r->Ok_0.config == config,
                Some(Err(reason)) => r is Err && r->Err_0@ == (TreeErrorView::BadConfig {
                    reason: reason@,
                }),
                None => r is Err && r->Err_0@ == (TreeErrorView::NoTree { path: path@ }),
            },
    {
        match config {
            Some(Ok(config)) => Ok(Tree { path, config }),
            Some(Err(reason)) => Err(TreeError::BadConfig { reason }),
            None => Err(TreeError::NoTree { path }),
        }
    }

    /// The root of the tree around a path: the innermost directory that is a root, where `roots`
    /// are the directories that hold `.pore`.
    pub fn find_from_path(path: &str, roots: &Vec<String>) -> (r: Result<String, TreeError>)
        ensures
            match find_first(
                enclosing(path@),
                |dir: Seq<char>| roots.deep_view().contains(dir),
            ) {
                Some(root) => r is Ok && r->Ok_0@ == root,
                None => r is Err && r->Err_0@ == (TreeErrorView::NoEnclosingTree { path: path@ }),
            },
    {
        let dirs: Vec<String> = enclosing_paths(path);
        let ghost all = dirs.deep_view();
        let ghost holds = |dir: Seq<char>| roots.deep_view().contains(dir);
        let mut i: usize = 0;
        while i < dirs.len()
            invariant
                i <= dirs.len(),
                all == dirs.deep_view(),
                all == enclosing(path@),
                holds == (|dir: Seq<char>| roots.deep_view().contains(dir)),
                forall|j: int| 0 <= j < i ==> !holds(#[trigger] all[j]),
            decreases dirs.len() - i,
        {
            assert(all[i as int] == dirs@[i as int]@);
            proof {
                lemma_find_from(all, holds, i as int);
            }
            if list_contains(roots, dirs[i].as_str()) {
                return Ok(dirs[i].clone());
            }
            i += 1;
        }
        proof {
            lemma_find_from(all, holds, i as int);
        }
        Err(TreeError::NoEnclosingTree { path: path.to_owned() })
    }

    /// The file that holds the configuration of the tree.
    pub fn config_path(&self) -> (r: String)
        ensures
            r@ == joined(pore_dir(self.path@), "tree.toml"@),
    {
        join_path(join_path(self.path.as_str(), ".pore").as_str(), "tree.toml")
    }

    /// The manifest of the tree: the directory of its files, and the first of them.
    pub fn read_manifest(&self) -> (r: (String, String))
        ensures
            r.0@ == joined(pore_dir(self.path@), "manifest"@),
            r.1@ == joined(pore_dir(self.path@), "manifest.xml"@),
    {
        let pore: String = join_path(self.path.as_str(), ".pore");
        (join_path(pore.as_str(), "manifest"), join_path(pore.as_str(), "manifest.xml"))
    }

    /// The files of the tree's hooks, in the order of the hooks.
    pub fn update_hooks(&self) -> (r: Vec<String>)
        ensures
            r.deep_view() == seq![joined(joined(pore_dir(self.path@), "hooks"@), "commit-msg"@)],
    {
        let pore: String = join_path(self.path.as_str(), ".pore");
        let dir: String = join_path(pore.as_str(), "hooks");
        let hooks: Vec<crate::hooks::Hook> = crate::hooks::hooks();
        let mut r: Vec<String> = Vec::new();
        r.push(join_path(dir.as_str(), hooks[0].name));
        assert(r.deep_view() =~= seq![
            joined(joined(pore_dir(self.path@), "hooks"@), "commit-msg"@),
        ]);
        r
    }

    /// What tools that look for a `.repo` directory need: the directory, and the links in it.
    pub fn ensure_repo_compat(&self) -> (r: (String, Vec<Link>))
        ensures
            r.0@ == joined(self.path@, ".repo"@),
            r.1.deep_view() == seq![
                LinkView {
                    target: "../.pore/manifest"@,
                    path: joined(joined(self.path@, ".repo"@), "manifests"@),
                },
                LinkView {
                    target: "../.pore/manifest.xml"@,
                    path: joined(joined(self.path@, ".repo"@), "manifest.xml"@),
                },
            ],
    {
        let dir: String = join_path(self.path.as_str(), ".repo");
        let mut links: Vec<Link> = Vec::new();
        links.push(
            Link {
                target: "../.pore/manifest".to_owned(),
                path: join_path(dir.as_str(), "manifests"),
            },
        );
        links.push(
            Link {
                target: "../.pore/manifest.xml".to_owned(),
                path: join_path(dir.as_str(), "manifest.xml"),
            },
        );
        assert(links.deep_view() =~= seq![
            LinkView {
                target: "../.pore/manifest"@,
                path: joined(joined(self.path@, ".repo"@), "manifests"@),
            },
            LinkView {
                target: "../.pore/manifest.xml"@,
                path: joined(joined(self.path@, ".repo"@), "manifest.xml"@),
            },
        ]);
        (dir, links)
    }
}

/// What is found around a path is one of the directories around it and a root, and no directory
/// further inside is a root.
pub proof fn law_innermost_root(path: Seq<char>, roots: Seq<Seq<char>>)
    ensures
        match find_first(enclosing(path), |dir: Seq<char>| roots.contains(dir)) {
            Some(root) => {
                &&& roots.contains(root)
                &&& exists|i: int|
                    0 <= i < enclosing(path).len() && #[trigger] enclosing(path)[i] == root
                        && forall|j: int|
                        0 <= j < i ==> !roots.contains(#[trigger] enclosing(path)[j])
            },
            None => forall|i: int|
                0 <= i < enclosing(path).len() ==> !roots.contains(#[trigger] enclosing(path)[i]),
        },
{
    let holds = |dir: Seq<char>| roots.contains(dir);
    crate::lists::law_find_first(enclosing(path), holds);
    crate::lists::lemma_first_position(enclosing(path), holds);
    if find_first(enclosing(path), holds) is None {
        assert forall|i: int| 0 <= i < enclosing(path).len() implies !roots.contains(
            #[trigger] enclosing(path)[i],
        ) by {
            assert(!holds(enclosing(path)[i]));
        }
    } else {
        let i = choose|i: int|
            0 <= i < enclosing(path).len() && enclosing(path)[i] == find_first(
                enclosing(path),
                holds,
            )->0 && forall|j: int| 0 <= j < i ==> !holds(#[trigger] enclosing(path)[j]);
        assert forall|j: int| 0 <= j < i implies !roots.contains(
            #[trigger] enclosing(path)[j],
        ) by {
            assert(!holds(enclosing(path)[j]));
        }
    }
}

/// What belongs to a tree as a whole is in `.pore` at its root.
pub proof fn law_tree_directory(root: Seq<char>)
    requires
        root.len() > 0,
        root.last() != '/',
    ensures
        pore_dir(root) == root + "/.pore"@,
{
    reveal_strlit(".pore");
    reveal_strlit("/.pore");
    assert(pore_dir(root) =~= root + "/.pore"@);
}

/// A new tree is at its path, of the remote and on the branch that it was asked for, with the
/// filters that were; it holds no projects yet. Its first file is that of the manifest, through a
/// link beside the manifest.
pub proof fn law_new_tree(
    path: &str,
    manifest: &ManifestConfig,
    remote: &RemoteConfig,
    branch: &str,
    file: &str,
    filters: Vec<GroupFilter>,
    built: Construction,
)
    requires
        call_ensures(Tree::construct, (path, manifest, remote, branch, file, filters), built),
    ensures
        built.tree.path@ == path@,
        built.tree.config.remote@ == remote.name@,
        built.tree.config.branch@ == branch@,
        built.tree.config.manifest@ == manifest.project@,
        built.tree.config@.projects.len() == 0,
        built.tree.config@.group_filters == Some(filters.deep_view()),
        built.pore_path@ == joined(path@, ".pore"@),
        built.manifest_path@ == joined(joined(path@, ".pore"@), "manifest"@),
        built.manifest_link.path@ == joined(joined(path@, ".pore"@), "manifest.xml"@),
        built.manifest_link.target@ == "manifest/"@ + file@,
{
    assert(built.tree.config@.remote == built.tree.config.remote@);
    assert(built.manifest_link@.path == built.manifest_link.path@);
}

/// The files of a tree are read where they were put when it was made.
pub proof fn law_manifest_read_where_put(
    path: &str,
    manifest: &ManifestConfig,
    remote: &RemoteConfig,
    branch: &str,
    file: &str,
    filters: Vec<GroupFilter>,
    built: Construction,
    found: (String, String),
)
    requires
        call_ensures(Tree::construct, (path, manifest, remote, branch, file, filters), built),
        call_ensures(Tree::read_manifest, (&built.tree,), found),
    ensures
        found.0@ == built.manifest_path@,
        found.1@ == built.manifest_link.path@,
{
    assert(built.manifest_link@.path == built.manifest_link.path@);
}

/// A directory is accepted for a new tree exactly where it can be read and holds nothing.
pub proof fn law_tree_needs_empty_directory(path: &str, listing: Listing, r: Result<(), TreeError>)
    requires
        call_ensures(assert_empty_directory, (path, listing), r),
    ensures
        r is Ok <==> listing == Listing::Entries(0),
{
}

/// A link that is there already is accepted exactly where it leads to the same place, however that
/// is spelt; one that was made always is, and one that could not be made or read never.
pub proof fn law_links_may_be_there(
    target: &str,
    path: &str,
    attempt: LinkAttempt,
    r: Result<(), LinkError>,
)
    requires
        call_ensures(create_symlink, (target, path, attempt), r),
    ensures
        attempt is Made ==> r is Ok,
        attempt matches LinkAttempt::Points(actual) ==> (r is Ok <==> crate::path::components(
            actual@,
        ) == crate::path::components(target@)),
        attempt is Unreadable || attempt is Failed ==> r is Err,
{
}

/// The tree around a path is the innermost: its root is the path or a directory around it, and no
/// directory further inside is a root. Where none is, there is no tree.
pub proof fn law_tree_around_path(
    path: &str,
    roots: &Vec<String>,
    r: Result<String, TreeError>,
    i: int,
)
    requires
        call_ensures(Tree::find_from_path, (path, roots), r),
        0 <= i < enclosing(path@).len(),
        forall|j: int| 0 <= j < i ==> !roots.deep_view().contains(#[trigger] enclosing(path@)[j]),
    ensures
        roots.deep_view().contains(enclosing(path@)[i]) ==> r is Ok && r->Ok_0@
            == enclosing(path@)[i],
        i == enclosing(path@).len() - 1 && !roots.deep_view().contains(enclosing(path@)[i]) ==> r
            is Err,
{
    let holds = |dir: Seq<char>| roots.deep_view().contains(dir);
    lemma_find_from(enclosing(path@), holds, i);
    if i == enclosing(path@).len() - 1 && !roots.deep_view().contains(enclosing(path@)[i]) {
        assert forall|j: int| 0 <= j < i + 1 implies !holds(#[trigger] enclosing(path@)[j]) by {}
        lemma_find_from(enclosing(path@), holds, i + 1);
    }
}

/// A tree is at a path exactly where a configuration is there that can be read, and has it.
pub proof fn law_tree_at_path(
    path: String,
    config: Option<Result<TreeConfig, String>>,
    r: Result<Tree, TreeError>,
)
    requires
        call_ensures(Tree::from_path, (path, config), r),
    ensures
        r is Ok <==> (config matches Some(read) && read is Ok),
        r is Ok ==> r->Ok_0.path@ == path@ && r->Ok_0.config == config->0->Ok_0,
{
}

} // verus!
