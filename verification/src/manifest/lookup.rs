//! What a project gets from the manifest around it.
use vstd::prelude::*;

use crate::config::{Config, RemoteConfig};
use crate::lists::{find_first, law_find_first, lemma_find_from};
use crate::manifest::collections::remote_named;
use crate::manifest::{Manifest, ManifestView, Project, ProjectView, Remote, RemoteView};
use crate::text::{same_text, trim_end, trim_end_char};
use crate::tree::TreeConfig;

verus! {

/// What a project could not be given.
#[derive(Copy, Clone, PartialEq, Eq, Structural, Debug)]
pub enum Missing {
    Remote,
    Revision,
}

/// Why a project could not be given what was asked for.
pub enum LookupError {
    /// Neither the project nor the default names a remote.
    NoRemote { project: String },
    /// Neither the project, the default nor the remote names a revision.
    NoRevision { project: String },
    /// The project has no destination branch, and no revision for the reason given.
    NoDestBranch { project: String, missing: Missing },
}

/// Why a project could not be given what was asked for, as a value.
pub enum LookupErrorView {
    NoRemote { project: Seq<char> },
    NoRevision { project: Seq<char> },
    NoDestBranch { project: Seq<char>, missing: Missing },
}

impl View for LookupError {
    type V = LookupErrorView;

    open spec fn view(&self) -> LookupErrorView {
        match self {
            LookupError::NoRemote { project } => LookupErrorView::NoRemote { project: project@ },
            LookupError::NoRevision { project } => LookupErrorView::NoRevision {
                project: project@,
            },
            LookupError::NoDestBranch { project, missing } => LookupErrorView::NoDestBranch {
                project: project@,
                missing: *missing,
            },
        }
    }
}

/// The name of a project's remote: its own, or that of the default.
pub open spec fn project_remote(project: ProjectView, manifest: ManifestView) -> Option<
    Seq<char>,
> {
    match project.remote {
        Some(remote) => Some(remote),
        None => match manifest.default {
            Some(default) => default.remote,
            None => None,
        },
    }
}

/// The revision that is named for a project directly: its own, or that of the default.
pub open spec fn named_revision(project: ProjectView, manifest: ManifestView) -> Option<
    Seq<char>,
> {
    match project.revision {
        Some(revision) => Some(revision),
        None => match manifest.default {
            Some(default) => default.revision,
            None => None,
        },
    }
}

/// A project's revision: its own, or that of the default, or that of its remote.
pub open spec fn project_revision(project: ProjectView, manifest: ManifestView) -> Result<
    Seq<char>,
    Missing,
> {
    match named_revision(project, manifest) {
        Some(revision) => Ok(revision),
        None => match project_remote(project, manifest) {
            None => Err(Missing::Remote),
            Some(name) => match remote_named(manifest.remotes, name) {
                None => Err(Missing::Revision),
                Some(remote) => match remote.revision {
                    Some(revision) => Ok(revision),
                    None => Err(Missing::Revision),
                },
            },
        },
    }
}

/// The branch that changes of a project go to: its destination branch, or else its revision.
pub open spec fn project_dest_branch(project: ProjectView, manifest: ManifestView) -> Result<
    Seq<char>,
    Missing,
> {
    match project.dest_branch {
        Some(branch) => Ok(branch),
        None => project_revision(project, manifest),
    }
}

impl Project {
    /// The name of the project's remote.
    pub fn find_remote(&self, manifest: &Manifest) -> (r: Result<String, LookupError>)
        ensures
            match project_remote(self@, manifest@) {
                Some(remote) => r is Ok && r->Ok_0@ == remote,
                None => r is Err && r->Err_0@ == (LookupErrorView::NoRemote {
                    project: self.name@,
                }),
            },
    {
        match &self.remote {
            Some(remote) => {
                return Ok(remote.clone());
            },
            None => {},
        }
        match &manifest.default {
            Some(default) => match &default.remote {
                Some(remote) => {
                    return Ok(remote.clone());
                },
                None => {},
            },
            None => {},
        }
        Err(LookupError::NoRemote { project: self.name.clone() })
    }

    /// The project's revision.
    pub fn find_revision(&self, manifest: &Manifest) -> (r: Result<String, LookupError>)
        ensures
            match project_revision(self@, manifest@) {
                Ok(revision) => r is Ok && r->Ok_0@ == revision,
                Err(Missing::Remote) => r is Err && r->Err_0@ == (LookupErrorView::NoRemote {
                    project: self.name@,
                }),
                Err(Missing::Revision) => r is Err && r->Err_0@ == (LookupErrorView::NoRevision {
                    project: self.name@,
                }),
            },
    {
        match &self.revision {
            Some(revision) => {
                return Ok(revision.clone());
            },
            None => {},
        }
        match &manifest.default {
            Some(default) => match &default.revision {
                Some(revision) => {
                    return Ok(revision.clone());
                },
                None => {},
            },
            None => {},
        }
        let remote_name: String = match self.find_remote(manifest) {
            Ok(name) => name,
            Err(e) => {
                return Err(e);
            },
        };
        match manifest.remotes.get(remote_name.as_str()) {
            Some(remote) => match &remote.revision {
                Some(revision) => Ok(revision.clone()),
                None => Err(LookupError::NoRevision { project: self.name.clone() }),
            },
            None => Err(LookupError::NoRevision { project: self.name.clone() }),
        }
    }

    /// The branch that changes of the project go to.
    pub fn find_dest_branch(&self, manifest: &Manifest) -> (r: Result<String, LookupError>)
        ensures
            match project_dest_branch(self@, manifest@) {
                Ok(branch) => r is Ok && r->Ok_0@ == branch,
                Err(missing) => r is Err && r->Err_0@ == (LookupErrorView::NoDestBranch {
                    project: self.name@,
                    missing,
                }),
            },
    {
        match &self.dest_branch {
            Some(branch) => {
                return Ok(branch.clone());
            },
            None => {},
        }
        match self.find_revision(manifest) {
            Ok(revision) => Ok(revision),
            Err(LookupError::NoRemote { .. }) => Err(
                LookupError::NoDestBranch { project: self.name.clone(), missing: Missing::Remote },
            ),
            Err(_) => Err(
                LookupError::NoDestBranch { project: self.name.clone(), missing: Missing::Revision },
            ),
        }
    }
}

/// The URL without slashes at its end.
pub fn canonicalize_url(url: &str) -> (r: String)
    ensures
        r@ == trim_end(url@, '/'),
{
    trim_end_char(url, '/')
}

/// One of the URLs is the given one, but for slashes at the end.
pub open spec fn lists_url(urls: Option<Seq<Seq<char>>>, url: Seq<char>) -> bool {
    urls is Some && exists|i: int|
        0 <= i < urls->0.len() && trim_end(#[trigger] urls->0[i], '/') == url
}

/// The configured remote is at the URL, but for slashes at the end.
pub open spec fn serves_url(remote: RemoteConfig, url: Seq<char>) -> bool {
    trim_end(remote.url@, '/') == url || lists_url(remote.other_urls.deep_view(), url)
}

/// The first configured remote at a URL.
pub open spec fn remote_serving(config: Config, url: Seq<char>) -> Option<RemoteConfig> {
    find_first(config.remotes@, |r: RemoteConfig| serves_url(r, url))
}

/// Why a project's remote could not be matched with a configured one.
pub enum ResolveError {
    /// The project has no remote.
    NoRemote { project: String },
    /// The manifest does not hold the remote of that name.
    NotInManifest { remote: String },
    /// No configured remote is at the URL.
    NotConfigured { url: String },
}

/// Why a project's remote could not be matched with a configured one, as a value.
pub enum ResolveErrorView {
    NoRemote { project: Seq<char> },
    NotInManifest { remote: Seq<char> },
    NotConfigured { url: Seq<char> },
}

impl View for ResolveError {
    type V = ResolveErrorView;

    open spec fn view(&self) -> ResolveErrorView {
        match self {
            ResolveError::NoRemote { project } => ResolveErrorView::NoRemote { project: project@ },
            ResolveError::NotInManifest { remote } => ResolveErrorView::NotInManifest {
                remote: remote@,
            },
            ResolveError::NotConfigured { url } => ResolveErrorView::NotConfigured { url: url@ },
        }
    }
}

/// The name of the configured remote that a project is fetched from.
///
/// A remote in the manifest with `..` as its URL stands for the one that the manifest came from.
pub open spec fn resolved_remote(
    project: ProjectView,
    manifest: ManifestView,
    config: Config,
    tree_remote: Seq<char>,
) -> Result<Seq<char>, ResolveErrorView> {
    match project_remote(project, manifest) {
        None => Err(ResolveErrorView::NoRemote { project: project.name }),
        Some(name) => match remote_named(manifest.remotes, name) {
            None => Err(ResolveErrorView::NotInManifest { remote: name }),
            Some(remote) => if remote.fetch == ".."@ {
                Ok(tree_remote)
            } else {
                match remote_serving(config, trim_end(remote.fetch, '/')) {
                    Some(found) => Ok(found.name@),
                    None => Err(
                        ResolveErrorView::NotConfigured { url: trim_end(remote.fetch, '/') },
                    ),
                }
            },
        },
    }
}

/// Whether the configured remote is at the URL, but for slashes at the end.
fn is_at_url(remote: &RemoteConfig, url: &str) -> (r: bool)
    ensures
        r == serves_url(*remote, url@),
{
    if same_text(url, canonicalize_url(remote.url.as_str()).as_str()) {
        return true;
    }
    match &remote.other_urls {
        Some(urls) => {
            let ghost all = urls.deep_view();
            let mut i: usize = 0;
            while i < urls.len()
                invariant
                    i <= urls.len(),
                    all == urls.deep_view(),
                    remote.other_urls == Some(*urls),
                    forall|j: int| 0 <= j < i ==> trim_end(#[trigger] all[j], '/') != url@,
                decreases urls.len() - i,
            {
                assert(all[i as int] == urls@[i as int]@);
                if same_text(url, canonicalize_url(urls[i].as_str()).as_str()) {
                    assert(trim_end(remote.other_urls.deep_view()->0[i as int], '/') == url@);
                    return true;
                }
                i += 1;
            }
            false
        },
        None => false,
    }
}

impl Manifest {
    /// The name of the configured remote that a project is fetched from, and the remote in the
    /// manifest.
    pub fn resolve_project_remote(
        &self,
        config: &Config,
        tree_config: &TreeConfig,
        project: &Project,
    ) -> (r: Result<(String, &Remote), ResolveError>)
        ensures
            match resolved_remote(project@, self@, *config, tree_config.remote@) {
                Ok(name) => {
                    &&& r is Ok
                    &&& r->Ok_0.0@ == name
                    &&& remote_named(self@.remotes, project_remote(project@, self@)->0) == Some(
                        r->Ok_0.1@,
                    )
                },
                Err(e) => r is Err && r->Err_0@ == e,
            },
    {
        let name: String = match project.find_remote(self) {
            Ok(name) => name,
            Err(_) => {
                return Err(ResolveError::NoRemote { project: project.name.clone() });
            },
        };
        let remote: &Remote = match self.remotes.get(name.as_str()) {
            Some(remote) => remote,
            None => {
                return Err(ResolveError::NotInManifest { remote: name });
            },
        };
        if same_text(remote.fetch.as_str(), "..") {
            return Ok((tree_config.remote.clone(), remote));
        }
        let url: String = canonicalize_url(remote.fetch.as_str());
        let ghost holds = |r: RemoteConfig| serves_url(r, url@);
        let mut i: usize = 0;
        while i < config.remotes.len()
            invariant
                i <= config.remotes.len(),
                holds == (|r: RemoteConfig| serves_url(r, url@)),
                forall|j: int| 0 <= j < i ==> !holds(#[trigger] config.remotes@[j]),
                project_remote(project@, self@) == Some(name@),
                remote_named(self@.remotes, name@) == Some(remote@),
                remote.fetch@ != ".."@,
                url@ == trim_end(remote.fetch@, '/'),
            decreases config.remotes.len() - i,
        {
            proof {
                lemma_find_from(config.remotes@, holds, i as int);
            }
            if is_at_url(&config.remotes[i], url.as_str()) {
                return Ok((config.remotes[i].name.clone(), remote));
            }
            assert(!holds(config.remotes@[i as int]));
            i += 1;
        }
        proof {
            lemma_find_from(config.remotes@, holds, i as int);
        }
        Err(ResolveError::NotConfigured { url })
    }
}

/// A project's own remote and its own revision count, each whether or not the project names the
/// other; what it does not name, the default gives it, where there is one.
pub proof fn law_own_before_default(
    project: ProjectView,
    manifest: ManifestView,
    remote: Option<Seq<char>>,
    revision: Option<Seq<char>>,
)
    ensures
        project.remote matches Some(own) ==> project_remote(project, manifest) == Some(own),
        project.remote is None ==> (manifest.default matches Some(default) ==> project_remote(
            project,
            manifest,
        ) == default.remote),
        project.remote is None && manifest.default is None ==> project_remote(project, manifest)
            is None,
        project.revision matches Some(own) ==> named_revision(project, manifest) == Some(own),
        project.revision is None ==> (manifest.default matches Some(default) ==> named_revision(
            project,
            manifest,
        ) == default.revision),
        project.revision is None && manifest.default is None ==> named_revision(project, manifest)
            is None,
        named_revision((ProjectView { remote, ..project }), manifest) == named_revision(
            project,
            manifest,
        ),
        project_remote((ProjectView { revision, ..project }), manifest) == project_remote(
            project,
            manifest,
        ),
{
}

/// Only where neither the project nor the default names a revision does that of the project's
/// remote count: of the first remote that has the name.
pub proof fn law_revision_in_turn(project: ProjectView, manifest: ManifestView, i: int)
    requires
        0 <= i < manifest.remotes.len(),
        forall|j: int|
            0 <= j < i ==> (#[trigger] manifest.remotes[j]).name != manifest.remotes[i].name,
    ensures
        ({
            let found = project_revision(project, manifest);
            let given = match manifest.default {
                Some(default) => default.revision,
                None => None,
            };
            let remote = match project.remote {
                Some(own) => Some(own),
                None => match manifest.default {
                    Some(default) => default.remote,
                    None => None,
                },
            };
            &&& project.revision matches Some(own) ==> found is Ok && found->Ok_0 == own
            &&& project.revision is None && given is Some ==> found is Ok && found->Ok_0
                == given->0
            &&& project.revision is None && given is None ==> {
                &&& remote is None ==> found is Err && found->Err_0 == Missing::Remote
                &&& remote == Some(manifest.remotes[i].name) ==> match manifest.remotes[i].revision {
                    Some(revision) => found is Ok && found->Ok_0 == revision,
                    None => found is Err && found->Err_0 == Missing::Revision,
                }
            }
        }),
{
    let name = manifest.remotes[i].name;
    lemma_find_from(manifest.remotes, |r: RemoteView| r.name == name, i);
}

/// A revision is missing where the project's remote is not in the manifest and nothing else gives
/// one.
pub proof fn law_revision_of_unknown_remote(
    project: ProjectView,
    manifest: ManifestView,
    name: Seq<char>,
)
    requires
        project.remote == Some(name),
        project.revision is None,
        manifest.default matches Some(default) ==> default.revision is None,
        forall|j: int| 0 <= j < manifest.remotes.len() ==> (#[trigger] manifest.remotes[j]).name
            != name,
    ensures
        project_revision(project, manifest) is Err,
        project_revision(project, manifest)->Err_0 == Missing::Revision,
{
    lemma_find_from(
        manifest.remotes,
        |r: RemoteView| r.name == name,
        manifest.remotes.len() as int,
    );
}

/// A project's own destination branch counts; where it has none, its revision does.
pub proof fn law_dest_branch_in_turn(project: ProjectView, manifest: ManifestView)
    ensures
        project.dest_branch matches Some(own) ==> project_dest_branch(project, manifest) is Ok
            && project_dest_branch(project, manifest)->Ok_0 == own,
        project.dest_branch is None ==> project_dest_branch(project, manifest) == project_revision(
            project,
            manifest,
        ),
{
}

/// A project is fetched from the configured remote that is at the URL of the project's remote in
/// the manifest: the first of those that are there, by their own URL or by any other that they
/// list, slashes at the end not counted. A URL of `..` stands for where the manifest came from.
pub proof fn law_fetched_from_remote_at_url(
    project: ProjectView,
    manifest: ManifestView,
    config: Config,
    tree_remote: Seq<char>,
    i: int,
    k: int,
)
    requires
        0 <= i < manifest.remotes.len(),
        forall|j: int|
            0 <= j < i ==> (#[trigger] manifest.remotes[j]).name != manifest.remotes[i].name,
        project_remote(project, manifest) == Some(manifest.remotes[i].name),
        0 <= k < config.remotes@.len(),
        forall|j: int|
            0 <= j < k ==> !serves_url(
                #[trigger] config.remotes@[j],
                trim_end(manifest.remotes[i].fetch, '/'),
            ),
    ensures
        ({
            let found = resolved_remote(project, manifest, config, tree_remote);
            let fetch = manifest.remotes[i].fetch;
            let remote = config.remotes@[k];
            &&& fetch == ".."@ ==> found is Ok && found->Ok_0 == tree_remote
            &&& fetch != ".."@ && trim_end(remote.url@, '/') == trim_end(fetch, '/') ==> found is Ok
                && found->Ok_0 == remote.name@
            &&& fetch != ".."@ && (remote.other_urls matches Some(urls) && exists|u: int|
                0 <= u < urls@.len() && trim_end(#[trigger] urls@[u]@, '/') == trim_end(
                    fetch,
                    '/',
                )) ==> found is Ok && found->Ok_0 == remote.name@
        }),
{
    let name = manifest.remotes[i].name;
    let fetch = manifest.remotes[i].fetch;
    let url = trim_end(fetch, '/');
    let remote = config.remotes@[k];
    lemma_find_from(manifest.remotes, |r: RemoteView| r.name == name, i);
    lemma_find_from(config.remotes@, |r: RemoteConfig| serves_url(r, url), k);
    if let Some(urls) = remote.other_urls {
        if exists|u: int| 0 <= u < urls@.len() && trim_end(#[trigger] urls@[u]@, '/') == url {
            let u = choose|u: int| 0 <= u < urls@.len() && trim_end(#[trigger] urls@[u]@, '/')
                == url;
            assert(remote.other_urls.deep_view()->0[u] == urls@[u]@);
        }
    }
}

/// A configured remote is at no URLs but its own and those that it lists.
pub proof fn law_remote_serves_only_its_urls(remote: RemoteConfig, url: Seq<char>)
    requires
        serves_url(remote, url),
    ensures
        trim_end(remote.url@, '/') == url || (remote.other_urls matches Some(urls) && exists|u: int|
            0 <= u < urls@.len() && trim_end(#[trigger] urls@[u]@, '/') == url),
{
    if trim_end(remote.url@, '/') != url {
        let urls = remote.other_urls->0;
        let u = choose|u: int|
            0 <= u < remote.other_urls.deep_view()->0.len() && trim_end(
                #[trigger] remote.other_urls.deep_view()->0[u],
                '/',
            ) == url;
        assert(remote.other_urls.deep_view()->0[u] == urls@[u]@);
    }
}

/// A project has nowhere to be fetched from where it has no remote, where its remote is not in the
/// manifest, and where no configured remote is at the URL of it.
pub proof fn law_nowhere_to_fetch_from(
    project: ProjectView,
    manifest: ManifestView,
    config: Config,
    tree_remote: Seq<char>,
)
    ensures
        ({
            let found = resolved_remote(project, manifest, config, tree_remote);
            let remote = project_remote(project, manifest);
            &&& remote is None ==> found is Err && found->Err_0 == (ResolveErrorView::NoRemote {
                project: project.name,
            })
            &&& remote matches Some(name) ==> (forall|i: int|
                0 <= i < manifest.remotes.len() ==> (#[trigger] manifest.remotes[i]).name != name)
                ==> found is Err && found->Err_0 == (ResolveErrorView::NotInManifest {
                remote: name,
            })
            &&& (found matches Err(error) && error is NotConfigured) ==> forall|k: int|
                0 <= k < config.remotes@.len() ==> trim_end(
                    (#[trigger] config.remotes@[k]).url@,
                    '/',
                ) != found->Err_0->url
        }),
{
    if let Some(name) = project_remote(project, manifest) {
        let holds = |r: RemoteView| r.name == name;
        law_find_first(manifest.remotes, holds);
        let missing = forall|i: int|
            0 <= i < manifest.remotes.len() ==> (#[trigger] manifest.remotes[i]).name != name;
        if missing {
            lemma_find_from(manifest.remotes, holds, manifest.remotes.len() as int);
        }
        if let Some(remote) = find_first(manifest.remotes, holds) {
            let url = trim_end(remote.fetch, '/');
            law_find_first(config.remotes@, |r: RemoteConfig| serves_url(r, url));
        }
    }
}

/// A project finds its remote, its revision and its destination branch, its own first; and what
/// none of the places gives is missing by the project's name.
pub proof fn law_project_finds_its_own(
    project: &Project,
    manifest: &Manifest,
    remote: Result<String, LookupError>,
    revision: Result<String, LookupError>,
    branch: Result<String, LookupError>,
)
    requires
        call_ensures(Project::find_remote, (project, manifest), remote),
        call_ensures(Project::find_revision, (project, manifest), revision),
        call_ensures(Project::find_dest_branch, (project, manifest), branch),
    ensures
        project@.remote matches Some(own) ==> remote is Ok && remote->Ok_0@ == own,
        project@.revision matches Some(own) ==> revision is Ok && revision->Ok_0@ == own,
        project@.dest_branch matches Some(own) ==> branch is Ok && branch->Ok_0@ == own,
        project@.dest_branch is None && revision is Ok ==> branch is Ok && branch->Ok_0@
            == revision->Ok_0@,
        project@.dest_branch is None && revision is Err ==> branch is Err,
        project@.remote is None && manifest@.default is None ==> remote is Err && remote->Err_0@
            == (LookupErrorView::NoRemote { project: project.name@ }),
{
}

} // verus!
