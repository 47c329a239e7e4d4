//! What the commands decide.
use vstd::prelude::*;

use crate::config::{manifest_config, Config, ConfigError, ConfigErrorView, ManifestConfig};
use crate::depot::add_argument;
use crate::lists::lemma_find_from;
use crate::manifest::{Manifest, ProjectEntry, ProjectView};
use crate::path::{diff_paths, join_path, joined, path_difference};
use crate::pool::{check_failed, TasksFailed};
use crate::text::{
    begins_with, concat2, concat4, contains_char, decimal, decimal_of, hexadecimal8, join,
    join_with, law_split_without_separator, lemma_split_between, list_contains, numeral, same_text, split,
    split_on, zero_padded,
};
use crate::tree::groups::{
    filter_texts, law_filter_list_read_back, read_filters, GroupFilter, GroupFilterView,
};
use crate::tree::select::{ProjectInfoView, Reach};
use crate::tree::{FetchType, ProjectInfo, Tree, TreeConfig};

verus! {

/// A command.
#[derive(Copy, Clone, PartialEq, Eq, Structural, Debug)]
pub enum CommandKind {
    Init,
    Clone,
    Fetch,
    Sync,
    Start,
    Rebase,
    Upload,
    Prune,
    Status,
    Forall,
    Preupload,
    Import,
    List,
    FindDeleted,
    Manifest,
    Config,
    Info,
}

/// The name of a command.
pub open spec fn command_text(command: CommandKind) -> Seq<char> {
    match command {
        CommandKind::Init => "init"@,
        CommandKind::Clone => "clone"@,
        CommandKind::Fetch => "fetch"@,
        CommandKind::Sync => "sync"@,
        CommandKind::Start => "start"@,
        CommandKind::Rebase => "rebase"@,
        CommandKind::Upload => "upload"@,
        CommandKind::Prune => "prune"@,
        CommandKind::Status => "status"@,
        CommandKind::Forall => "forall"@,
        CommandKind::Preupload => "preupload"@,
        CommandKind::Import => "import"@,
        CommandKind::List => "list"@,
        CommandKind::FindDeleted => "find-deleted"@,
        CommandKind::Manifest => "manifest"@,
        CommandKind::Config => "config"@,
        CommandKind::Info => "info"@,
    }
}

/// The name of a command.
pub fn command_name(command: CommandKind) -> (r: &'static str)
    ensures
        r@ == command_text(command),
{
    match command {
        CommandKind::Init => "init",
        CommandKind::Clone => "clone",
        CommandKind::Fetch => "fetch",
        CommandKind::Sync => "sync",
        CommandKind::Start => "start",
        CommandKind::Rebase => "rebase",
        CommandKind::Upload => "upload",
        CommandKind::Prune => "prune",
        CommandKind::Status => "status",
        CommandKind::Forall => "forall",
        CommandKind::Preupload => "preupload",
        CommandKind::Import => "import",
        CommandKind::List => "list",
        CommandKind::FindDeleted => "find-deleted",
        CommandKind::Manifest => "manifest",
        CommandKind::Config => "config",
        CommandKind::Info => "info",
    }
}

/// Which projects the paths of a command stand for.
pub open spec fn reach_spec(command: CommandKind) -> Reach {
    match command {
        CommandKind::Fetch | CommandKind::Sync | CommandKind::Status | CommandKind::Forall
        | CommandKind::Preupload => Reach::Beneath,
        _ => Reach::Containing,
    }
}

/// Which projects the paths of a command stand for: fetching, syncing, showing the status, running
/// commands and running the upload hooks go to every project beneath a path, the other commands to
/// the projects that a path lies in.
pub fn command_reach(command: CommandKind) -> (r: Reach)
    ensures
        r == reach_spec(command),
{
    match command {
        CommandKind::Fetch | CommandKind::Sync | CommandKind::Status | CommandKind::Forall
        | CommandKind::Preupload => Reach::Beneath,
        _ => Reach::Containing,
    }
}

/// What a target of the form `REMOTE[/BRANCH[:MANIFEST]]` names; a target with more than one `/`,
/// or with more than one `:` behind it, names nothing.
pub open spec fn target_parts(target: Seq<char>) -> Option<
    (Seq<char>, Option<Seq<char>>, Option<Seq<char>>),
> {
    let parts = split_on(target, '/');
    if parts.len() > 2 {
        None
    } else if parts.len() == 2 {
        let rest = split_on(parts[1], ':');
        if rest.len() > 2 {
            None
        } else {
            Some(
                (
                    parts[0],
                    Some(rest[0]),
                    if rest.len() == 2 {
                        Some(rest[1])
                    } else {
                        None
                    },
                ),
            )
        }
    } else {
        Some((parts[0], None, None))
    }
}

/// A target as text.
pub open spec fn target_text(
    remote: Seq<char>,
    branch: Option<Seq<char>>,
    file: Option<Seq<char>>,
) -> Seq<char> {
    match branch {
        None => remote,
        Some(branch) => match file {
            None => remote + seq!['/'] + branch,
            Some(file) => remote + seq!['/'] + (branch + seq![':'] + file),
        },
    }
}

/// A target is made of exactly what it names.
pub proof fn law_target_written_back(target: Seq<char>)
    ensures
        target_parts(target) matches Some((remote, branch, file)) ==> target_text(
            remote,
            branch,
            file,
        ) == target,
{
    let parts = split_on(target, '/');
    crate::text::law_join_of_split(target, '/');
    if parts.len() == 1 {
        assert(join_with(parts, seq!['/']) == parts[0]);
    } else if parts.len() == 2 {
        assert(join_with(parts.drop_last(), seq!['/']) == parts[0]);
        assert(join_with(parts, seq!['/']) == parts[0] + seq!['/'] + parts[1]);
        let rest = split_on(parts[1], ':');
        crate::text::law_join_of_split(parts[1], ':');
        if rest.len() == 2 {
            assert(join_with(rest.drop_last(), seq![':']) == rest[0]);
            assert(join_with(rest, seq![':']) == rest[0] + seq![':'] + rest[1]);
        }
    }
}

/// Every well-formed target is accepted, and names what it was written from: a remote, with or
/// without a branch, and a branch with or without a manifest file.
pub proof fn law_target_read_back(
    remote: Seq<char>,
    branch: Option<Seq<char>>,
    file: Option<Seq<char>>,
)
    requires
        !remote.contains('/'),
        branch matches Some(name) ==> !name.contains('/') && !name.contains(':'),
        file matches Some(name) ==> branch is Some && !name.contains('/') && !name.contains(':'),
    ensures
        target_parts(remote) == Some((remote, None::<Seq<char>>, None::<Seq<char>>)),
        branch matches Some(name) ==> target_parts(remote + seq!['/'] + name) == Some(
            (remote, Some(name), None::<Seq<char>>),
        ),
        branch matches Some(name) ==> (file matches Some(manifest) ==> target_parts(
            remote + seq!['/'] + (name + seq![':'] + manifest),
        ) == Some((remote, Some(name), Some(manifest)))),
        target_parts(target_text(remote, branch, file)) == Some((remote, branch, file)),
{
    law_split_without_separator(remote, '/');
    if let Some(name) = branch {
        law_split_without_separator(name, '/');
        law_split_without_separator(name, ':');
        lemma_split_between(remote, name, '/');
        if let Some(manifest) = file {
            law_split_without_separator(manifest, ':');
            lemma_split_between(name, manifest, ':');
            let rest = name + seq![':'] + manifest;
            assert forall|i: int| 0 <= i < rest.len() implies rest[i] != '/' by {
                if i < name.len() {
                    assert(name.contains(rest[i]));
                } else if i > name.len() {
                    assert(manifest.contains(manifest[i - name.len() - 1]));
                }
            }
            law_split_without_separator(rest, '/');
            lemma_split_between(remote, rest, '/');
        }
    }
}

/// A target is refused where its parts are more than there is a meaning for: two `/` anywhere, or
/// two `:` behind the `/`.
pub proof fn law_target_refused(a: Seq<char>, b: Seq<char>, c: Seq<char>, d: Seq<char>)
    ensures
        target_parts(a + seq!['/'] + (b + seq!['/'] + c)) is None,
        !a.contains('/') && !(b + seq![':'] + (c + seq![':'] + d)).contains('/') ==> target_parts(
            a + seq!['/'] + (b + seq![':'] + (c + seq![':'] + d)),
        ) is None,
{
    lemma_split_between(b, c, '/');
    lemma_split_between(a, b + seq!['/'] + c, '/');
    let rest = b + seq![':'] + (c + seq![':'] + d);
    lemma_split_between(c, d, ':');
    lemma_split_between(b, c + seq![':'] + d, ':');
    if !a.contains('/') && !rest.contains('/') {
        law_split_without_separator(a, '/');
        law_split_without_separator(rest, '/');
        lemma_split_between(a, rest, '/');
    }
}

/// A target that names nothing.
pub struct InvalidTarget {
    pub target: String,
}

/// What a target names: a remote, a branch and a manifest file.
pub fn parse_target(target: &str) -> (r: Result<
    (String, Option<String>, Option<String>),
    InvalidTarget,
>)
    ensures
        match target_parts(target@) {
            Some((remote, branch, file)) => r is Ok && r->Ok_0.0@ == remote
                && r->Ok_0.1.deep_view() == branch && r->Ok_0.2.deep_view() == file,
            None => r is Err && r->Err_0.target@ == target@,
        },
{
    let parts: Vec<String> = split(target, '/');
    let ghost all = parts.deep_view();
    if parts.len() > 2 {
        return Err(InvalidTarget { target: target.to_owned() });
    }
    assert(all[0] == parts@[0]@);
    if parts.len() == 2 {
        assert(all[1] == parts@[1]@);
        let rest: Vec<String> = split(parts[1].as_str(), ':');
        let ghost tail = rest.deep_view();
        if rest.len() > 2 {
            return Err(InvalidTarget { target: target.to_owned() });
        }
        assert(tail[0] == rest@[0]@);
        let file: Option<String> = if rest.len() == 2 {
            assert(tail[1] == rest@[1]@);
            Some(rest[1].clone())
        } else {
            None
        };
        return Ok((parts[0].clone(), Some(rest[0].clone()), file));
    }
    Ok((parts[0].clone(), None, None))
}

/// What a new tree is made from, and where.
pub struct CloneChoice {
    pub manifest: ManifestConfig,
    pub branch: String,
    pub file: String,
    pub tree_root: String,
}

/// Why a new tree cannot be made.
pub enum CloneError {
    InvalidTarget(InvalidTarget),
    Config(ConfigError),
}

/// What a new tree is made from, and where: the target's branch and file, or else those of the
/// manifest's configuration; the given directory, or else one named as the branch.
pub fn choose_clone(config: &Config, target: &str, directory: Option<String>) -> (r: Result<
    CloneChoice,
    CloneError,
>)
    ensures
        match target_parts(target@) {
            None => r matches Err(CloneError::InvalidTarget(e)) && e.target@ == target@,
            Some((name, branch, file)) => match manifest_config(*config, name) {
                None => r matches Err(CloneError::Config(e)) && e@
                    == ConfigErrorView::UnknownManifest(name),
                Some(manifest) => {
                    let chosen = match branch {
                        Some(branch) => branch,
                        None => manifest.default_branch,
                    };
                    &&& r is Ok
                    &&& r->Ok_0.manifest@ == manifest
                    &&& r->Ok_0.branch@ == chosen
                    &&& r->Ok_0.file@ == match file {
                        Some(file) => file,
                        None => manifest.default_manifest_file,
                    }
                    &&& r->Ok_0.tree_root@ == match directory {
                        Some(directory) => directory@,
                        None => chosen,
                    }
                },
            },
        },
{
    let (name, branch, file) = match parse_target(target) {
        Ok(parts) => parts,
        Err(e) => {
            return Err(CloneError::InvalidTarget(e));
        },
    };
    let manifest: ManifestConfig = match config.find_manifest(name.as_str()) {
        Ok(manifest) => manifest,
        Err(e) => {
            return Err(CloneError::Config(e));
        },
    };
    let branch: String = match branch {
        Some(branch) => branch,
        None => manifest.default_branch.clone(),
    };
    let file: String = match file {
        Some(file) => file,
        None => manifest.default_manifest_file.clone(),
    };
    let tree_root: String = match directory {
        Some(directory) => directory,
        None => branch.clone(),
    };
    Ok(CloneChoice { manifest, branch, file, tree_root })
}

/// What is fetched after a new tree has been made, where its manifest has just been fetched.
pub fn clone_fetch_type(fetch: bool) -> (r: FetchType)
    ensures
        r == if fetch {
            FetchType::FetchExceptManifest
        } else {
            FetchType::NoFetch
        },
{
    if fetch {
        FetchType::FetchExceptManifest
    } else {
        FetchType::NoFetch
    }
}

/// A user as an address: one without a domain is at `google.com`.
pub open spec fn user_address(user: Seq<char>) -> Seq<char> {
    if user.contains('@') {
        user
    } else {
        user + "@google.com"@
    }
}

/// The addresses of the users in the pieces of a list, without the empty ones.
pub open spec fn user_addresses(pieces: Seq<Seq<char>>) -> Seq<Seq<char>>
    decreases pieces.len(),
{
    if pieces.len() == 0 {
        Seq::empty()
    } else {
        let front = user_addresses(pieces.drop_last());
        if pieces.last().len() == 0 {
            front
        } else {
            front.push(user_address(pieces.last()))
        }
    }
}

/// Every user has an address with a domain.
pub proof fn law_users_have_domains(pieces: Seq<Seq<char>>, i: int)
    requires
        0 <= i < user_addresses(pieces).len(),
    ensures
        user_addresses(pieces)[i].contains('@'),
    decreases pieces.len(),
{
    let front = pieces.drop_last();
    if i < user_addresses(front).len() {
        law_users_have_domains(front, i);
        assert(user_addresses(pieces)[i] == user_addresses(front)[i]);
    } else {
        let user = pieces.last();
        assert(user_addresses(pieces)[i] == user_address(user));
        if !user.contains('@') {
            reveal_strlit("@google.com");
            assert(user_address(user)[user.len() as int] == '@');
        }
    }
}

/// The addresses of the users in a comma separated list.
pub fn user_string_to_vec(users: Option<&str>) -> (r: Vec<String>)
    ensures
        r.deep_view() == match users {
            Some(list) => user_addresses(split_on(list@, ',')),
            None => Seq::empty(),
        },
{
    let mut r: Vec<String> = Vec::new();
    assert(r.deep_view() =~= Seq::empty());
    match users {
        None => {},
        Some(list) => {
            let pieces: Vec<String> = split(list, ',');
            let ghost all = pieces.deep_view();
            let mut i: usize = 0;
            while i < pieces.len()
                invariant
                    i <= pieces.len(),
                    all == pieces.deep_view(),
                    r.deep_view() == user_addresses(all.take(i as int)),
                decreases pieces.len() - i,
            {
                let piece: &String = &pieces[i];
                assert(all[i as int] == piece@);
                assert(all.take(i + 1).drop_last() =~= all.take(i as int));
                if !piece.as_str().is_empty() {
                    if contains_char(piece.as_str(), '@') {
                        add_argument(&mut r, piece.clone());
                    } else {
                        add_argument(&mut r, concat2(piece.as_str(), "@google.com"));
                    }
                }
                i += 1;
            }
            assert(all.take(all.len() as int) =~= all);
        },
    }
    r
}

/// The identity of a run in the traces of `git`: that of the run around it, if there is one, and
/// its own, made of the time and of the process.
pub fn trace_id(parent: Option<&str>, timestamp: &str, process: u32) -> (r: String)
    ensures
        r@ == (match parent {
            Some(parent) => parent@ + "/"@,
            None => ""@,
        }) + ("pore-"@ + timestamp@ + "-P"@ + zero_padded(numeral(process as nat, 16), 8)),
{
    let own: String = concat4("pore-", timestamp, "-P", hexadecimal8(process).as_str());
    match parent {
        Some(parent) => concat2(concat2(parent, "/").as_str(), own.as_str()),
        None => concat2("", own.as_str()),
    }
}

/// The configuration file: the given one, or else `.pore.toml` in the home directory where that
/// exists, or else the one of the machine.
pub fn choose_config_path(given: Option<String>, home: &str, exists: bool) -> (r: String)
    ensures
        r@ == match given {
            Some(path) => path@,
            None => if exists {
                joined(home@, ".pore.toml"@)
            } else {
                "/etc/pore.toml"@
            },
        },
{
    match given {
        Some(path) => path,
        None => if exists {
            join_path(home, ".pore.toml")
        } else {
            "/etc/pore.toml".to_owned()
        },
    }
}

/// The names of the projects of a remote.
pub struct RemoteProjects {
    pub remote: String,
    pub projects: Vec<String>,
}

/// The names of the projects of a remote, as a value.
#[verifier::ext_equal]
pub struct RemoteProjectsView {
    pub remote: Seq<char>,
    pub projects: Seq<Seq<char>>,
}

impl View for RemoteProjects {
    type V = RemoteProjectsView;

    open spec fn view(&self) -> RemoteProjectsView {
        RemoteProjectsView { remote: self.remote@, projects: self.projects.deep_view() }
    }
}

impl DeepView for RemoteProjects {
    type V = RemoteProjectsView;

    open spec fn deep_view(&self) -> RemoteProjectsView {
        self@
    }
}

/// The position of a remote among the groups, or their number where it is not among them.
pub open spec fn remote_position(groups: Seq<RemoteProjectsView>, remote: Seq<char>) -> nat
    decreases groups.len(),
{
    if groups.len() == 0 || groups[0].remote == remote {
        0
    } else {
        1 + remote_position(groups.drop_first(), remote)
    }
}

/// A name among others, once.
pub open spec fn with_name(names: Seq<Seq<char>>, name: Seq<char>) -> Seq<Seq<char>> {
    if names.contains(name) {
        names
    } else {
        names.push(name)
    }
}

/// The groups with a project of a remote, once.
pub open spec fn with_project(
    groups: Seq<RemoteProjectsView>,
    remote: Seq<char>,
    name: Seq<char>,
) -> Seq<RemoteProjectsView> {
    let i = remote_position(groups, remote) as int;
    if i < groups.len() {
        groups.update(
            i,
            RemoteProjectsView { remote, projects: with_name(groups[i].projects, name) },
        )
    } else {
        groups.push(RemoteProjectsView { remote, projects: seq![name] })
    }
}

/// The remote of a project, or the default one.
pub open spec fn import_remote(project: ProjectView, default_remote: Seq<char>) -> Seq<char> {
    match project.remote {
        Some(remote) => remote,
        None => default_remote,
    }
}

/// The names of the projects, by remote.
pub open spec fn grouped(
    projects: Seq<(Seq<char>, ProjectView)>,
    default_remote: Seq<char>,
) -> Seq<RemoteProjectsView>
    decreases projects.len(),
{
    if projects.len() == 0 {
        Seq::empty()
    } else {
        let project = projects.last().1;
        with_project(
            grouped(projects.drop_last(), default_remote),
            import_remote(project, default_remote),
            project.name,
        )
    }
}

/// The groups hold a project of a remote.
pub open spec fn holds_project(
    groups: Seq<RemoteProjectsView>,
    remote: Seq<char>,
    name: Seq<char>,
) -> bool {
    exists|i: int|
        0 <= i < groups.len() && (#[trigger] groups[i]).remote == remote
            && groups[i].projects.contains(name)
}

proof fn lemma_remote_position(groups: Seq<RemoteProjectsView>, remote: Seq<char>)
    ensures
        remote_position(groups, remote) <= groups.len(),
        remote_position(groups, remote) < groups.len() ==> groups[remote_position(
            groups,
            remote,
        ) as int].remote == remote,
        forall|i: int|
            0 <= i < remote_position(groups, remote) ==> (#[trigger] groups[i]).remote != remote,
    decreases groups.len(),
{
    if groups.len() > 0 && groups[0].remote != remote {
        let rest = groups.drop_first();
        lemma_remote_position(rest, remote);
        assert forall|i: int| 0 <= i < remote_position(groups, remote) implies (
        #[trigger] groups[i]).remote != remote by {
            if i > 0 {
                assert(groups[i] == rest[i - 1]);
            }
        }
    }
}

proof fn lemma_with_project(
    groups: Seq<RemoteProjectsView>,
    remote: Seq<char>,
    name: Seq<char>,
    other_remote: Seq<char>,
    other_name: Seq<char>,
)
    ensures
        holds_project(with_project(groups, remote, name), other_remote, other_name) <==> (
        holds_project(groups, other_remote, other_name) || (other_remote == remote && other_name
            == name)),
{
    lemma_remote_position(groups, remote);
    let at = remote_position(groups, remote) as int;
    let after = with_project(groups, remote, name);
    if at < groups.len() {
        let old_names = groups[at].projects;
        let new_names = with_name(old_names, name);
        assert(new_names.contains(name)) by {
            if !old_names.contains(name) {
                assert(new_names[old_names.len() as int] == name);
            }
        }
        assert forall|n: Seq<char>| new_names.contains(n) implies old_names.contains(n) || n
            == name by {
            let k = choose|k: int| 0 <= k < new_names.len() && new_names[k] == n;
            if k < old_names.len() {
                assert(old_names[k] == n);
            }
        }
        assert forall|n: Seq<char>| old_names.contains(n) implies new_names.contains(n) by {
            let k = choose|k: int| 0 <= k < old_names.len() && old_names[k] == n;
            assert(new_names[k] == n);
        }
        if holds_project(groups, other_remote, other_name) {
            let i = choose|i: int|
                0 <= i < groups.len() && (#[trigger] groups[i]).remote == other_remote
                    && groups[i].projects.contains(other_name);
            assert(after[i].remote == other_remote && after[i].projects.contains(other_name));
        }
        if other_remote == remote && other_name == name {
            assert(after[at].remote == remote && after[at].projects.contains(name));
        }
        if holds_project(after, other_remote, other_name) {
            let i = choose|i: int|
                0 <= i < after.len() && (#[trigger] after[i]).remote == other_remote
                    && after[i].projects.contains(other_name);
            if i != at {
                assert(groups[i] == after[i]);
            } else {
                assert(groups[at].remote == remote);
                if old_names.contains(other_name) {
                    assert(holds_project(groups, other_remote, other_name));
                }
            }
        }
    } else {
        let added = RemoteProjectsView { remote, projects: seq![name] };
        assert(added.projects[0] == name);
        if holds_project(groups, other_remote, other_name) {
            let i = choose|i: int|
                0 <= i < groups.len() && (#[trigger] groups[i]).remote == other_remote
                    && groups[i].projects.contains(other_name);
            assert(after[i] == groups[i]);
        }
        if other_remote == remote && other_name == name {
            assert(after[groups.len() as int] == added);
        }
        if holds_project(after, other_remote, other_name) {
            let i = choose|i: int|
                0 <= i < after.len() && (#[trigger] after[i]).remote == other_remote
                    && after[i].projects.contains(other_name);
            if i < groups.len() {
                assert(groups[i] == after[i]);
            } else {
                let k = choose|k: int|
                    0 <= k < added.projects.len() && added.projects[k] == other_name;
            }
        }
    }
}

/// A remote has a project among the groups exactly where the manifest says so.
pub proof fn law_grouped_by_remote(
    projects: Seq<(Seq<char>, ProjectView)>,
    default_remote: Seq<char>,
    remote: Seq<char>,
    name: Seq<char>,
)
    ensures
        holds_project(grouped(projects, default_remote), remote, name) <==> exists|i: int|
            0 <= i < projects.len() && (#[trigger] projects[i]).1.name == name && import_remote(
                projects[i].1,
                default_remote,
            ) == remote,
    decreases projects.len(),
{
    if projects.len() > 0 {
        let front = projects.drop_last();
        let last = projects.last().1;
        law_grouped_by_remote(front, default_remote, remote, name);
        lemma_with_project(
            grouped(front, default_remote),
            import_remote(last, default_remote),
            last.name,
            remote,
            name,
        );
        if exists|i: int|
            0 <= i < front.len() && (#[trigger] front[i]).1.name == name && import_remote(
                front[i].1,
                default_remote,
            ) == remote {
            let i = choose|i: int|
                0 <= i < front.len() && (#[trigger] front[i]).1.name == name && import_remote(
                    front[i].1,
                    default_remote,
                ) == remote;
            assert(projects[i] == front[i]);
        }
        if exists|i: int|
            0 <= i < projects.len() && (#[trigger] projects[i]).1.name == name && import_remote(
                projects[i].1,
                default_remote,
            ) == remote {
            let i = choose|i: int|
                0 <= i < projects.len() && (#[trigger] projects[i]).1.name == name
                    && import_remote(projects[i].1, default_remote) == remote;
            if i < front.len() {
                assert(front[i] == projects[i]);
            }
        }
        if last.name == name && import_remote(last, default_remote) == remote {
            assert(projects[projects.len() - 1].1.name == name);
        }
    }
}

/// Every remote has one group, and every project is in its group once.
pub open spec fn groups_distinct(groups: Seq<RemoteProjectsView>) -> bool {
    &&& forall|i: int, j: int|
        0 <= i < j < groups.len() ==> (#[trigger] groups[i]).remote != (
        #[trigger] groups[j]).remote
    &&& forall|i: int| 0 <= i < groups.len() ==> (#[trigger] groups[i]).projects.no_duplicates()
}

/// However often the manifest names a remote or a project, there is one group for the remote, and
/// the project is in it once.
pub proof fn law_groups_distinct(
    projects: Seq<(Seq<char>, ProjectView)>,
    default_remote: Seq<char>,
)
    ensures
        groups_distinct(grouped(projects, default_remote)),
    decreases projects.len(),
{
    if projects.len() > 0 {
        let last = projects.last().1;
        let remote = import_remote(last, default_remote);
        let groups = grouped(projects.drop_last(), default_remote);
        law_groups_distinct(projects.drop_last(), default_remote);
        lemma_remote_position(groups, remote);
        let after = with_project(groups, remote, last.name);
        let k = remote_position(groups, remote) as int;
        assert forall|i: int| 0 <= i < after.len() implies (
        #[trigger] after[i]).projects.no_duplicates() by {
            if i != k {
                assert(after[i] == groups[i]);
            } else if k < groups.len() {
                let names = groups[k].projects;
                assert(names.no_duplicates());
                if !names.contains(last.name) {
                    let more = names.push(last.name);
                    assert forall|a: int, b: int| 0 <= a < more.len() && 0 <= b < more.len() && a
                        != b implies more[a] != more[b] by {
                        if a < names.len() {
                            assert(names[a] != last.name);
                        }
                        if b < names.len() {
                            assert(names[b] != last.name);
                        }
                    }
                }
            }
        }
        assert forall|i: int, j: int| 0 <= i < j < after.len() implies (
        #[trigger] after[i]).remote != (#[trigger] after[j]).remote by {
            if i < groups.len() && j < groups.len() {
                assert(groups[i].remote != groups[j].remote);
                assert(after[i].remote == groups[i].remote);
                assert(after[j].remote == groups[j].remote);
            } else {
                assert(k == groups.len());
                assert(after[i] == groups[i]);
                assert(groups[i].remote != remote);
            }
        }
    }
}

/// Adds a project of a remote to the groups, once.
fn add_project(groups: &mut Vec<RemoteProjects>, remote: &str, name: &str)
    ensures
        final(groups).deep_view() == with_project(old(groups).deep_view(), remote@, name@),
{
    let ghost all = groups.deep_view();
    let mut i: usize = 0;
    assert(all.skip(0) =~= all);
    while i < groups.len() && !same_text(groups[i].remote.as_str(), remote)
        invariant
            i <= groups.len(),
            all == groups.deep_view(),
            remote_position(all, remote@) == i + remote_position(all.skip(i as int), remote@),
        decreases groups.len() - i,
    {
        assert(all.skip(i as int)[0] == groups@[i as int]@);
        assert(all.skip(i as int).drop_first() =~= all.skip(i + 1));
        i += 1;
    }
    assert(i < groups.len() ==> all.skip(i as int)[0] == groups@[i as int]@);
    assert(remote_position(all, remote@) == i);
    if i < groups.len() {
        assert(all[i as int] == groups@[i as int]@);
        let mut projects: Vec<String> = crate::text::copy_list(&groups[i].projects);
        if !list_contains(&projects, name) {
            add_argument(&mut projects, name.to_owned());
        }
        let group: RemoteProjects = RemoteProjects { remote: remote.to_owned(), projects };
        let ghost added = group@;
        groups.set(i, group);
        assert(groups.deep_view() =~= all.update(i as int, added));
    } else {
        let mut projects: Vec<String> = Vec::new();
        projects.push(name.to_owned());
        assert(projects.deep_view() =~= seq![name@]);
        let group: RemoteProjects = RemoteProjects { remote: remote.to_owned(), projects };
        let ghost added = group@;
        groups.push(group);
        assert(groups.deep_view() =~= all.push(added));
    }
}

/// The names of the projects of a manifest, by remote, where those that name none are of the given
/// one.
pub fn import_groups(manifest: &Manifest, default_remote: &str) -> (r: Vec<RemoteProjects>)
    ensures
        r.deep_view() == grouped(manifest@.projects, default_remote@),
{
    let ghost all = manifest@.projects;
    let mut groups: Vec<RemoteProjects> = Vec::new();
    let mut i: usize = 0;
    assert(groups.deep_view() =~= Seq::empty());
    while i < manifest.projects.len()
        invariant
            i <= all.len(),
            all == manifest@.projects,
            groups.deep_view() == grouped(all.take(i as int), default_remote@),
        decreases all.len() - i,
    {
        assert(all.take(i + 1).drop_last() =~= all.take(i as int));
        let entry: &ProjectEntry = manifest.projects.at(i);
        let remote: String = match &entry.project.remote {
            Some(remote) => remote.clone(),
            None => default_remote.to_owned(),
        };
        add_project(&mut groups, remote.as_str(), entry.project.name.as_str());
        i += 1;
    }
    assert(all.take(all.len() as int) =~= all);
    groups
}

/// The names of the projects of a manifest, by remote. The manifest must name a default remote.
pub fn import_projects(manifest: &Manifest) -> (r: Vec<RemoteProjects>)
    requires
        manifest@.default is Some,
        manifest@.default->0.remote is Some,
    ensures
        r.deep_view() == grouped(manifest@.projects, manifest@.default->0.remote->0),
{
    match &manifest.default {
        Some(default) => match &default.remote {
            Some(remote) => import_groups(manifest, remote.as_str()),
            None => import_groups(manifest, ""),
        },
        None => import_groups(manifest, ""),
    }
}

/// Where the manifest of a tree of another tool is: the directory of its files, and the first of
/// them.
pub fn import_manifest(target: &str) -> (r: (String, String))
    ensures
        r.0@ == joined(joined(target@, ".repo"@), "manifests"@),
        r.1@ == joined(joined(target@, ".repo"@), "manifest.xml"@),
{
    let repo: String = join_path(target, ".repo");
    (join_path(repo.as_str(), "manifests"), join_path(repo.as_str(), "manifest.xml"))
}

/// The directory of a project's objects in a tree of another tool.
pub fn import_source(target: &str, project: &str) -> (r: String)
    ensures
        r@ == joined(joined(joined(target@, ".repo"@), "project-objects"@), project@ + ".git"@),
{
    let objects: String = join_path(join_path(target, ".repo").as_str(), "project-objects");
    join_path(objects.as_str(), concat2(project, ".git").as_str())
}

/// Whether objects can be imported: links need one file system, copies do not.
pub fn can_import(copy: bool, depot_device: u64, target_device: u64) -> (r: bool)
    ensures
        r == (copy || depot_device == target_device),
{
    copy || depot_device == target_device
}

/// Whether a directory of objects is imported: all are but `info`, which can name other places.
pub fn imports_directory(name: &str) -> (r: bool)
    ensures
        r == (name@ != "info"@),
{
    !same_text(name, "info")
}

/// The exit code of an import, unless some project could not be imported.
pub fn import_code(failed: usize) -> (r: Result<i32, TasksFailed>)
    ensures
        match r {
            Ok(code) => failed == 0 && code == 0,
            Err(error) => failed > 0 && error.count == failed,
        },
{
    match check_failed(failed) {
        Ok(()) => Ok(0),
        Err(error) => Err(error),
    }
}

/// The filters of a tree as text, where a tree without any has the group `default`.
pub open spec fn manifest_groups(filters: Option<Seq<GroupFilterView>>) -> Seq<char> {
    match filters {
        Some(list) => join_with(filter_texts(list), ","@),
        None => "default"@,
    }
}

/// The line between the parts of the information.
pub const SEPARATOR: &'static str = "----------------------------";

/// What is said of a tree as a whole.
pub open spec fn tree_info(config: TreeConfig) -> Seq<Seq<char>> {
    seq![
        "Manifest branch: "@ + config.branch@,
        "Manifest merge branch: refs/heads/"@ + config.branch@,
        "Manifest groups: "@ + manifest_groups(config@.group_filters),
        SEPARATOR@,
    ]
}

/// What is said of a tree as a whole, line by line.
pub fn tree_info_lines(config: &TreeConfig) -> (r: Vec<String>)
    ensures
        r.deep_view() == tree_info(*config),
{
    let groups: String = match &config.group_filters {
        Some(filters) => GroupFilter::list_text(filters),
        None => "default".to_owned(),
    };
    let mut r: Vec<String> = Vec::new();
    r.push(concat2("Manifest branch: ", config.branch.as_str()));
    r.push(concat2("Manifest merge branch: refs/heads/", config.branch.as_str()));
    r.push(concat2("Manifest groups: ", groups.as_str()));
    r.push(SEPARATOR.to_owned());
    assert(r.deep_view() =~= tree_info(*config));
    r
}

/// Why a path stands for no project.
pub enum InfoError {
    /// There is no way to it from the root of the tree.
    NotInTree { path: String },
    /// No project is there.
    NotFound { path: String },
}

/// Why a path stands for no project, as a value.
pub enum InfoErrorView {
    NotInTree { path: Seq<char> },
    NotFound { path: Seq<char> },
}

impl View for InfoError {
    type V = InfoErrorView;

    open spec fn view(&self) -> InfoErrorView {
        match self {
            InfoError::NotInTree { path } => InfoErrorView::NotInTree { path: path@ },
            InfoError::NotFound { path } => InfoErrorView::NotFound { path: path@ },
        }
    }
}

/// The first of the projects at a path, as it is spelt.
pub open spec fn project_at(projects: Seq<ProjectInfoView>, path: Seq<char>) -> Option<
    ProjectInfoView,
> {
    crate::lists::find_first(projects, |p: ProjectInfoView| p.project_path == path)
}

/// The projects at the paths, in order, where each path has come out of its way from the root; the
/// first that stands for none is named.
pub open spec fn projects_at(
    projects: Seq<ProjectInfoView>,
    paths: Seq<Seq<char>>,
    ways: Seq<Option<Seq<char>>>,
) -> Result<Seq<ProjectInfoView>, InfoErrorView>
    decreases paths.len(),
{
    if paths.len() == 0 {
        Ok(Seq::empty())
    } else {
        match projects_at(projects, paths.drop_last(), ways.drop_last()) {
            Err(e) => Err(e),
            Ok(front) => match ways.last() {
                None => Err(InfoErrorView::NotInTree { path: paths.last() }),
                Some(way) => match project_at(projects, way) {
                    None => Err(InfoErrorView::NotFound { path: paths.last() }),
                    Some(project) => Ok(front.push(project)),
                },
            },
        }
    }
}

/// The first of the projects at a path.
fn find_project(projects: &Vec<ProjectInfo>, path: &str) -> (r: Option<ProjectInfo>)
    ensures
        r.deep_view() == project_at(projects.deep_view(), path@),
{
    let ghost all = projects.deep_view();
    let ghost holds = |p: ProjectInfoView| p.project_path == path@;
    let mut i: usize = 0;
    while i < projects.len()
        invariant
            i <= projects.len(),
            all == projects.deep_view(),
            holds == (|p: ProjectInfoView| p.project_path == path@),
            forall|j: int| 0 <= j < i ==> !holds(#[trigger] all[j]),
        decreases projects.len() - i,
    {
        assert(all[i as int] == projects@[i as int]@);
        proof {
            crate::lists::lemma_find_from(all, holds, i as int);
        }
        if same_text(projects[i].project_path.as_str(), path) {
            return Some(projects[i].clone());
        }
        i += 1;
    }
    proof {
        crate::lists::lemma_find_from(all, holds, i as int);
    }
    None
}

/// The ways from the root to the paths.
pub open spec fn ways_to(paths: Seq<Seq<char>>, root: Seq<char>) -> Seq<Option<Seq<char>>> {
    paths.map_values(|path: Seq<char>| path_difference(path, root))
}

/// Where one path fails, all fail with it.
proof fn lemma_projects_fail(
    projects: Seq<ProjectInfoView>,
    paths: Seq<Seq<char>>,
    ways: Seq<Option<Seq<char>>>,
    n: int,
)
    requires
        0 <= n <= paths.len(),
        paths.len() == ways.len(),
        projects_at(projects, paths.take(n), ways.take(n)) is Err,
    ensures
        projects_at(projects, paths, ways) == projects_at(projects, paths.take(n), ways.take(n)),
    decreases paths.len(),
{
    if n == paths.len() {
        assert(paths.take(n) =~= paths);
        assert(ways.take(n) =~= ways);
    } else {
        assert(paths.drop_last().take(n) =~= paths.take(n));
        assert(ways.drop_last().take(n) =~= ways.take(n));
        lemma_projects_fail(projects, paths.drop_last(), ways.drop_last(), n);
    }
}

/// The projects at the paths, where each path has come out of its way from the root.
pub fn select_info(
    projects: &Vec<ProjectInfo>,
    paths: &Vec<String>,
    ways: &Vec<Option<String>>,
) -> (r: Result<Vec<ProjectInfo>, InfoError>)
    requires
        paths@.len() == ways@.len(),
    ensures
        match projects_at(projects.deep_view(), paths.deep_view(), ways.deep_view()) {
            Ok(selected) => r is Ok && r->Ok_0.deep_view() == selected,
            Err(e) => r is Err && r->Err_0@ == e,
        },
{
    let ghost all = projects.deep_view();
    let ghost ps = paths.deep_view();
    let ghost ws = ways.deep_view();
    let mut selected: Vec<ProjectInfo> = Vec::new();
    let mut i: usize = 0;
    assert(selected.deep_view() =~= Seq::empty());
    while i < paths.len()
        invariant
            i <= paths.len(),
            paths@.len() == ways@.len(),
            all == projects.deep_view(),
            ps == paths.deep_view(),
            ws == ways.deep_view(),
            projects_at(all, ps.take(i as int), ws.take(i as int)) == Ok::<
                Seq<ProjectInfoView>,
                InfoErrorView,
            >(selected.deep_view()),
        decreases paths.len() - i,
    {
        assert(ps[i as int] == paths@[i as int]@);
        assert(ws[i as int] == ways@[i as int].deep_view());
        assert(ps.take(i + 1).drop_last() =~= ps.take(i as int));
        assert(ws.take(i + 1).drop_last() =~= ws.take(i as int));
        match &ways[i] {
            None => {
                proof {
                    lemma_projects_fail(all, ps, ws, i + 1);
                }
                return Err(InfoError::NotInTree { path: paths[i].clone() });
            },
            Some(way) => match find_project(projects, way.as_str()) {
                None => {
                    proof {
                        lemma_projects_fail(all, ps, ws, i + 1);
                    }
                    return Err(InfoError::NotFound { path: paths[i].clone() });
                },
                Some(project) => {
                    let ghost before = selected.deep_view();
                    let ghost added = project@;
                    selected.push(project);
                    assert(selected.deep_view() =~= before.push(added));
                },
            },
        }
        i += 1;
    }
    assert(ps.take(ps.len() as int) =~= ps);
    assert(ws.take(ws.len() as int) =~= ws);
    Ok(selected)
}

/// A project and what is known of its repository.
pub struct ProjectDetails {
    pub name: String,
    pub mount_path: String,
    pub head: String,
    pub branch: Option<String>,
    pub revision: String,
    pub local_branches: Vec<String>,
}

/// The number of local branches, and their names where there are any.
pub open spec fn branches_line(branches: Seq<Seq<char>>) -> Seq<char> {
    if branches.len() == 0 {
        "Local Branches: 0"@
    } else {
        "Local Branches: "@ + decimal(branches.len() as int) + " ["@ + (join_with(branches, ", "@)
            + "]"@)
    }
}

/// What is said of a project.
pub open spec fn project_info(details: ProjectDetails) -> Seq<Seq<char>> {
    seq![
        "Project: "@ + details.name@,
        "Mount path: "@ + details.mount_path@,
        "Current revision: "@ + details.head@,
    ] + (match details.branch {
        Some(branch) => seq!["Current branch: "@ + branch@],
        None => Seq::empty(),
    }) + seq![
        "Manifest revision: "@ + details.revision@,
        branches_line(details.local_branches.deep_view()),
        SEPARATOR@,
    ]
}

/// What is said of a project, line by line.
pub fn project_info_lines(details: &ProjectDetails) -> (r: Vec<String>)
    ensures
        r.deep_view() == project_info(*details),
{
    let mut r: Vec<String> = Vec::new();
    r.push(concat2("Project: ", details.name.as_str()));
    r.push(concat2("Mount path: ", details.mount_path.as_str()));
    r.push(concat2("Current revision: ", details.head.as_str()));
    match &details.branch {
        Some(branch) => {
            r.push(concat2("Current branch: ", branch.as_str()));
        },
        None => {},
    }
    r.push(concat2("Manifest revision: ", details.revision.as_str()));
    let n: usize = details.local_branches.len();
    if n == 0 {
        r.push("Local Branches: 0".to_owned());
    } else {
        let names: String = join(&details.local_branches, ", ");
        let number: String = decimal_of(n as u64);
        r.push(
            concat4(
                "Local Branches: ",
                number.as_str(),
                " [",
                concat2(names.as_str(), "]").as_str(),
            ),
        );
    }
    r.push(SEPARATOR.to_owned());
    assert(r.deep_view() =~= project_info(*details));
    r
}

impl Tree {
    /// The projects at canonical paths; all of them where there are no paths.
    pub fn info_projects(&self, projects: Vec<ProjectInfo>, paths: &Vec<String>) -> (r: Result<
        Vec<ProjectInfo>,
        InfoError,
    >)
        ensures
            if paths@.len() == 0 {
                r is Ok && r->Ok_0.deep_view() == projects.deep_view()
            } else {
                match projects_at(
                    projects.deep_view(),
                    paths.deep_view(),
                    ways_to(paths.deep_view(), self.path@),
                ) {
                    Ok(selected) => r is Ok && r->Ok_0.deep_view() == selected,
                    Err(e) => r is Err && r->Err_0@ == e,
                }
            },
    {
        if paths.len() == 0 {
            return Ok(projects);
        }
        let ghost all = paths.deep_view();
        let ghost expected = ways_to(all, self.path@);
        let mut ways: Vec<Option<String>> = Vec::new();
        let mut i: usize = 0;
        assert(ways.deep_view() =~= expected.take(0));
        while i < paths.len()
            invariant
                i <= paths.len(),
                all == paths.deep_view(),
                expected == ways_to(all, self.path@),
                ways@.len() == i,
                ways.deep_view() == expected.take(i as int),
            decreases paths.len() - i,
        {
            let ghost before = ways.deep_view();
            assert(all[i as int] == paths@[i as int]@);
            let way: Option<String> = diff_paths(paths[i].as_str(), self.path.as_str());
            let ghost added = way.deep_view();
            ways.push(way);
            assert(ways.deep_view() =~= before.push(added));
            assert(ways.deep_view() =~= expected.take(i + 1));
            i += 1;
        }
        assert(ways.deep_view() =~= expected);
        select_info(&projects, paths, &ways)
    }
}

/// No two commands have the same name.
pub proof fn law_command_names_distinct(a: CommandKind, b: CommandKind)
    ensures
        command_text(a) == command_text(b) ==> a == b,
{
    reveal_strlit("init");
    reveal_strlit("clone");
    reveal_strlit("fetch");
    reveal_strlit("sync");
    reveal_strlit("start");
    reveal_strlit("rebase");
    reveal_strlit("upload");
    reveal_strlit("prune");
    reveal_strlit("status");
    reveal_strlit("forall");
    reveal_strlit("preupload");
    reveal_strlit("import");
    reveal_strlit("list");
    reveal_strlit("find-deleted");
    reveal_strlit("manifest");
    reveal_strlit("config");
    reveal_strlit("info");
    let x = command_text(a);
    let y = command_text(b);
    assert(a == b || x.len() != y.len() || x[0] != y[0] || x[2] != y[2]);
}

/// The paths of exactly five commands stand for all the projects beneath them too.
pub proof fn law_commands_that_reach_beneath(command: CommandKind)
    ensures
        reach_spec(command) == Reach::Beneath <==> command == CommandKind::Fetch || command
            == CommandKind::Sync || command == CommandKind::Status || command == CommandKind::Forall
            || command == CommandKind::Preupload,
{
}

/// Every user in a list gets an address, in order: the user's own where it has a domain, else one
/// at `google.com`. Nobody is in a piece that is empty.
pub proof fn law_every_user_is_addressed(list: Seq<char>, user: Seq<char>)
    requires
        !user.contains(','),
    ensures
        user_addresses(split_on(list + seq![','] + user, ',')) == user_addresses(
            split_on(list, ','),
        ) + user_addresses(split_on(user, ',')),
        user.len() > 0 && user.contains('@') ==> user_addresses(split_on(user, ',')) == seq![user],
        user.len() > 0 && !user.contains('@') ==> user_addresses(split_on(user, ',')) == seq![
            user + "@google.com"@,
        ],
        user.len() == 0 ==> user_addresses(split_on(user, ',')).len() == 0,
{
    lemma_split_between(list, user, ',');
    law_split_without_separator(user, ',');
    let front = split_on(list, ',');
    assert((front + seq![user]).drop_last() =~= front);
    assert(seq![user].drop_last() =~= Seq::<Seq<char>>::empty());
    reveal_with_fuel(user_addresses, 2);
    assert(user_addresses(front + seq![user]) =~= user_addresses(front) + user_addresses(
        seq![user],
    ));
    if user.len() > 0 {
        assert(user_addresses(seq![user]) =~= seq![user_address(user)]);
    }
}

/// A project that names no remote is imported from the default one, and one that does from its own.
pub proof fn law_import_from_own_remote(project: ProjectView, default_remote: Seq<char>)
    ensures
        project.remote matches Some(own) ==> import_remote(project, default_remote) == own,
        project.remote is None ==> import_remote(project, default_remote) == default_remote,
{
}

/// Groups keep their places, and the projects in them theirs, as more projects come.
pub proof fn law_groups_keep_their_order(
    projects: Seq<(Seq<char>, ProjectView)>,
    entry: (Seq<char>, ProjectView),
    default_remote: Seq<char>,
    i: int,
)
    requires
        0 <= i < grouped(projects, default_remote).len(),
    ensures
        ({
            let before = grouped(projects, default_remote);
            let after = grouped(projects.push(entry), default_remote);
            &&& before.len() <= after.len() <= before.len() + 1
            &&& after[i].remote == before[i].remote
            &&& before[i].projects.is_prefix_of(after[i].projects)
            &&& before[i].remote != import_remote(entry.1, default_remote) ==> after[i] == before[i]
        }),
{
    let before = grouped(projects, default_remote);
    let remote = import_remote(entry.1, default_remote);
    let after = grouped(projects.push(entry), default_remote);
    assert(projects.push(entry).drop_last() =~= projects);
    lemma_remote_position(before, remote);
    assert(before[i].projects.is_prefix_of(after[i].projects)) by {
        assert(after[i].projects.subrange(0, before[i].projects.len() as int)
            =~= before[i].projects);
    }
}

/// The filters of a tree are shown such that they can be read again; a tree without any shows the
/// group `default`.
pub proof fn law_groups_shown_read_back(filters: Seq<GroupFilterView>)
    requires
        filters.len() > 0,
        forall|i: int|
            0 <= i < filters.len() ==> match #[trigger] filters[i] {
                GroupFilterView::Include(g) => !g.contains(',') && !begins_with(g, '-'),
                GroupFilterView::Exclude(g) => !g.contains(','),
            },
    ensures
        read_filters(manifest_groups(Some(filters))) == filters,
        manifest_groups(None) == "default"@,
{
    reveal_strlit(",");
    assert(","@ =~= seq![',']);
    law_filter_list_read_back(filters);
}

/// What is said of a tree: its branch, the branch that is merged into, and its groups, each on a
/// line.
pub proof fn law_tree_is_told(config: TreeConfig)
    ensures
        tree_info(config).len() == 4,
        tree_info(config)[0] == "Manifest branch: "@ + config.branch@,
        tree_info(config)[1] == "Manifest merge branch: refs/heads/"@ + config.branch@,
        tree_info(config)[2] == "Manifest groups: "@ + manifest_groups(config@.group_filters),
{
}

/// Of projects at the same path the first counts, wherever it stands.
pub proof fn law_project_at_path(projects: Seq<ProjectInfoView>, path: Seq<char>, i: int)
    requires
        0 <= i <= projects.len(),
        forall|j: int| 0 <= j < i ==> (#[trigger] projects[j]).project_path != path,
        i < projects.len() ==> projects[i].project_path == path,
    ensures
        i < projects.len() ==> project_at(projects, path) == Some(projects[i]),
        i == projects.len() ==> project_at(projects, path) is None,
{
    lemma_find_from(projects, |p: ProjectInfoView| p.project_path == path, i);
}

/// Every path stands for the project at its end, each on its own and in order. The first path that
/// stands for none is named: one outside of the tree, or one at which there is no project.
pub proof fn law_every_path_is_looked_up(
    projects: Seq<ProjectInfoView>,
    paths: Seq<Seq<char>>,
    ways: Seq<Option<Seq<char>>>,
    i: int,
)
    requires
        paths.len() == ways.len(),
        0 <= i < paths.len(),
        forall|j: int|
            0 <= j < i ==> (#[trigger] ways[j] matches Some(way) && project_at(projects, way)
                is Some),
    ensures
        ({
            let found = projects_at(projects, paths, ways);
            &&& ways[i] is None ==> found is Err && found->Err_0 == (InfoErrorView::NotInTree {
                path: paths[i],
            })
            &&& (ways[i] matches Some(way) && project_at(projects, way) is None) ==> found is Err
                && found->Err_0 == (InfoErrorView::NotFound { path: paths[i] })
            &&& (forall|j: int|
                0 <= j < paths.len() ==> (#[trigger] ways[j] matches Some(way) && project_at(
                    projects,
                    way,
                ) is Some)) ==> {
                &&& found is Ok
                &&& found->Ok_0.len() == paths.len()
                &&& Some(found->Ok_0[i]) == project_at(projects, ways[i]->0)
            }
        }),
    decreases paths.len(),
{
    let ps = paths.drop_last();
    let ws = ways.drop_last();
    if ps.len() == 0 {
        reveal_with_fuel(projects_at, 2);
    } else if i < ps.len() {
        assert(ws[i] == ways[i] && ps[i] == paths[i]);
        law_every_path_is_looked_up(projects, ps, ws, i);
    } else {
        assert forall|j: int| 0 <= j < ps.len() implies (#[trigger] ws[j] matches Some(way)
            && project_at(projects, way) is Some) by {
            assert(ws[j] == ways[j]);
        }
        law_every_path_is_looked_up(projects, ps, ws, 0);
    }
}

/// What is said of a project: its name, where it is, the commit it is at, the branch it is on where
/// it is on one, its revision in the manifest and its branches, in this order.
pub proof fn law_project_is_told(details: ProjectDetails)
    ensures
        ({
            let told = project_info(details);
            let at: int = if details.branch is Some {
                4
            } else {
                3
            };
            &&& told.len() == at + 3
            &&& told[0] == "Project: "@ + details.name@
            &&& told[1] == "Mount path: "@ + details.mount_path@
            &&& told[2] == "Current revision: "@ + details.head@
            &&& details.branch matches Some(branch) ==> told[3] == "Current branch: "@ + branch@
            &&& told[at] == "Manifest revision: "@ + details.revision@
            &&& told[at + 1] == branches_line(details.local_branches.deep_view())
        }),
{
}

/// The line of a project's branches counts them and names each of them, in order.
pub proof fn law_branches_are_counted(branches: Seq<Seq<char>>, branch: Seq<char>)
    ensures
        branches_line(Seq::empty()) == "Local Branches: 0"@,
        branches_line(seq![branch]) == "Local Branches: "@ + decimal(1) + " ["@ + (branch + "]"@),
        branches.len() > 0 ==> branches_line(branches.push(branch)) == "Local Branches: "@ + decimal(
            branches.len() + 1int,
        ) + " ["@ + (join_with(branches, ", "@) + ", "@ + branch + "]"@),
{
    assert(branches.push(branch).drop_last() =~= branches);
}

/// A new tree is made from what the target names: its branch and its file count where it names
/// them, each whether or not it names the other, and those of the manifest's configuration else. It
/// is made in the directory that is given, and in one named as the branch only where none is.
pub proof fn law_clone_follows_target(
    config: &Config,
    target: &str,
    directory: Option<String>,
    r: Result<CloneChoice, CloneError>,
    remote: Seq<char>,
    branch: Option<Seq<char>>,
    file: Option<Seq<char>>,
)
    requires
        call_ensures(choose_clone, (config, target, directory), r),
        target@ == target_text(remote, branch, file),
        !remote.contains('/'),
        branch matches Some(name) ==> !name.contains('/') && !name.contains(':'),
        file matches Some(name) ==> branch is Some && !name.contains('/') && !name.contains(':'),
    ensures
        manifest_config(*config, remote) is None ==> r is Err,
        manifest_config(*config, remote) matches Some(manifest) ==> {
            &&& r is Ok
            &&& r->Ok_0.manifest@ == manifest
            &&& branch matches Some(name) ==> r->Ok_0.branch@ == name
            &&& branch is None ==> r->Ok_0.branch@ == manifest.default_branch
            &&& file matches Some(name) ==> r->Ok_0.file@ == name
            &&& file is None ==> r->Ok_0.file@ == manifest.default_manifest_file
            &&& directory matches Some(place) ==> r->Ok_0.tree_root@ == place@
            &&& directory is None ==> r->Ok_0.tree_root@ == r->Ok_0.branch@
        },
{
    law_target_read_back(remote, branch, file);
}

/// A run inside another is known by both identities, the outer first; a run on its own by its own.
pub proof fn law_trace_identity(
    parent: &str,
    timestamp: &str,
    process: u32,
    outer: String,
    inner: String,
)
    requires
        call_ensures(trace_id, (None::<&str>, timestamp, process), outer),
        call_ensures(trace_id, (Some(parent), timestamp, process), inner),
    ensures
        inner@ == parent@ + "/"@ + outer@,
        outer@ == "pore-"@ + timestamp@ + "-P"@ + zero_padded(numeral(process as nat, 16), 8),
        numeral(process as nat, 16).len() <= 8 ==> outer@.len() == "pore-"@.len() + timestamp@.len()
            + "-P"@.len() + 8,
{
    reveal_strlit("");
    assert(""@ =~= Seq::empty());
    let own = "pore-"@ + timestamp@ + "-P"@ + zero_padded(numeral(process as nat, 16), 8);
    assert(""@ + own =~= own);
}

/// A configuration file that is given counts, whatever else there is; else the one in the home
/// directory, where it exists; else that of the machine.
pub proof fn law_configuration_file(given: Option<String>, home: &str, exists: bool, path: String)
    requires
        call_ensures(choose_config_path, (given, home, exists), path),
    ensures
        given matches Some(own) ==> path@ == own@,
        given is None && exists ==> path@ == joined(home@, ".pore.toml"@),
        given is None && !exists ==> path@ == "/etc/pore.toml"@,
{
}

/// Objects can be copied to anywhere, and linked only within a file system; and all of them are but
/// what names other places.
pub proof fn law_import_of_objects(
    copy: bool,
    depot: u64,
    target: u64,
    possible: bool,
    name: &str,
    taken: bool,
)
    requires
        call_ensures(can_import, (copy, depot, target), possible),
        call_ensures(imports_directory, (name,), taken),
    ensures
        copy ==> possible,
        !copy ==> (possible <==> depot == target),
        taken <==> name@ != "info"@,
{
}

/// After a clone the manifest is not fetched again, and the projects are exactly where fetching was
/// asked for.
pub proof fn law_fetch_after_clone(fetch: bool, kind: FetchType)
    requires
        call_ensures(clone_fetch_type, (fetch,), kind),
    ensures
        kind != FetchType::Fetch,
        kind == FetchType::NoFetch <==> !fetch,
{
}

/// A command without paths tells of all projects, and one with paths of the project at each of
/// them.
pub proof fn law_info_without_paths(
    tree: &Tree,
    projects: Vec<ProjectInfo>,
    paths: &Vec<String>,
    r: Result<Vec<ProjectInfo>, InfoError>,
)
    requires
        call_ensures(Tree::info_projects, (tree, projects, paths), r),
    ensures
        paths@.len() == 0 ==> r is Ok && r->Ok_0.deep_view() == projects.deep_view(),
        paths@.len() > 0 && r is Ok ==> r->Ok_0@.len() == paths@.len(),
{
    if paths@.len() > 0 && r is Ok {
        let all = projects.deep_view();
        let places = paths.deep_view();
        let ways = ways_to(places, tree.path@);
        lemma_as_many_projects(all, places, ways);
        assert(r->Ok_0.deep_view().len() == r->Ok_0@.len());
        assert(places.len() == paths@.len());
    }
}

/// There is a project for each path, where there is none without.
proof fn lemma_as_many_projects(
    projects: Seq<ProjectInfoView>,
    paths: Seq<Seq<char>>,
    ways: Seq<Option<Seq<char>>>,
)
    requires
        paths.len() == ways.len(),
    ensures
        projects_at(projects, paths, ways) is Ok ==> projects_at(projects, paths, ways)->Ok_0.len()
            == paths.len(),
    decreases paths.len(),
{
    if paths.len() > 0 {
        lemma_as_many_projects(projects, paths.drop_last(), ways.drop_last());
    }
}

/// Every well-formed target is read as what it was written from, and what is read of any target
/// makes it up again.
pub proof fn law_parsed_target(
    target: &str,
    r: Result<(String, Option<String>, Option<String>), InvalidTarget>,
    remote: Seq<char>,
    branch: Option<Seq<char>>,
    file: Option<Seq<char>>,
)
    requires
        call_ensures(parse_target, (target,), r),
        !remote.contains('/'),
        branch matches Some(name) ==> !name.contains('/') && !name.contains(':'),
        file matches Some(name) ==> branch is Some && !name.contains('/') && !name.contains(':'),
    ensures
        target@ == target_text(remote, branch, file) ==> {
            &&& r is Ok
            &&& r->Ok_0.0@ == remote
            &&& r->Ok_0.1.deep_view() == branch
            &&& r->Ok_0.2.deep_view() == file
        },
        r is Ok ==> target@ == target_text(
            r->Ok_0.0@,
            r->Ok_0.1.deep_view(),
            r->Ok_0.2.deep_view(),
        ),
        r is Err ==> r->Err_0.target@ == target@,
{
    law_target_read_back(remote, branch, file);
    law_target_written_back(target@);
}

/// A list of users without one has no addresses.
pub proof fn law_no_users(r: Vec<String>)
    requires
        call_ensures(user_string_to_vec, (None::<&str>,), r),
    ensures
        r@.len() == 0,
{
    assert(r.deep_view().len() == r@.len());
}

/// Each path has its own way from the root, in order.
pub proof fn law_ways_to_paths(paths: Seq<Seq<char>>, root: Seq<char>, i: int)
    requires
        0 <= i < paths.len(),
    ensures
        ways_to(paths, root).len() == paths.len(),
        ways_to(paths, root)[i] == path_difference(paths[i], root),
{
}

} // verus!
