//! The configuration: depots, remotes, manifests, and how much to do at once.
use vstd::prelude::*;

use crate::depot::Depot;
use crate::lists::{find_first, law_find_first, lemma_find_from};
use crate::rename::ProjectRename;
use crate::text::{begins_with, chars_of, same_text};

verus! {

/// The configuration that is used where there is no configuration file.
pub const DEFAULT_CONFIG: &'static str = "update_check = true\nautosubmit = false\npresubmit = false\n\n[[remotes]]\nname = 'aosp'\nurl = 'https://android.googlesource.com/'\ndepot = 'android'\n\n[[manifests]]\nname = 'aosp'\nremote = 'aosp'\nproject = 'platform/manifest'\n\n[depots.android]\npath = '~/.pore/android'\n";

/// Where a depot is.
pub struct DepotConfig {
    /// The path, in which variables and a leading `~` are expanded.
    pub path: String,
}

/// A place that repositories are fetched from.
pub struct RemoteConfig {
    pub name: String,
    pub url: String,
    pub other_urls: Option<Vec<String>>,
    /// The manifest project of the remote, where it has one of its own.
    pub manifest: Option<String>,
    pub depot: String,
    pub project_renames: Vec<ProjectRename>,
    pub default_upload_options: Vec<String>,
}

/// A manifest that a tree can be made from.
pub struct ManifestConfig {
    pub name: String,
    pub remote: String,
    pub project: String,
    pub default_branch: String,
    pub default_manifest_file: String,
}

/// A manifest that a tree can be made from, as a value.
pub struct ManifestConfigView {
    pub name: Seq<char>,
    pub remote: Seq<char>,
    pub project: Seq<char>,
    pub default_branch: Seq<char>,
    pub default_manifest_file: Seq<char>,
}

impl View for ManifestConfig {
    type V = ManifestConfigView;

    open spec fn view(&self) -> ManifestConfigView {
        ManifestConfigView {
            name: self.name@,
            remote: self.remote@,
            project: self.project@,
            default_branch: self.default_branch@,
            default_manifest_file: self.default_manifest_file@,
        }
    }
}

/// A name and the depot that it stands for.
pub struct NamedDepot {
    pub name: String,
    pub depot: DepotConfig,
}

/// A command, or `global`, and how many jobs it runs at once.
pub struct Parallelism {
    pub command: String,
    pub jobs: i32,
}

/// The configuration.
pub struct Config {
    pub update_check: bool,
    pub autosubmit: bool,
    pub presubmit: bool,
    /// The depots, each name at most once.
    pub depots: Vec<NamedDepot>,
    pub remotes: Vec<RemoteConfig>,
    pub manifests: Vec<ManifestConfig>,
    /// The parallelism of commands, each command at most once.
    pub parallelism: Vec<Parallelism>,
}

/// Why something was not found in the configuration.
pub enum ConfigError {
    UnknownDepot(String),
    UnknownRemote(String),
    UnknownManifest(String),
    /// The path of the depot could not be expanded, for the reason given.
    ExpansionFailed { depot: String, reason: String },
}

/// Why something was not found in the configuration, as a value.
pub enum ConfigErrorView {
    UnknownDepot(Seq<char>),
    UnknownRemote(Seq<char>),
    UnknownManifest(Seq<char>),
    ExpansionFailed { depot: Seq<char>, reason: Seq<char> },
}

impl View for ConfigError {
    type V = ConfigErrorView;

    open spec fn view(&self) -> ConfigErrorView {
        match self {
            ConfigError::UnknownDepot(name) => ConfigErrorView::UnknownDepot(name@),
            ConfigError::UnknownRemote(name) => ConfigErrorView::UnknownRemote(name@),
            ConfigError::UnknownManifest(name) => ConfigErrorView::UnknownManifest(name@),
            ConfigError::ExpansionFailed { depot, reason } => ConfigErrorView::ExpansionFailed {
                depot: depot@,
                reason: reason@,
            },
        }
    }
}

/// Whether to look for updates where the configuration does not say.
pub fn default_update_check() -> (r: bool)
    ensures
        r,
{
    true
}

/// Whether to submit automatically where the configuration does not say.
pub fn default_autosubmit() -> (r: bool)
    ensures
        !r,
{
    false
}

/// Whether to queue for presubmit where the configuration does not say.
pub fn default_presubmit() -> (r: bool)
    ensures
        !r,
{
    false
}

/// The upload options of a remote that has none configured.
pub fn default_upload_options() -> (r: Vec<String>)
    ensures
        r@.len() == 0,
{
    Vec::new()
}

/// The project renames of a remote that has none configured.
pub fn default_project_renames() -> (r: Vec<ProjectRename>)
    ensures
        r@.len() == 0,
{
    Vec::new()
}

/// The branch of a manifest that has none configured.
pub fn default_branch() -> (r: String)
    ensures
        r@ == "master"@,
{
    "master".to_owned()
}

/// The file of a manifest that has none configured.
pub fn default_manifest_file() -> (r: String)
    ensures
        r@ == "default.xml"@,
{
    "default.xml".to_owned()
}

/// The parallelism where the configuration does not say: at most sixteen jobs for `status`.
pub fn default_parallelism() -> (r: Vec<Parallelism>)
    ensures
        r@.len() == 1,
        r@[0].command@ == "status"@,
        r@[0].jobs == -16,
{
    let mut r: Vec<Parallelism> = Vec::new();
    r.push(Parallelism { command: "status".to_owned(), jobs: -16 });
    r
}

/// The depot has the name.
pub open spec fn is_depot(depot: NamedDepot, name: Seq<char>) -> bool {
    depot.name@ == name
}

/// The remote has the name.
pub open spec fn is_remote(remote: RemoteConfig, name: Seq<char>) -> bool {
    remote.name@ == name
}

/// The remote has the name, and brings a manifest along.
pub open spec fn brings_manifest(remote: RemoteConfig, name: Seq<char>) -> bool {
    remote.name@ == name && remote.manifest is Some
}

/// The manifest has the name.
pub open spec fn is_manifest(manifest: ManifestConfig, name: Seq<char>) -> bool {
    manifest.name@ == name
}

/// The parallelism is that of the command.
pub open spec fn is_parallelism(parallelism: Parallelism, command: Seq<char>) -> bool {
    parallelism.command@ == command
}

/// The depot configured under a name.
pub open spec fn depot_config(config: Config, name: Seq<char>) -> Option<NamedDepot> {
    find_first(config.depots@, |d: NamedDepot| is_depot(d, name))
}

/// The remote configured under a name.
pub open spec fn remote_config(config: Config, name: Seq<char>) -> Option<RemoteConfig> {
    find_first(config.remotes@, |r: RemoteConfig| is_remote(r, name))
}

/// The manifest configured under a name: one of its own, or else that of the remote of that name.
pub open spec fn manifest_config(config: Config, name: Seq<char>) -> Option<ManifestConfigView> {
    match find_first(config.manifests@, |m: ManifestConfig| is_manifest(m, name)) {
        Some(m) => Some(m@),
        None => match find_first(
            config.remotes@,
            |r: RemoteConfig| brings_manifest(r, name),
        ) {
            Some(r) => Some(
                ManifestConfigView {
                    name: r.name@,
                    remote: r.name@,
                    project: r.manifest->0@,
                    default_branch: "master"@,
                    default_manifest_file: "default.xml"@,
                },
            ),
            None => None,
        },
    }
}

/// The number of jobs configured for a command.
pub open spec fn configured_jobs(config: Config, command: Seq<char>) -> Option<int> {
    match find_first(config.parallelism@, |p: Parallelism| is_parallelism(p, command)) {
        Some(p) => Some(p.jobs as int),
        None => None,
    }
}

/// The number of jobs that was asked for: on the command line, else for the command, else for all
/// commands.
pub open spec fn requested_jobs(config: Config, command: Seq<char>, jobs: Option<i32>) -> int {
    match jobs {
        Some(n) => n as int,
        None => match configured_jobs(config, command) {
            Some(n) => n,
            None => match configured_jobs(config, "global"@) {
                Some(n) => n,
                None => 0,
            },
        },
    }
}

/// How many jobs to run at once: as many as there are processors where none were asked for, and
/// at most that many where the number is negative.
pub open spec fn job_count(requested: int, processors: int) -> int {
    if requested == 0 {
        processors
    } else if requested < 0 {
        if processors < -requested {
            processors
        } else {
            -requested
        }
    } else {
        requested
    }
}

/// There is always a job to run where there is a processor, and unless a number of jobs was asked
/// for there are no more of them than processors.
pub proof fn law_job_count(requested: int, processors: int)
    requires
        processors > 0,
    ensures
        job_count(requested, processors) > 0,
        requested <= 0 ==> job_count(requested, processors) <= processors,
{
}

/// A path that expansion leaves as it is: it holds no variable, and does not begin in a home
/// directory.
pub open spec fn is_plain_path(path: Seq<char>) -> bool {
    !path.contains('$') && !(begins_with(path, '~') && (path.len() == 1 || path[1] == '/' || path[1]
        == '\\'))
}

/// The character is a letter or a digit of some script.
pub uninterp spec fn is_letter_or_digit(c: char) -> bool;

/// Whether the character is a letter or a digit of some script.
///
/// Calls `char::is_alphanumeric`, whose result is a function of the character alone and is named
/// `is_letter_or_digit` here.
#[verifier::external_body]
fn is_alphanumeric(c: char) -> (r: bool)
    ensures
        r == is_letter_or_digit(c),
{
    c.is_alphanumeric()
}

/// The character is a letter or a digit beyond ASCII.
pub open spec fn is_foreign(c: char) -> bool {
    (c as u32) >= 128 && is_letter_or_digit(c)
}

/// Nothing in the rest of a path stops its expansion, where the rest may begin inside braces. A `$`
/// begins a variable unless it stands right behind another `$` that it escapes; a variable ends
/// with the brace that closes it, where it begins with one that is closed.
pub open spec fn expands_from(path: Seq<char>, braced: bool) -> bool
    decreases path.len(),
{
    if path.len() == 0 {
        true
    } else if braced {
        expands_from(path.skip(1), path[0] != '}')
    } else if path[0] != '$' || path.len() == 1 {
        expands_from(path.skip(1), false)
    } else if path[1] == '{' {
        expands_from(path.skip(2), path.contains('}'))
    } else {
        !is_foreign(path[1]) && expands_from(path.skip(2), false)
    }
}

/// No name of a variable begins with a letter or a digit beyond ASCII, unless it stands in braces.
pub open spec fn is_expandable(path: Seq<char>) -> bool {
    expands_from(path, false)
}

/// A path without variables can always be expanded.
pub proof fn law_expandable_without_variables(path: Seq<char>)
    requires
        !path.contains('$'),
    ensures
        is_expandable(path),
    decreases path.len(),
{
    if path.len() > 0 {
        let rest = path.skip(1);
        assert(path.contains(path[0]));
        assert forall|i: int| 0 <= i < rest.len() implies rest[i] != '$' by {
            assert(path.contains(path[i + 1]));
        }
        law_expandable_without_variables(rest);
    }
}

/// What follows a position of a path stands behind all its variables: it holds no `$`, and comes
/// right after a brace that closes or begins with a `/` that no brace can follow.
pub open spec fn follows_variables(path: Seq<char>, i: int) -> bool {
    &&& 0 <= i < path.len()
    &&& !path.skip(i).contains('$')
    &&& (i > 0 && path[i - 1] == '}') || (path[i] == '/' && !path.skip(i).contains('}'))
}

/// What stands in front of the variables of a path and behind them has stayed, unless the path
/// begins in a home directory.
pub open spec fn keeps_text(path: Seq<char>, expanded: Seq<char>) -> bool {
    &&& !begins_with(path, '~') ==> forall|i: int|
        0 <= i <= path.len() && !(#[trigger] path.take(i)).contains('$') ==> path.take(
            i,
        ).is_prefix_of(expanded)
    &&& forall|i: int|
        #![trigger path.skip(i)]
        follows_variables(path, i) ==> path.skip(i).is_suffix_of(expanded)
}

/// The path with variables and a leading `~` expanded, or why it could not be expanded.
///
/// Calls `shellexpand::full`, which panics where the name of a variable begins with a letter or a
/// digit beyond ASCII, unless it stands in braces.
/// What it gives depends on the environment. Whatever that is, a path without variables that does
/// not begin in a home directory comes back as it is, and of a path without variables that begins
/// with `~` what follows the `~` stays. Of a path with variables, what stands behind the last of
/// them stays at the end, and what stands in front of the first stays in front, unless that begins
/// with `~`.
#[verifier::external_body]
fn expand_path(path: &str) -> (r: Result<String, String>)
    requires
        is_expandable(path@),
    ensures
        is_plain_path(path@) ==> r is Ok && r->Ok_0@ == path@,
        !path@.contains('$') && begins_with(path@, '~') ==> r is Ok && path@.skip(1).is_suffix_of(
            r->Ok_0@,
        ),
        path@.contains('$') && r is Ok ==> keeps_text(path@, r->Ok_0@),
{
    shellexpand::full(path).map(|p| p.into_owned()).map_err(|e| e.to_string())
}

/// Whether a brace closes something from the given position on.
fn closes_brace(chars: &Vec<char>, from: usize) -> (r: bool)
    requires
        from <= chars.len(),
    ensures
        r == chars@.skip(from as int).contains('}'),
{
    let ghost rest = chars@.skip(from as int);
    let mut i: usize = from;
    while i < chars.len()
        invariant
            from <= i <= chars.len(),
            rest == chars@.skip(from as int),
            forall|j: int| 0 <= j < i - from ==> rest[j] != '}',
        decreases chars.len() - i,
    {
        assert(rest[i - from] == chars@[i as int]);
        if chars[i] == '}' {
            return true;
        }
        i += 1;
    }
    false
}

/// Whether a path can be expanded, in that no name of a variable begins with a letter or a digit
/// beyond ASCII.
pub fn can_expand(path: &str) -> (r: bool)
    ensures
        r == is_expandable(path@),
{
    let chars: Vec<char> = chars_of(path);
    let mut i: usize = 0;
    let mut braced: bool = false;
    assert(path@.skip(0) =~= path@);
    while i < chars.len()
        invariant
            i <= chars.len(),
            chars@ == path@,
            is_expandable(path@) == expands_from(path@.skip(i as int), braced),
        decreases chars.len() - i,
    {
        let ghost rest = path@.skip(i as int);
        assert(rest[0] == chars@[i as int]);
        assert(rest.skip(1) =~= path@.skip(i + 1));
        if braced {
            braced = chars[i] != '}';
            i += 1;
        } else if chars[i] != '$' || chars.len() - i == 1 {
            i += 1;
        } else {
            assert(rest[1] == chars@[i + 1]);
            assert(rest.skip(2) =~= path@.skip(i + 2));
            let next: char = chars[i + 1];
            if next == '{' {
                braced = closes_brace(&chars, i);
            } else if (next as u32) >= 128 && is_alphanumeric(next) {
                return false;
            }
            i += 2;
        }
    }
    true
}

/// What comes of looking for a depot, whatever the environment: it is unknown, or has its name and
/// the path that its configured path expands to, or that path could not be expanded. A path without
/// variables always can be: it stays as it is, but for what a leading `~` stands for. Of a path
/// with variables the text around them stays.
pub open spec fn is_depot_found(
    config: Option<NamedDepot>,
    depot: Seq<char>,
    r: Result<Depot, ConfigError>,
) -> bool {
    match config {
        None => r is Err && r->Err_0@ == ConfigErrorView::UnknownDepot(depot),
        Some(found) => {
            let path = found.depot.path@;
            &&& r is Ok ==> r->Ok_0.name@ == depot
            &&& r is Err ==> r->Err_0@ is ExpansionFailed && r->Err_0@->ExpansionFailed_depot
                == depot
            &&& is_plain_path(path) ==> r is Ok && r->Ok_0.path@ == path
            &&& !path.contains('$') && begins_with(path, '~') ==> r is Ok && path.skip(
                1,
            ).is_suffix_of(r->Ok_0.path@)
            &&& path.contains('$') && r is Ok ==> keeps_text(path, r->Ok_0.path@)
        },
    }
}

impl Config {
    /// The text of the configuration that is used where there is no configuration file.
    pub fn default_string() -> (r: &'static str)
        ensures
            r@ == DEFAULT_CONFIG@,
    {
        DEFAULT_CONFIG
    }

    /// The configuration of the depot of the given name.
    fn depot_named(&self, depot: &str) -> (r: Option<&NamedDepot>)
        ensures
            match r {
                Some(found) => depot_config(*self, depot@) == Some(*found),
                None => depot_config(*self, depot@) is None,
            },
    {
        let mut i: usize = 0;
        let ghost holds = |d: NamedDepot| is_depot(d, depot@);
        while i < self.depots.len()
            invariant
                i <= self.depots.len(),
                holds == (|d: NamedDepot| is_depot(d, depot@)),
                forall|j: int| 0 <= j < i ==> !holds(#[trigger] self.depots@[j]),
            decreases self.depots.len() - i,
        {
            proof {
                crate::lists::lemma_find_from(self.depots@, holds, i as int);
            }
            if same_text(self.depots[i].name.as_str(), depot) {
                return Some(&self.depots[i]);
            }
            assert(!holds(self.depots@[i as int]));
            i += 1;
        }
        proof {
            crate::lists::lemma_find_from(self.depots@, holds, i as int);
        }
        None
    }

    /// The depot of the given name, at the path that its configured path expands to.
    pub fn find_depot(&self, depot: &str) -> (r: Result<Depot, ConfigError>)
        requires
            depot_config(*self, depot@) matches Some(found) ==> is_expandable(found.depot.path@),
        ensures
            is_depot_found(depot_config(*self, depot@), depot@, r),
    {
        match self.depot_named(depot) {
            Some(found) => Config::depot_at(depot, expand_path(found.depot.path.as_str())),
            None => Err(ConfigError::UnknownDepot(depot.to_owned())),
        }
    }

    /// The depot of the given name, at the path that its configured path expands to; nothing where
    /// that path cannot be expanded at all.
    pub fn find_expandable_depot(&self, depot: &str) -> (r: Option<Result<Depot, ConfigError>>)
        ensures
            match r {
                None => depot_config(*self, depot@) matches Some(found) && !is_expandable(
                    found.depot.path@,
                ),
                Some(result) => {
                    &&& depot_config(*self, depot@) matches Some(found) ==> is_expandable(
                        found.depot.path@,
                    )
                    &&& is_depot_found(depot_config(*self, depot@), depot@, result)
                },
            },
    {
        match self.depot_named(depot) {
            Some(found) => {
                if !can_expand(found.depot.path.as_str()) {
                    return None;
                }
            },
            None => {},
        }
        Some(self.find_depot(depot))
    }

    /// The depot of the given name at the path that came out of the expansion, or why none did.
    pub fn depot_at(depot: &str, expanded: Result<String, String>) -> (r: Result<
        Depot,
        ConfigError,
    >)
        ensures
            match expanded {
                Ok(path) => r is Ok && r->Ok_0.name@ == depot@ && r->Ok_0.path@ == path@,
                Err(reason) => r is Err && r->Err_0@ == (ConfigErrorView::ExpansionFailed {
                    depot: depot@,
                    reason: reason@,
                }),
            },
    {
        match expanded {
            Ok(path) => Ok(Depot::new(depot.to_owned(), path)),
            Err(reason) => Err(ConfigError::ExpansionFailed { depot: depot.to_owned(), reason }),
        }
    }

    /// The remote of the given name: the first that has it.
    pub fn find_remote(&self, remote_name: &str) -> (r: Result<&RemoteConfig, ConfigError>)
        ensures
            match remote_config(*self, remote_name@) {
                Some(found) => r is Ok && *r->Ok_0 == found,
                None => r is Err && r->Err_0@ == ConfigErrorView::UnknownRemote(remote_name@),
            },
    {
        let mut i: usize = 0;
        let ghost holds = |d: RemoteConfig| is_remote(d, remote_name@);
        while i < self.remotes.len()
            invariant
                i <= self.remotes.len(),
                holds == (|d: RemoteConfig| is_remote(d, remote_name@)),
                forall|j: int| 0 <= j < i ==> !holds(#[trigger] self.remotes@[j]),
            decreases self.remotes.len() - i,
        {
            proof {
                crate::lists::lemma_find_from(self.remotes@, holds, i as int);
            }
            if same_text(self.remotes[i].name.as_str(), remote_name) {
                return Ok(&self.remotes[i]);
            }
            assert(!holds(self.remotes@[i as int]));
            i += 1;
        }
        proof {
            crate::lists::lemma_find_from(self.remotes@, holds, i as int);
        }
        Err(ConfigError::UnknownRemote(remote_name.to_owned()))
    }

    /// The manifest of the given name: the first that has it, or else the one that a remote of
    /// that name brings along.
    pub fn find_manifest(&self, manifest_name: &str) -> (r: Result<ManifestConfig, ConfigError>)
        ensures
            match manifest_config(*self, manifest_name@) {
                Some(found) => r is Ok && r->Ok_0@ == found,
                None => r is Err && r->Err_0@ == ConfigErrorView::UnknownManifest(
                    manifest_name@,
                ),
            },
    {
        let mut i: usize = 0;
        let ghost holds = |d: ManifestConfig| is_manifest(d, manifest_name@);
        while i < self.manifests.len()
            invariant
                i <= self.manifests.len(),
                holds == (|d: ManifestConfig| is_manifest(d, manifest_name@)),
                forall|j: int| 0 <= j < i ==> !holds(#[trigger] self.manifests@[j]),
            decreases self.manifests.len() - i,
        {
            proof {
                crate::lists::lemma_find_from(self.manifests@, holds, i as int);
            }
            let m: &ManifestConfig = &self.manifests[i];
            if same_text(m.name.as_str(), manifest_name) {
                return Ok(
                    ManifestConfig {
                        name: m.name.clone(),
                        remote: m.remote.clone(),
                        project: m.project.clone(),
                        default_branch: m.default_branch.clone(),
                        default_manifest_file: m.default_manifest_file.clone(),
                    },
                );
            }
            assert(!holds(self.manifests@[i as int]));
            i += 1;
        }
        proof {
            crate::lists::lemma_find_from(self.manifests@, holds, i as int);
        }
        self.find_manifest_of_remote(manifest_name)
    }

    /// The manifest that a remote of the given name brings along.
    fn find_manifest_of_remote(&self, name: &str) -> (r: Result<ManifestConfig, ConfigError>)
        requires
            find_first(self.manifests@, |m: ManifestConfig| is_manifest(m, name@)) is None,
        ensures
            match manifest_config(*self, name@) {
                Some(found) => r is Ok && r->Ok_0@ == found,
                None => r is Err && r->Err_0@ == ConfigErrorView::UnknownManifest(name@),
            },
    {
        let mut i: usize = 0;
        let ghost holds = |d: RemoteConfig| brings_manifest(d, name@);
        while i < self.remotes.len()
            invariant
                i <= self.remotes.len(),
                holds == (|d: RemoteConfig| brings_manifest(d, name@)),
                forall|j: int| 0 <= j < i ==> !holds(#[trigger] self.remotes@[j]),
                find_first(self.manifests@, |m: ManifestConfig| is_manifest(m, name@)) is None,
            decreases self.remotes.len() - i,
        {
            proof {
                crate::lists::lemma_find_from(self.remotes@, holds, i as int);
            }
            let remote: &RemoteConfig = &self.remotes[i];
            if same_text(remote.name.as_str(), name) {
                match &remote.manifest {
                    Some(project) => {
                        return Ok(
                            ManifestConfig {
                                name: remote.name.clone(),
                                remote: remote.name.clone(),
                                project: project.clone(),
                                default_branch: default_branch(),
                                default_manifest_file: default_manifest_file(),
                            },
                        );
                    },
                    None => {},
                }
            }
            assert(!holds(self.remotes@[i as int]));
            i += 1;
        }
        proof {
            crate::lists::lemma_find_from(self.remotes@, holds, i as int);
        }
        Err(ConfigError::UnknownManifest(name.to_owned()))
    }

    /// The number of jobs configured for a command.
    fn jobs_for(&self, command: &str) -> (r: Option<i32>)
        ensures
            match r {
                Some(n) => configured_jobs(*self, command@) == Some(n as int),
                None => configured_jobs(*self, command@) is None,
            },
    {
        let mut i: usize = 0;
        let ghost holds = |p: Parallelism| is_parallelism(p, command@);
        while i < self.parallelism.len()
            invariant
                i <= self.parallelism.len(),
                holds == (|p: Parallelism| is_parallelism(p, command@)),
                forall|j: int| 0 <= j < i ==> !holds(#[trigger] self.parallelism@[j]),
            decreases self.parallelism.len() - i,
        {
            proof {
                crate::lists::lemma_find_from(self.parallelism@, holds, i as int);
            }
            if same_text(self.parallelism[i].command.as_str(), command) {
                return Some(self.parallelism[i].jobs);
            }
            assert(!holds(self.parallelism@[i as int]));
            i += 1;
        }
        proof {
            crate::lists::lemma_find_from(self.parallelism@, holds, i as int);
        }
        None
    }

    /// How many jobs a command runs at once.
    pub fn pool_size(&self, command: &str, jobs: Option<i32>, processors: usize) -> (r: usize)
        ensures
            r == job_count(requested_jobs(*self, command@, jobs), processors as int),
    {
        let requested: i32 = match jobs {
            Some(n) => n,
            None => match self.jobs_for(command) {
                Some(n) => n,
                None => match self.jobs_for("global") {
                    Some(n) => n,
                    None => 0,
                },
            },
        };
        if requested == 0 {
            processors
        } else if requested < 0 {
            let limit: u64 = (-(requested as i64)) as u64;
            if (processors as u64) < limit {
                processors
            } else {
                limit as usize
            }
        } else {
            requested as usize
        }
    }

    /// Whether an upload is submitted automatically: as asked for, else as configured.
    pub fn autosubmit_upload(&self, autosubmit: bool, no_autosubmit: bool) -> (r: bool)
        ensures
            r == (autosubmit || (!no_autosubmit && self.autosubmit)),
    {
        if autosubmit {
            true
        } else if no_autosubmit {
            false
        } else {
            self.autosubmit
        }
    }

    /// Whether an upload is queued for presubmit: as asked for, else as configured.
    pub fn presubmit_upload(&self, presubmit: bool, no_presubmit: bool) -> (r: bool)
        ensures
            r == (presubmit || (!no_presubmit && self.presubmit)),
    {
        if presubmit {
            true
        } else if no_presubmit {
            false
        } else {
            self.presubmit
        }
    }
}

/// A depot, a remote and the jobs of a command are found by name, each wherever it stands: the
/// first of the name counts.
pub proof fn law_found_by_name(config: Config, i: int)
    ensures
        0 <= i < config.depots@.len() && (forall|j: int|
            0 <= j < i ==> (#[trigger] config.depots@[j]).name@ != config.depots@[i].name@)
            ==> depot_config(config, config.depots@[i].name@) == Some(config.depots@[i]),
        0 <= i < config.remotes@.len() && (forall|j: int|
            0 <= j < i ==> (#[trigger] config.remotes@[j]).name@ != config.remotes@[i].name@)
            ==> remote_config(config, config.remotes@[i].name@) == Some(config.remotes@[i]),
        0 <= i < config.parallelism@.len() && (forall|j: int|
            0 <= j < i ==> (#[trigger] config.parallelism@[j]).command@
                != config.parallelism@[i].command@) ==> configured_jobs(
            config,
            config.parallelism@[i].command@,
        ) == Some(config.parallelism@[i].jobs as int),
{
    if 0 <= i < config.depots@.len() && (forall|j: int|
        0 <= j < i ==> (#[trigger] config.depots@[j]).name@ != config.depots@[i].name@) {
        let name = config.depots@[i].name@;
        lemma_find_from(config.depots@, |d: NamedDepot| is_depot(d, name), i);
    }
    if 0 <= i < config.remotes@.len() && (forall|j: int|
        0 <= j < i ==> (#[trigger] config.remotes@[j]).name@ != config.remotes@[i].name@) {
        let name = config.remotes@[i].name@;
        lemma_find_from(config.remotes@, |r: RemoteConfig| is_remote(r, name), i);
    }
    if 0 <= i < config.parallelism@.len() && (forall|j: int|
        0 <= j < i ==> (#[trigger] config.parallelism@[j]).command@
            != config.parallelism@[i].command@) {
        let command = config.parallelism@[i].command@;
        lemma_find_from(config.parallelism@, |p: Parallelism| is_parallelism(p, command), i);
    }
}

/// What is configured under no name is not found.
pub proof fn law_not_found_by_name(config: Config, name: Seq<char>)
    ensures
        (forall|j: int| 0 <= j < config.depots@.len() ==> (#[trigger] config.depots@[j]).name@
            != name) ==> depot_config(config, name) is None,
        (forall|j: int| 0 <= j < config.remotes@.len() ==> (#[trigger] config.remotes@[j]).name@
            != name) ==> remote_config(config, name) is None,
        (forall|j: int|
            0 <= j < config.parallelism@.len() ==> (#[trigger] config.parallelism@[j]).command@
                != name) ==> configured_jobs(config, name) is None,
        (forall|j: int|
            0 <= j < config.manifests@.len() ==> (#[trigger] config.manifests@[j]).name@ != name)
            && (forall|j: int|
            0 <= j < config.remotes@.len() ==> (#[trigger] config.remotes@[j]).name@ != name)
            ==> manifest_config(config, name) is None,
{
    law_find_first(config.depots@, |d: NamedDepot| is_depot(d, name));
    law_find_first(config.remotes@, |r: RemoteConfig| is_remote(r, name));
    law_find_first(config.parallelism@, |p: Parallelism| is_parallelism(p, name));
    law_find_first(config.manifests@, |m: ManifestConfig| is_manifest(m, name));
    law_find_first(config.remotes@, |r: RemoteConfig| brings_manifest(r, name));
}

/// A manifest of its own counts before one that a remote of the same name brings along.
pub proof fn law_own_manifest_counts(config: Config, i: int)
    requires
        0 <= i < config.manifests@.len(),
        forall|j: int|
            0 <= j < i ==> (#[trigger] config.manifests@[j]).name@ != config.manifests@[i].name@,
    ensures
        manifest_config(config, config.manifests@[i].name@) == Some(config.manifests@[i]@),
{
    let name = config.manifests@[i].name@;
    lemma_find_from(config.manifests@, |m: ManifestConfig| is_manifest(m, name), i);
}

/// Where no manifest has the name, the first remote of the name that brings a manifest along gives
/// one: its project at that remote, on the branch `master` in the file `default.xml`. A remote
/// that brings none along hides no other.
pub proof fn law_manifest_of_remote(config: Config, i: int)
    requires
        0 <= i < config.remotes@.len(),
        config.remotes@[i].manifest is Some,
        forall|j: int|
            0 <= j < i && (#[trigger] config.remotes@[j]).name@ == config.remotes@[i].name@
                ==> config.remotes@[j].manifest is None,
        forall|j: int|
            0 <= j < config.manifests@.len() ==> (#[trigger] config.manifests@[j]).name@
                != config.remotes@[i].name@,
    ensures
        ({
            let name = config.remotes@[i].name@;
            manifest_config(config, name) == Some(
                ManifestConfigView {
                    name,
                    remote: name,
                    project: config.remotes@[i].manifest->0@,
                    default_branch: "master"@,
                    default_manifest_file: "default.xml"@,
                },
            )
        }),
{
    let name = config.remotes@[i].name@;
    law_find_first(config.manifests@, |m: ManifestConfig| is_manifest(m, name));
    lemma_find_from(
        config.remotes@,
        |r: RemoteConfig| brings_manifest(r, name),
        i,
    );
}

/// The command line counts before the configuration of the command, that before the configuration
/// of all commands, and where none of them says anything no number was asked for.
pub proof fn law_jobs_in_turn(config: Config, command: Seq<char>, n: i32)
    ensures
        requested_jobs(config, command, Some(n)) == n,
        configured_jobs(config, command) matches Some(own) ==> requested_jobs(config, command, None)
            == own,
        configured_jobs(config, command) is None ==> (configured_jobs(config, "global"@) matches Some(
            shared,
        ) ==> requested_jobs(config, command, None) == shared),
        configured_jobs(config, command) is None && configured_jobs(config, "global"@) is None
            ==> requested_jobs(config, command, None) == 0,
{
}

/// A number of jobs that was asked for is the number that runs, however many processors there are;
/// zero stands for all processors, and a negative number for at most its amount of them.
pub proof fn law_jobs_as_asked(n: int, processors: int)
    requires
        n > 0,
        processors > 0,
    ensures
        job_count(n, processors) == n,
        job_count(0, processors) == processors,
        job_count(-n, processors) <= n,
        job_count(-n, processors) <= processors,
        job_count(-n, processors) == n || job_count(-n, processors) == processors,
{
}

/// A variable in braces may begin with anything, one without braces only with what names begin
/// with; a `$` behind a `$` begins none.
pub proof fn law_variables_expand(before: Seq<char>, name: Seq<char>, after: Seq<char>, c: char)
    requires
        !before.contains('$'),
        !name.contains('}'),
    ensures
        is_expandable(before + after) <==> is_expandable(after),
        is_expandable(before + (seq!['$', '{'] + name + seq!['}'] + after)) <==> is_expandable(
            after,
        ),
        is_foreign(c) ==> !is_expandable(before + (seq!['$', c] + after)),
        !is_foreign(c) && c != '{' ==> (is_expandable(before + (seq!['$', c] + after))
            <==> is_expandable(after)),
        is_expandable(before + (seq!['$', '$'] + after)) <==> is_expandable(after),
{
    lemma_expands_behind(before, after);
    let braced = seq!['$', '{'] + name + seq!['}'] + after;
    lemma_expands_behind(before, braced);
    assert(braced[0] == '$' && braced[1] == '{');
    assert(braced.skip(2) =~= name + seq!['}'] + after);
    assert(braced[name.len() as int + 2] == '}');
    assert(braced.contains('}'));
    lemma_braces_close(name, after);
    let bare = seq!['$', c] + after;
    lemma_expands_behind(before, bare);
    assert(bare[0] == '$' && bare[1] == c);
    assert(bare.skip(2) =~= after);
    let escaped = seq!['$', '$'] + after;
    lemma_expands_behind(before, escaped);
    assert(escaped[0] == '$' && escaped[1] == '$');
    assert(escaped.skip(2) =~= after);
    assert(!is_foreign('$')) by {
        assert('$' as u32 == 36);
    }
}

/// What stands in front of the first variable makes no difference.
proof fn lemma_expands_behind(before: Seq<char>, after: Seq<char>)
    requires
        !before.contains('$'),
    ensures
        expands_from(before + after, false) == expands_from(after, false),
    decreases before.len(),
{
    if before.len() == 0 {
        assert(before + after =~= after);
    } else {
        assert(before.contains(before[0]));
        let rest = before.skip(1);
        assert forall|i: int| 0 <= i < rest.len() implies rest[i] != '$' by {
            assert(before.contains(before[i + 1]));
        }
        lemma_expands_behind(rest, after);
        assert((before + after).skip(1) =~= rest + after);
        assert((before + after)[0] == before[0]);
    }
}

/// What stands in braces makes no difference.
proof fn lemma_braces_close(name: Seq<char>, after: Seq<char>)
    requires
        !name.contains('}'),
    ensures
        expands_from(name + seq!['}'] + after, true) == expands_from(after, false),
    decreases name.len(),
{
    let whole = name + seq!['}'] + after;
    if name.len() == 0 {
        assert(whole[0] == '}');
        assert(whole.skip(1) =~= after);
    } else {
        assert(name.contains(name[0]));
        let rest = name.skip(1);
        assert forall|i: int| 0 <= i < rest.len() implies rest[i] != '}' by {
            assert(name.contains(name[i + 1]));
        }
        lemma_braces_close(rest, after);
        assert(whole[0] == name[0]);
        assert(whole.skip(1) =~= rest + seq!['}'] + after);
    }
}

/// Whether an upload is submitted by itself, and whether it is queued for presubmit: what the
/// command line asks for counts before the configuration, in either direction, and only where it
/// asks for neither does the configuration count.
pub proof fn law_asked_before_configured(
    config: &Config,
    asked: bool,
    refused: bool,
    submitted: bool,
    queued: bool,
)
    requires
        call_ensures(Config::autosubmit_upload, (config, asked, refused), submitted),
        call_ensures(Config::presubmit_upload, (config, asked, refused), queued),
    ensures
        asked ==> submitted && queued,
        !asked && refused ==> !submitted && !queued,
        !asked && !refused ==> submitted == config.autosubmit && queued == config.presubmit,
{
}

/// As many jobs run as the command line asks for; without it, as the configuration of the command
/// says, or else that of all commands; and never none, where there is a processor.
pub proof fn law_pool_size(
    config: &Config,
    command: &str,
    jobs: Option<i32>,
    processors: usize,
    size: usize,
)
    requires
        call_ensures(Config::pool_size, (config, command, jobs, processors), size),
        processors > 0,
    ensures
        size > 0,
        jobs matches Some(n) ==> n > 0 ==> size == n,
        jobs == Some(0i32) ==> size == processors,
        jobs is None ==> (configured_jobs(*config, command@) matches Some(n) ==> n > 0 ==> size
            == n),
        jobs is None && configured_jobs(*config, command@) is None ==> (configured_jobs(
            *config,
            "global"@,
        ) matches Some(n) ==> n > 0 ==> size == n),
        jobs is None && configured_jobs(*config, command@) is None && configured_jobs(
            *config,
            "global"@,
        ) is None ==> size == processors,
{
    law_job_count(requested_jobs(*config, command@, jobs), processors as int);
}

/// Without a configuration updates are looked for, nothing is submitted or queued by itself, at
/// most sixteen jobs show the status, and a manifest is on the branch and in the file that one
/// which a remote brings along is.
pub proof fn law_defaults(
    check: bool,
    submit: bool,
    queue: bool,
    branch: String,
    file: String,
    jobs: Vec<Parallelism>,
    config: Config,
    i: int,
)
    requires
        call_ensures(default_update_check, (), check),
        call_ensures(default_autosubmit, (), submit),
        call_ensures(default_presubmit, (), queue),
        call_ensures(default_branch, (), branch),
        call_ensures(default_manifest_file, (), file),
        call_ensures(default_parallelism, (), jobs),
    ensures
        check && !submit && !queue,
        jobs@.len() == 1 && jobs@[0].command@ == "status"@ && jobs@[0].jobs == -16,
        0 <= i < config.remotes@.len() && config.remotes@[i].manifest is Some && (forall|j: int|
            0 <= j < i ==> (#[trigger] config.remotes@[j]).name@ != config.remotes@[i].name@) && (
        forall|j: int|
            0 <= j < config.manifests@.len() ==> (#[trigger] config.manifests@[j]).name@
                != config.remotes@[i].name@) ==> {
            let found = manifest_config(config, config.remotes@[i].name@);
            &&& found is Some
            &&& found->0.default_branch == branch@
            &&& found->0.default_manifest_file == file@
        },
{
    if 0 <= i < config.remotes@.len() && config.remotes@[i].manifest is Some && (forall|j: int|
        0 <= j < i ==> (#[trigger] config.remotes@[j]).name@ != config.remotes@[i].name@) && (
    forall|j: int|
        0 <= j < config.manifests@.len() ==> (#[trigger] config.manifests@[j]).name@
            != config.remotes@[i].name@) {
        law_manifest_of_remote(config, i);
    }
}

/// A depot is at the path that its path expands to, under its name; without that, why there is none
/// is told with its name.
pub proof fn law_depot_at_expanded_path(
    name: &str,
    expanded: Result<String, String>,
    r: Result<Depot, ConfigError>,
)
    requires
        call_ensures(Config::depot_at, (name, expanded), r),
    ensures
        expanded matches Ok(path) ==> r is Ok && r->Ok_0.path@ == path@ && r->Ok_0.name@ == name@,
        expanded matches Err(reason) ==> r is Err && r->Err_0@ == (
        ConfigErrorView::ExpansionFailed { depot: name@, reason: reason@ }),
{
}

/// A brace that nothing closes is text, and so is a `$` at the very end.
pub proof fn law_unclosed_braces_are_text(before: Seq<char>, after: Seq<char>)
    requires
        !before.contains('$'),
        !after.contains('}'),
    ensures
        is_expandable(before + (seq!['$', '{'] + after)) <==> is_expandable(after),
        is_expandable(before + seq!['$']),
{
    let open = seq!['$', '{'] + after;
    lemma_expands_behind(before, open);
    assert(open.skip(2) =~= after);
    assert(!open.contains('}')) by {
        if open.contains('}') {
            let i = choose|i: int| 0 <= i < open.len() && open[i] == '}';
            assert(after.contains(after[i - 2]));
        }
    }
    lemma_expands_behind(before, seq!['$']);
    assert(seq!['$'].skip(1) =~= Seq::empty());
    reveal_with_fuel(expands_from, 2);
}

} // verus!
