//! Running the hooks that come before an upload.
use vstd::prelude::*;

use crate::depot::add_argument;
use crate::lists::lemma_find_from;
use crate::manifest::{Manifest, ManifestView, ProjectView};
use crate::path::{join_path, joined};
use crate::style::{fragment, law_plain_text, piece, plain_text, Fragment, FragmentView, Style};
use crate::text::{concat3, copy_bytes, decimal, decimal_of_i32};
use crate::tree::command::{CommandResult, CommandResultView};
use crate::tree::Tree;

verus! {

/// The project that holds the hooks.
pub enum HookProject {
    /// The manifest names no hooks.
    Unconfigured,
    /// The manifest names hooks, but no project that holds them.
    Nowhere,
    /// The project of this name.
    Named(String),
}

/// The project that holds the hooks, as a value.
pub enum HookProjectView {
    Unconfigured,
    Nowhere,
    Named(Seq<char>),
}

impl View for HookProject {
    type V = HookProjectView;

    open spec fn view(&self) -> HookProjectView {
        match self {
            HookProject::Unconfigured => HookProjectView::Unconfigured,
            HookProject::Nowhere => HookProjectView::Nowhere,
            HookProject::Named(name) => HookProjectView::Named(name@),
        }
    }
}

/// The project that holds the hooks of a manifest.
pub open spec fn hook_project(manifest: ManifestView) -> HookProjectView {
    match manifest.repo_hooks {
        None => HookProjectView::Unconfigured,
        Some(hooks) => match hooks.in_project {
            None => HookProjectView::Nowhere,
            Some(name) => HookProjectView::Named(name),
        },
    }
}

/// Why the hooks cannot be run.
pub enum HookError {
    /// The manifest does not hold the project.
    NoProject { project: String },
    /// The project has no path of its own.
    NoPath { project: String },
}

/// Why the hooks cannot be run, as a value.
pub enum HookErrorView {
    NoProject { project: Seq<char> },
    NoPath { project: Seq<char> },
}

impl View for HookError {
    type V = HookErrorView;

    open spec fn view(&self) -> HookErrorView {
        match self {
            HookError::NoProject { project } => HookErrorView::NoProject { project: project@ },
            HookError::NoPath { project } => HookErrorView::NoPath { project: project@ },
        }
    }
}

/// The first project of a name.
pub open spec fn first_named(
    projects: Seq<(Seq<char>, ProjectView)>,
    name: Seq<char>,
) -> Option<ProjectView> {
    match crate::lists::find_first(projects, |e: (Seq<char>, ProjectView)| e.1.name == name) {
        Some(entry) => Some(entry.1),
        None => None,
    }
}

/// The path of the project that holds the hooks, as the manifest gives it.
pub open spec fn hook_project_path(
    projects: Seq<(Seq<char>, ProjectView)>,
    name: Seq<char>,
) -> Result<Seq<char>, HookErrorView> {
    match first_named(projects, name) {
        None => Err(HookErrorView::NoProject { project: name }),
        Some(project) => match project.path {
            None => Err(HookErrorView::NoPath { project: name }),
            Some(path) => Ok(path),
        },
    }
}

/// The project that holds the hooks of a manifest.
pub fn find_hook_project(manifest: &Manifest) -> (r: HookProject)
    ensures
        r@ == hook_project(manifest@),
{
    match &manifest.repo_hooks {
        None => HookProject::Unconfigured,
        Some(hooks) => match &hooks.in_project {
            None => HookProject::Nowhere,
            Some(name) => HookProject::Named(name.clone()),
        },
    }
}

impl Tree {
    /// The program of the hooks in the project of the given name.
    pub fn hook_path(&self, manifest: &Manifest, hook_project_name: &str) -> (r: Result<
        String,
        HookError,
    >)
        ensures
            match hook_project_path(manifest@.projects, hook_project_name@) {
                Ok(path) => r is Ok && r->Ok_0@ == joined(
                    joined(self.path@, path),
                    "pre-upload.py"@,
                ),
                Err(e) => r is Err && r->Err_0@ == e,
            },
    {
        let ghost projects = manifest@.projects;
        let ghost holds = |e: (Seq<char>, ProjectView)| e.1.name == hook_project_name@;
        match manifest.projects.position_by_name(hook_project_name) {
            None => {
                proof {
                    crate::lists::lemma_find_from(projects, holds, projects.len() as int);
                }
                Err(HookError::NoProject { project: hook_project_name.to_owned() })
            },
            Some(i) => {
                proof {
                    crate::lists::lemma_find_from(projects, holds, i as int);
                }
                match &manifest.projects.at(i).project.path {
                    None => Err(HookError::NoPath { project: hook_project_name.to_owned() }),
                    Some(path) => Ok(
                        join_path(
                            join_path(self.path.as_str(), path.as_str()).as_str(),
                            "pre-upload.py",
                        ),
                    ),
                }
            },
        }
    }
}

/// The arguments with which hooks are run on the commits of a project.
pub open spec fn hook_arguments(project: Seq<char>, commits: Seq<Seq<char>>) -> Seq<Seq<char>> {
    seq!["--project"@, project] + commits
}

/// The arguments with which hooks are run on the commits of a project; they are not run where the
/// project is on no branch or has no commits of its own.
pub fn hook_command(project_path: &str, on_branch: bool, commits: &Vec<String>) -> (r: Option<
    Vec<String>,
>)
    ensures
        r.deep_view() == if on_branch && commits@.len() > 0 {
            Some(hook_arguments(project_path@, commits.deep_view()))
        } else {
            None
        },
{
    if !on_branch || commits.len() == 0 {
        return None;
    }
    let ghost all = commits.deep_view();
    let mut arguments: Vec<String> = Vec::new();
    arguments.push("--project".to_owned());
    arguments.push(project_path.to_owned());
    let mut i: usize = 0;
    assert(arguments.deep_view() =~= hook_arguments(project_path@, all.take(0)));
    while i < commits.len()
        invariant
            i <= commits.len(),
            all == commits.deep_view(),
            arguments.deep_view() == hook_arguments(project_path@, all.take(i as int)),
        decreases commits.len() - i,
    {
        assert(all[i as int] == commits@[i as int]@);
        add_argument(&mut arguments, commits[i].clone());
        assert(arguments.deep_view() =~= hook_arguments(project_path@, all.take(i + 1)));
        i += 1;
    }
    assert(all.take(all.len() as int) =~= all);
    Some(arguments)
}

/// What a program wrote: its output, then its errors, on a line of their own where there is output.
pub open spec fn merged_output(stdout: Seq<u8>, stderr: Seq<u8>) -> Seq<u8> {
    if stderr.len() == 0 {
        stdout
    } else if stdout.len() == 0 {
        stderr
    } else {
        stdout + seq![10u8] + stderr
    }
}

/// What a program wrote: its output, then its errors.
pub fn merge_output(stdout: Vec<u8>, stderr: Vec<u8>) -> (r: Vec<u8>)
    ensures
        r@ == merged_output(stdout@, stderr@),
{
    let ghost out = stdout@;
    let ghost err = stderr@;
    let mut output: Vec<u8> = stdout;
    let mut errors: Vec<u8> = stderr;
    if errors.len() > 0 {
        if output.len() > 0 {
            output.push(10u8);
        }
        output.append(&mut errors);
    }
    assert(output@ =~= merged_output(out, err));
    output
}

/// What is shown of a project's hooks: a line, and what they wrote.
pub struct HookBlock {
    pub heading: Vec<Fragment>,
    pub output: Vec<u8>,
}

/// What is shown of a project's hooks, as a value.
#[verifier::ext_equal]
pub struct HookBlockView {
    pub heading: Seq<FragmentView>,
    pub output: Seq<u8>,
}

impl View for HookBlock {
    type V = HookBlockView;

    open spec fn view(&self) -> HookBlockView {
        HookBlockView { heading: self.heading.deep_view(), output: self.output@ }
    }
}

impl DeepView for HookBlock {
    type V = HookBlockView;

    open spec fn deep_view(&self) -> HookBlockView {
        self@
    }
}

/// What is shown of a project's hooks.
pub open spec fn hook_block(result: CommandResultView) -> HookBlockView {
    HookBlockView {
        heading: if result.rc != 0 {
            seq![
                piece(Style::BoldRed, result.name),
                piece(Style::Plain, " (rc = "@ + decimal(result.rc as int) + "):"@),
            ]
        } else {
            seq![piece(Style::BoldGreen, result.name), piece(Style::Plain, ":"@)]
        },
        output: result.output,
    }
}

/// Something is shown of a project's hooks: they failed, or they wrote something.
pub open spec fn is_shown(result: CommandResultView) -> bool {
    result.rc != 0 || result.output.len() > 0
}

/// What is shown of the hooks of all projects, in order.
pub open spec fn hook_blocks(results: Seq<CommandResultView>) -> Seq<HookBlockView>
    decreases results.len(),
{
    if results.len() == 0 {
        Seq::empty()
    } else if is_shown(results.last()) {
        hook_blocks(results.drop_last()).push(hook_block(results.last()))
    } else {
        hook_blocks(results.drop_last())
    }
}

/// What is shown of the hooks of all projects, in order.
pub fn preupload_report(results: &Vec<CommandResult>) -> (r: Vec<HookBlock>)
    ensures
        r.deep_view() == hook_blocks(results.deep_view()),
{
    let ghost all = results.deep_view();
    let mut r: Vec<HookBlock> = Vec::new();
    let mut i: usize = 0;
    assert(r.deep_view() =~= Seq::empty());
    while i < results.len()
        invariant
            i <= results.len(),
            all == results.deep_view(),
            r.deep_view() == hook_blocks(all.take(i as int)),
        decreases results.len() - i,
    {
        let ghost before = r.deep_view();
        let result: &CommandResult = &results[i];
        assert(all[i as int] == result@);
        assert(all.take(i + 1).drop_last() =~= all.take(i as int));
        if result.rc != 0 || result.output.len() > 0 {
            let mut heading: Vec<Fragment> = Vec::new();
            if result.rc != 0 {
                let code: String = decimal_of_i32(result.rc);
                heading.push(fragment(Style::BoldRed, result.name.as_str()));
                heading.push(
                    fragment(Style::Plain, concat3(" (rc = ", code.as_str(), "):").as_str()),
                );
            } else {
                heading.push(fragment(Style::BoldGreen, result.name.as_str()));
                heading.push(fragment(Style::Plain, ":"));
            }
            assert(heading.deep_view() =~= hook_block(result@).heading);
            let block: HookBlock = HookBlock { heading, output: copy_bytes(&result.output) };
            let ghost added = block@;
            r.push(block);
            assert(r.deep_view() =~= before.push(added));
        }
        i += 1;
    }
    assert(all.take(all.len() as int) =~= all);
    r
}

/// The hooks of a manifest are in the project that it names for them; where it names none, or says
/// nothing of hooks, each is told apart.
pub proof fn law_hooks_are_where_named(manifest: ManifestView)
    ensures
        manifest.repo_hooks is None <==> hook_project(manifest) is Unconfigured,
        manifest.repo_hooks matches Some(hooks) ==> (hooks.in_project matches Some(name)
            ==> hook_project(manifest) == HookProjectView::Named(name)),
        manifest.repo_hooks matches Some(hooks) ==> (hooks.in_project is None ==> hook_project(
            manifest,
        ) is Nowhere),
{
}

/// The project that holds the hooks is the first of its name, wherever it stands, and is at the
/// path that the manifest gives it; without a path, and without such a project, there are none.
pub proof fn law_hooks_are_in_first_of_name(
    projects: Seq<(Seq<char>, ProjectView)>,
    name: Seq<char>,
    i: int,
)
    requires
        0 <= i <= projects.len(),
        forall|j: int| 0 <= j < i ==> (#[trigger] projects[j]).1.name != name,
        i < projects.len() ==> projects[i].1.name == name,
    ensures
        ({
            let found = hook_project_path(projects, name);
            &&& i == projects.len() ==> found is Err && found->Err_0 == (HookErrorView::NoProject {
                project: name,
            })
            &&& i < projects.len() ==> match projects[i].1.path {
                Some(path) => found is Ok && found->Ok_0 == path,
                None => found is Err && found->Err_0 == (HookErrorView::NoPath { project: name }),
            }
        }),
{
    lemma_find_from(projects, |e: (Seq<char>, ProjectView)| e.1.name == name, i);
}

/// Hooks are told the project, and then every commit in order.
pub proof fn law_hooks_get_every_commit(project: Seq<char>, commits: Seq<Seq<char>>, i: int)
    requires
        0 <= i < commits.len(),
    ensures
        hook_arguments(project, commits).len() == commits.len() + 2,
        hook_arguments(project, commits)[0] == "--project"@,
        hook_arguments(project, commits)[1] == project,
        hook_arguments(project, commits)[i + 2] == commits[i],
{
}

/// Nothing of what a program wrote is lost: its output comes first and its errors last, and a line
/// break stands between them exactly where there are both.
pub proof fn law_output_is_merged(stdout: Seq<u8>, stderr: Seq<u8>)
    ensures
        stdout.is_prefix_of(merged_output(stdout, stderr)),
        stderr.is_suffix_of(merged_output(stdout, stderr)),
        merged_output(stdout, Seq::empty()) == stdout,
        merged_output(Seq::empty(), stderr) == stderr,
        stdout.len() > 0 && stderr.len() > 0 ==> merged_output(stdout, stderr).len() == stdout.len()
            + 1 + stderr.len() && merged_output(stdout, stderr)[stdout.len() as int] == 10u8,
{
    let all = merged_output(stdout, stderr);
    assert(all.subrange(0, stdout.len() as int) =~= stdout);
    assert(all.subrange(all.len() - stderr.len(), all.len() as int) =~= stderr);
    assert(merged_output(stdout, Seq::empty()) =~= stdout);
    assert(merged_output(Seq::empty(), stderr) =~= stderr);
}

/// Each project is shown on its own and in order: exactly where its hooks failed or wrote
/// something, whatever the others did.
pub proof fn law_hooks_shown_one_by_one(results: Seq<CommandResultView>, result: CommandResultView)
    ensures
        result.rc != 0 || result.output.len() > 0 ==> hook_blocks(results.push(result))
            == hook_blocks(results).push(hook_block(result)),
        result.rc == 0 && result.output.len() == 0 ==> hook_blocks(results.push(result))
            == hook_blocks(results),
        hook_blocks(Seq::empty()).len() == 0,
{
    assert(results.push(result).drop_last() =~= results);
}

/// What is shown of a project's hooks is all that they wrote, under the project's name, which is
/// red and followed by the exit code exactly where they failed.
pub proof fn law_hook_block_tells_failure(result: CommandResultView)
    ensures
        hook_block(result).output == result.output,
        hook_block(result).heading[0].text == result.name,
        hook_block(result).heading[0].style == (if result.rc == 0 {
            Style::BoldGreen
        } else {
            Style::BoldRed
        }),
        plain_text(hook_block(result).heading) == result.name + (if result.rc == 0 {
            ":"@
        } else {
            " (rc = "@ + decimal(result.rc as int) + "):"@
        }),
{
    let heading = hook_block(result).heading;
    let first = seq![heading[0]];
    let second = seq![heading[1]];
    assert(heading =~= first + second);
    law_plain_text(first, second, heading[0].style, heading[0].text);
    law_plain_text(first, second, heading[1].style, heading[1].text);
}

/// Hooks run exactly where the project is on a branch and has commits of its own.
pub proof fn law_hooks_run_on_own_commits(
    project: &str,
    on_branch: bool,
    commits: &Vec<String>,
    r: Option<Vec<String>>,
)
    requires
        call_ensures(hook_command, (project, on_branch, commits), r),
    ensures
        r is Some <==> on_branch && commits@.len() > 0,
        r is Some ==> r->0@.len() == commits@.len() + 2,
{
    if r is Some {
        assert(r->0.deep_view().len() == r->0@.len());
        assert(commits.deep_view().len() == commits@.len());
        assert(r.deep_view() == Some(r->0.deep_view()));
    }
}

/// The hooks of the project that holds them are in its place in the tree.
pub proof fn law_hooks_are_in_their_project(
    tree: &Tree,
    manifest: &Manifest,
    name: &str,
    r: Result<String, HookError>,
    i: int,
)
    requires
        call_ensures(Tree::hook_path, (tree, manifest, name), r),
        0 <= i < manifest@.projects.len(),
        manifest@.projects[i].1.name == name@,
        forall|j: int| 0 <= j < i ==> (#[trigger] manifest@.projects[j]).1.name != name@,
    ensures
        r is Ok <==> manifest@.projects[i].1.path is Some,
        r is Ok ==> r->Ok_0@ == joined(
            joined(tree.path@, manifest@.projects[i].1.path->0),
            "pre-upload.py"@,
        ),
{
    law_hooks_are_in_first_of_name(manifest@.projects, name@, i);
}

} // verus!
