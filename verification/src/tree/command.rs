//! Running a command in each project.
use vstd::prelude::*;

use crate::path::{
    components, diff_paths, join_path, joined, lies_beneath, path_difference, way_up,
};
use crate::style::{fragment, law_plain_text, piece, plain_text, Fragment, FragmentView, Style};
use crate::text::{begins_with, concat3, decimal, decimal_of_i32};
use crate::tree::sync::NoDifference;
use crate::tree::{ProjectInfo, Tree};

verus! {

/// A variable of a command's environment.
pub struct Variable {
    pub name: &'static str,
    pub value: String,
}

/// A variable of a command's environment, as a value.
pub struct VariableView {
    pub name: Seq<char>,
    pub value: Seq<char>,
}

impl View for Variable {
    type V = VariableView;

    open spec fn view(&self) -> VariableView {
        VariableView { name: self.name@, value: self.value@ }
    }
}

impl DeepView for Variable {
    type V = VariableView;

    open spec fn deep_view(&self) -> VariableView {
        self@
    }
}

/// How a command is run in a project: where, and with which variables.
pub struct ProjectCommand {
    pub directory: String,
    pub variables: Vec<Variable>,
}

/// The variables of a command in a project, where `up` leads from the project to the root.
pub open spec fn command_variables(
    root: Seq<char>,
    up: Seq<char>,
    name: Seq<char>,
    path: Seq<char>,
) -> Seq<VariableView> {
    seq![
        VariableView { name: "PORE_ROOT"@, value: root },
        VariableView { name: "PORE_ROOT_REL"@, value: up },
        VariableView { name: "REPO_PROJECT"@, value: name },
        VariableView { name: "REPO_PATH"@, value: path },
    ]
}

/// What came of a command in a project.
pub struct CommandResult {
    pub name: String,
    pub rc: i32,
    pub output: Vec<u8>,
}

/// What came of a command in a project, as a value.
#[verifier::ext_equal]
pub struct CommandResultView {
    pub name: Seq<char>,
    pub rc: i32,
    pub output: Seq<u8>,
}

impl View for CommandResult {
    type V = CommandResultView;

    open spec fn view(&self) -> CommandResultView {
        CommandResultView { name: self.name@, rc: self.rc, output: self.output@ }
    }
}

impl DeepView for CommandResult {
    type V = CommandResultView;

    open spec fn deep_view(&self) -> CommandResultView {
        self@
    }
}

/// The last exit code that is not zero, or zero where there is none.
pub open spec fn last_failure(results: Seq<CommandResultView>) -> i32
    decreases results.len(),
{
    if results.len() == 0 {
        0
    } else if results.last().rc != 0 {
        results.last().rc
    } else {
        last_failure(results.drop_last())
    }
}

/// The exit code of a command that ran in many projects: one where it could not be run somewhere,
/// else the last that is not zero.
pub open spec fn overall_code(results: Seq<CommandResultView>, failed: nat) -> i32 {
    if failed > 0 {
        1
    } else {
        last_failure(results)
    }
}

/// The exit code of a command that ran in many projects.
pub fn exit_code(results: &Vec<CommandResult>, failed: usize) -> (r: i32)
    ensures
        r == overall_code(results.deep_view(), failed as nat),
{
    let ghost all = results.deep_view();
    let mut rc: i32 = 0;
    let mut i: usize = 0;
    while i < results.len()
        invariant
            i <= results.len(),
            all == results.deep_view(),
            rc == last_failure(all.take(i as int)),
        decreases results.len() - i,
    {
        assert(all[i as int] == results@[i as int]@);
        assert(all.take(i + 1).drop_last() =~= all.take(i as int));
        if results[i].rc != 0 {
            rc = results[i].rc;
        }
        i += 1;
    }
    assert(all.take(all.len() as int) =~= all);
    if failed > 0 {
        1
    } else {
        rc
    }
}

/// The exit code is zero exactly where the command ran everywhere and succeeded everywhere.
pub proof fn law_zero_means_success(results: Seq<CommandResultView>, failed: nat)
    ensures
        overall_code(results, failed) == 0 <==> failed == 0 && forall|i: int|
            0 <= i < results.len() ==> #[trigger] results[i].rc == 0,
    decreases results.len(),
{
    lemma_last_failure(results);
}

proof fn lemma_last_failure(results: Seq<CommandResultView>)
    ensures
        last_failure(results) == 0 <==> forall|i: int|
            0 <= i < results.len() ==> #[trigger] results[i].rc == 0,
    decreases results.len(),
{
    if results.len() > 0 {
        let front = results.drop_last();
        lemma_last_failure(front);
        if last_failure(results) == 0 {
            assert forall|i: int| 0 <= i < results.len() implies #[trigger] results[i].rc == 0 by {
                if i < front.len() {
                    assert(front[i] == results[i]);
                    assert(front[i].rc == 0);
                }
            }
        } else if forall|i: int| 0 <= i < results.len() ==> #[trigger] results[i].rc == 0 {
            assert(results[results.len() - 1].rc == 0);
            assert forall|i: int| 0 <= i < front.len() implies #[trigger] front[i].rc == 0 by {
                assert(front[i] == results[i]);
                assert(results[i].rc == 0);
            }
        }
    }
}

/// The line above what a command wrote in a project.
pub open spec fn command_heading(name: Seq<char>, rc: i32) -> Seq<FragmentView> {
    if rc == 0 {
        seq![piece(Style::Bold, name)]
    } else {
        seq![
            piece(Style::BoldRed, name),
            piece(Style::Plain, " (rc = "@ + decimal(rc as int) + ")"@),
        ]
    }
}

/// The line above what a command wrote in a project.
pub fn heading(name: &str, rc: i32) -> (r: Vec<Fragment>)
    ensures
        r.deep_view() == command_heading(name@, rc),
{
    let mut r: Vec<Fragment> = Vec::new();
    if rc == 0 {
        r.push(fragment(Style::Bold, name));
    } else {
        let code: String = decimal_of_i32(rc);
        r.push(fragment(Style::BoldRed, name));
        r.push(fragment(Style::Plain, concat3(" (rc = ", code.as_str(), ")").as_str()));
    }
    assert(r.deep_view() =~= command_heading(name@, rc));
    r
}

/// What a byte becomes when every line is indented: a line break is followed by two blanks.
pub open spec fn indented_byte(b: u8) -> Seq<u8> {
    if b == 10u8 {
        seq![10u8, 32u8, 32u8]
    } else {
        seq![b]
    }
}

/// The bytes with two blanks after every line break.
pub open spec fn indented_bytes(bytes: Seq<u8>) -> Seq<u8>
    decreases bytes.len(),
{
    if bytes.len() == 0 {
        Seq::empty()
    } else {
        indented_bytes(bytes.drop_last()) + indented_byte(bytes.last())
    }
}

/// The lines of what a command wrote, each behind two blanks and before a line break.
pub open spec fn indented_output(output: Seq<u8>) -> Seq<u8> {
    seq![32u8, 32u8] + indented_bytes(output) + seq![10u8]
}

/// The lines of what a command wrote, each behind two blanks and before a line break.
pub fn indent_output(output: &Vec<u8>) -> (r: Vec<u8>)
    ensures
        r@ == indented_output(output@),
{
    let mut r: Vec<u8> = Vec::new();
    r.push(32u8);
    r.push(32u8);
    let mut i: usize = 0;
    assert(r@ =~= seq![32u8, 32u8] + indented_bytes(output@.take(0)));
    while i < output.len()
        invariant
            i <= output.len(),
            r@ == seq![32u8, 32u8] + indented_bytes(output@.take(i as int)),
        decreases output.len() - i,
    {
        assert(output@.take(i + 1).drop_last() =~= output@.take(i as int));
        r.push(output[i]);
        if output[i] == 10u8 {
            r.push(32u8);
            r.push(32u8);
        }
        assert(r@ =~= seq![32u8, 32u8] + indented_bytes(output@.take(i + 1)));
        i += 1;
    }
    assert(output@.take(output@.len() as int) =~= output@);
    r.push(10u8);
    assert(r@ =~= indented_output(output@));
    r
}

impl Tree {
    /// How a command is run in a project, where `up` leads from the project to the root.
    pub fn command_in(&self, project: &ProjectInfo, up: String) -> (r: ProjectCommand)
        ensures
            r.directory@ == joined(self.path@, project.project_path@),
            r.variables.deep_view() == command_variables(
                self.path@,
                up@,
                project.project_name@,
                project.project_path@,
            ),
    {
        let mut variables: Vec<Variable> = Vec::new();
        let ghost way = up@;
        variables.push(Variable { name: "PORE_ROOT", value: self.path.clone() });
        variables.push(Variable { name: "PORE_ROOT_REL", value: up });
        variables.push(Variable { name: "REPO_PROJECT", value: project.project_name.clone() });
        variables.push(Variable { name: "REPO_PATH", value: project.project_path.clone() });
        assert(variables.deep_view() =~= command_variables(
            self.path@,
            way,
            project.project_name@,
            project.project_path@,
        ));
        ProjectCommand {
            directory: join_path(self.path.as_str(), project.project_path.as_str()),
            variables,
        }
    }

    /// How a command is run in a project.
    pub fn forall_command(&self, project: &ProjectInfo) -> (r: Result<ProjectCommand, NoDifference>)
        ensures
            ({
                let directory = joined(self.path@, project.project_path@);
                match path_difference(self.path@, directory) {
                    Some(up) => {
                        &&& r is Ok
                        &&& r->Ok_0.directory@ == directory
                        &&& r->Ok_0.variables.deep_view() == command_variables(
                            self.path@,
                            up,
                            project.project_name@,
                            project.project_path@,
                        )
                    },
                    None => r is Err && r->Err_0.from@ == directory && r->Err_0.to@ == self.path@,
                }
            }),
            ({
                let directory = joined(self.path@, project.project_path@);
                lies_beneath(directory, self.path@) && begins_with(self.path@, '/') == begins_with(
                    directory,
                    '/',
                ) ==> r is Ok && components(r->Ok_0.variables.deep_view()[1].value) == way_up(
                    (components(directory).len() - components(self.path@).len()) as nat,
                )
            }),
    {
        let directory: String = join_path(self.path.as_str(), project.project_path.as_str());
        match diff_paths(self.path.as_str(), directory.as_str()) {
            Some(up) => Ok(self.command_in(project, up)),
            None => Err(NoDifference { from: directory, to: self.path.clone() }),
        }
    }
}

/// The exit code is that of the last failure, wherever it stands, and one where the command could
/// not be run everywhere.
pub proof fn law_last_failure_counts(
    a: Seq<CommandResultView>,
    failure: CommandResultView,
    b: Seq<CommandResultView>,
    failed: nat,
)
    requires
        failure.rc != 0,
        forall|i: int| 0 <= i < b.len() ==> (#[trigger] b[i]).rc == 0,
    ensures
        overall_code(a + seq![failure] + b, 0) == failure.rc,
        failed > 0 ==> overall_code(a + seq![failure] + b, failed) == 1,
        overall_code(Seq::empty(), 0) == 0,
    decreases b.len(),
{
    let all = a + seq![failure] + b;
    if b.len() == 0 {
        assert(all =~= a.push(failure));
    } else {
        assert(all.last() == b.last());
        assert(all.drop_last() =~= a + seq![failure] + b.drop_last());
        assert(b[b.len() - 1].rc == 0);
        law_last_failure_counts(a, failure, b.drop_last(), failed);
    }
}

/// A command is told where the root is, and how to get there, and which project it runs in and
/// where; nothing else is set.
pub proof fn law_command_is_told(
    root: Seq<char>,
    up: Seq<char>,
    name: Seq<char>,
    path: Seq<char>,
    variable: VariableView,
)
    ensures
        command_variables(root, up, name, path).contains(variable) <==> (variable.name
            == "PORE_ROOT"@ && variable.value == root) || (variable.name == "PORE_ROOT_REL"@
            && variable.value == up) || (variable.name == "REPO_PROJECT"@ && variable.value == name)
            || (variable.name == "REPO_PATH"@ && variable.value == path),
        command_variables(root, up, name, path).len() == 4,
{
    let all = command_variables(root, up, name, path);
    assert(all[0] == (VariableView { name: "PORE_ROOT"@, value: root }));
    assert(all[1] == (VariableView { name: "PORE_ROOT_REL"@, value: up }));
    assert(all[2] == (VariableView { name: "REPO_PROJECT"@, value: name }));
    assert(all[3] == (VariableView { name: "REPO_PATH"@, value: path }));
}

/// The line above what a command wrote is the project's name, in red and with the exit code exactly
/// where it failed.
pub proof fn law_heading_tells_failure(name: Seq<char>, rc: i32)
    ensures
        rc == 0 ==> plain_text(command_heading(name, rc)) == name,
        rc != 0 ==> plain_text(command_heading(name, rc)) == name + (" (rc = "@ + decimal(rc as int)
            + ")"@),
        command_heading(name, rc)[0].text == name,
        command_heading(name, rc)[0].style == Style::BoldRed <==> rc != 0,
{
    let first = seq![command_heading(name, rc)[0]];
    law_plain_text(Seq::empty(), Seq::empty(), command_heading(name, rc)[0].style, name);
    if rc != 0 {
        let text = " (rc = "@ + decimal(rc as int) + ")"@;
        law_plain_text(first, seq![piece(Style::Plain, text)], Style::Plain, text);
        assert(command_heading(name, rc) =~= first + seq![piece(Style::Plain, text)]);
    } else {
        assert(command_heading(name, rc) =~= first);
    }
}

/// Nothing of what a command wrote is lost: lines without breaks stay as they are, and every break
/// is followed by two blanks.
pub proof fn law_lines_are_indented(a: Seq<u8>, b: Seq<u8>)
    ensures
        indented_bytes(a + seq![10u8] + b) == indented_bytes(a) + seq![10u8, 32u8, 32u8]
            + indented_bytes(b),
        !a.contains(10u8) ==> indented_bytes(a) == a,
        indented_output(a).len() == indented_bytes(a).len() + 3,
        indented_output(a).subrange(0, 2) == seq![32u8, 32u8],
        indented_output(a).subrange(2, indented_output(a).len() - 1) == indented_bytes(a),
        indented_output(a).last() == 10u8,
    decreases b.len(),
{
    lemma_indented_unbroken(a);
    assert(indented_output(a).subrange(0, 2) =~= seq![32u8, 32u8]);
    assert(indented_output(a).subrange(2, indented_output(a).len() - 1) =~= indented_bytes(a));
    let all = a + seq![10u8] + b;
    if b.len() == 0 {
        assert(all =~= a.push(10u8));
        assert(all.drop_last() =~= a);
        assert(indented_bytes(all) =~= indented_bytes(a) + seq![10u8, 32u8, 32u8] + indented_bytes(
            b,
        ));
    } else {
        assert(all.last() == b.last());
        assert(all.drop_last() =~= a + seq![10u8] + b.drop_last());
        law_lines_are_indented(a, b.drop_last());
        assert(indented_bytes(all) =~= indented_bytes(a) + seq![10u8, 32u8, 32u8] + indented_bytes(
            b,
        ));
    }
}

proof fn lemma_indented_unbroken(a: Seq<u8>)
    ensures
        !a.contains(10u8) ==> indented_bytes(a) == a,
    decreases a.len(),
{
    if !a.contains(10u8) && a.len() > 0 {
        let front = a.drop_last();
        assert(a.contains(a[a.len() - 1]));
        assert forall|i: int| 0 <= i < front.len() implies front[i] != 10u8 by {
            assert(a.contains(a[i]));
        }
        lemma_indented_unbroken(front);
        assert(indented_bytes(a) =~= a);
    }
}

/// A command runs in the place of its project, and is told of it, wherever there is a way back to
/// the root.
pub proof fn law_command_runs_in_project(
    tree: &Tree,
    project: &ProjectInfo,
    r: Result<ProjectCommand, NoDifference>,
)
    requires
        call_ensures(Tree::forall_command, (tree, project), r),
    ensures
        ({
            let place = joined(tree.path@, project.project_path@);
            let way = path_difference(tree.path@, place);
            &&& r is Ok <==> way is Some
            &&& r is Ok ==> {
                let told = r->Ok_0.variables.deep_view();
                &&& r->Ok_0.directory@ == place
                &&& told.contains((VariableView { name: "PORE_ROOT"@, value: tree.path@ }))
                &&& told.contains((VariableView { name: "PORE_ROOT_REL"@, value: way->0 }))
                &&& told.contains(
                    (VariableView { name: "REPO_PROJECT"@, value: project.project_name@ }),
                )
                &&& told.contains(
                    (VariableView { name: "REPO_PATH"@, value: project.project_path@ }),
                )
            }
        }),
{
    let place = joined(tree.path@, project.project_path@);
    if let Some(up) = path_difference(tree.path@, place) {
        let all = command_variables(
            tree.path@,
            up,
            project.project_name@,
            project.project_path@,
        );
        assert(all[0] == (VariableView { name: "PORE_ROOT"@, value: tree.path@ }));
        assert(all[1] == (VariableView { name: "PORE_ROOT_REL"@, value: up }));
        assert(all[2] == (VariableView { name: "REPO_PROJECT"@, value: project.project_name@ }));
        assert(all[3] == (VariableView { name: "REPO_PATH"@, value: project.project_path@ }));
    }
}

} // verus!
