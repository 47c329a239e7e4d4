//! Removing branches that have been merged.
use vstd::prelude::*;

use crate::depot::add_argument;
use crate::style::{
    add_line, fragment, law_plain_text, piece, plain_text, Fragment, FragmentView, Style,
};

verus! {

/// A local branch.
pub struct BranchInfo {
    pub name: String,
    /// `HEAD` is on it.
    pub is_head: bool,
    pub commit: String,
    /// The depot holds its commit.
    pub merged: bool,
}

/// A local branch, as a value.
pub struct BranchView {
    pub name: Seq<char>,
    pub is_head: bool,
    pub commit: Seq<char>,
    pub merged: bool,
}

impl View for BranchInfo {
    type V = BranchView;

    open spec fn view(&self) -> BranchView {
        BranchView {
            name: self.name@,
            is_head: self.is_head,
            commit: self.commit@,
            merged: self.merged,
        }
    }
}

impl DeepView for BranchInfo {
    type V = BranchView;

    open spec fn deep_view(&self) -> BranchView {
        self@
    }
}

/// The names of the branches whose commits the depot holds, in order.
pub open spec fn merged_names(branches: Seq<BranchView>) -> Seq<Seq<char>>
    decreases branches.len(),
{
    if branches.len() == 0 {
        Seq::empty()
    } else if branches.last().merged {
        merged_names(branches.drop_last()).push(branches.last().name)
    } else {
        merged_names(branches.drop_last())
    }
}

/// The commit at which `HEAD` stays when the branch that it is on goes away.
pub open spec fn detached_at(branches: Seq<BranchView>) -> Option<Seq<char>>
    decreases branches.len(),
{
    if branches.len() == 0 {
        None
    } else if branches.last().merged && branches.last().is_head {
        Some(branches.last().commit)
    } else {
        detached_at(branches.drop_last())
    }
}

/// What is pruned: where `HEAD` goes first, and which branches are deleted then.
pub struct PrunePlan {
    pub detach: Option<String>,
    pub prunable: Vec<String>,
}

/// The branches hold one of this name whose commit the depot holds.
pub open spec fn has_merged(branches: Seq<BranchView>, name: Seq<char>) -> bool {
    exists|i: int|
        0 <= i < branches.len() && #[trigger] branches[i].name == name && branches[i].merged
}

/// Only branches whose commits the depot holds are deleted.
pub proof fn law_only_merged_pruned(branches: Seq<BranchView>, k: int)
    requires
        0 <= k < merged_names(branches).len(),
    ensures
        has_merged(branches, merged_names(branches)[k]),
    decreases branches.len(),
{
    let front = branches.drop_last();
    if k < merged_names(front).len() {
        law_only_merged_pruned(front, k);
        let i = choose|i: int|
            0 <= i < front.len() && #[trigger] front[i].name == merged_names(front)[k]
                && front[i].merged;
        assert(branches[i].name == merged_names(branches)[k]);
    } else {
        assert(branches[branches.len() - 1].name == merged_names(branches)[k]);
    }
}

/// Every branch whose commit the depot holds is deleted.
pub proof fn law_merged_pruned(branches: Seq<BranchView>, i: int)
    requires
        0 <= i < branches.len(),
        branches[i].merged,
    ensures
        merged_names(branches).contains(branches[i].name),
    decreases branches.len(),
{
    let front = branches.drop_last();
    let names = merged_names(branches);
    if i < front.len() {
        assert(front[i] == branches[i]);
        law_merged_pruned(front, i);
        let k = choose|k: int|
            0 <= k < merged_names(front).len() && merged_names(front)[k] == front[i].name;
        assert(names[k] == branches[i].name);
    } else {
        assert(names[names.len() - 1] == branches[i].name);
    }
}

/// Where `HEAD` is on a branch that is deleted, it leaves the branch first, and stays at the commit
/// of such a branch.
pub proof fn law_head_leaves_pruned(branches: Seq<BranchView>, i: int)
    requires
        0 <= i < branches.len(),
        branches[i].merged,
        branches[i].is_head,
    ensures
        exists|j: int|
            0 <= j < branches.len() && (#[trigger] branches[j]).merged && branches[j].is_head
                && detached_at(branches) == Some(branches[j].commit),
    decreases branches.len(),
{
    let front = branches.drop_last();
    let last = branches.last();
    assert(branches[branches.len() - 1] == last);
    if !(last.merged && last.is_head) {
        assert(front[i] == branches[i]);
        law_head_leaves_pruned(front, i);
        let j = choose|j: int|
            0 <= j < front.len() && (#[trigger] front[j]).merged && front[j].is_head
                && detached_at(front) == Some(front[j].commit);
        assert(branches[j] == front[j]);
    }
}

/// What is pruned of a project.
pub fn prune_plan(branches: &Vec<BranchInfo>) -> (r: PrunePlan)
    ensures
        r.detach.deep_view() == detached_at(branches.deep_view()),
        r.prunable.deep_view() == merged_names(branches.deep_view()),
{
    let ghost all = branches.deep_view();
    let mut detach: Option<String> = None;
    let mut prunable: Vec<String> = Vec::new();
    let mut i: usize = 0;
    assert(prunable.deep_view() =~= Seq::empty());
    while i < branches.len()
        invariant
            i <= branches.len(),
            all == branches.deep_view(),
            detach.deep_view() == detached_at(all.take(i as int)),
            prunable.deep_view() == merged_names(all.take(i as int)),
        decreases branches.len() - i,
    {
        assert(all[i as int] == branches@[i as int]@);
        assert(all.take(i + 1).drop_last() =~= all.take(i as int));
        if branches[i].merged {
            if branches[i].is_head {
                detach = Some(branches[i].commit.clone());
            }
            add_argument(&mut prunable, branches[i].name.clone());
        }
        i += 1;
    }
    assert(all.take(all.len() as int) =~= all);
    PrunePlan { detach, prunable }
}

/// The branches that were pruned in a project.
pub struct Pruned {
    pub name: String,
    pub branches: Vec<String>,
}

/// The branches that were pruned in a project, as a value.
#[verifier::ext_equal]
pub struct PrunedView {
    pub name: Seq<char>,
    pub branches: Seq<Seq<char>>,
}

impl View for Pruned {
    type V = PrunedView;

    open spec fn view(&self) -> PrunedView {
        PrunedView { name: self.name@, branches: self.branches.deep_view() }
    }
}

impl DeepView for Pruned {
    type V = PrunedView;

    open spec fn deep_view(&self) -> PrunedView {
        self@
    }
}

/// The line of a branch that was pruned.
pub open spec fn branch_line(branch: Seq<char>) -> Seq<FragmentView> {
    seq![piece(Style::Plain, "  "@), piece(Style::Red, branch)]
}

/// The lines of the branches that were pruned.
pub open spec fn branch_lines(branches: Seq<Seq<char>>) -> Seq<Seq<FragmentView>> {
    branches.map_values(|branch: Seq<char>| branch_line(branch))
}

/// The lines of a project, where something was pruned in it.
pub open spec fn pruned_lines(pruned: PrunedView) -> Seq<Seq<FragmentView>> {
    if pruned.branches.len() == 0 {
        Seq::empty()
    } else {
        seq![seq![piece(Style::Bold, pruned.name)]] + branch_lines(pruned.branches)
    }
}

/// What is shown of all projects.
pub open spec fn pruned_report(results: Seq<PrunedView>) -> Seq<Seq<FragmentView>>
    decreases results.len(),
{
    if results.len() == 0 {
        Seq::empty()
    } else {
        pruned_report(results.drop_last()) + pruned_lines(results.last())
    }
}

/// Adds the lines of a project.
fn add_pruned(lines: &mut Vec<Vec<Fragment>>, pruned: &Pruned)
    ensures
        final(lines).deep_view() == old(lines).deep_view() + pruned_lines(pruned@),
{
    let ghost before = lines.deep_view();
    if pruned.branches.len() == 0 {
        assert(before + pruned_lines(pruned@) =~= before);
        return ;
    }
    let ghost all = pruned.branches.deep_view();
    let ghost head = seq![seq![piece(Style::Bold, pruned.name@)]];
    let mut name: Vec<Fragment> = Vec::new();
    name.push(fragment(Style::Bold, pruned.name.as_str()));
    assert(name.deep_view() =~= seq![piece(Style::Bold, pruned.name@)]);
    add_line(lines, name);
    let mut i: usize = 0;
    assert(lines.deep_view() =~= before + (head + branch_lines(all).take(0)));
    while i < pruned.branches.len()
        invariant
            i <= pruned.branches.len(),
            all == pruned.branches.deep_view(),
            lines.deep_view() == before + (head + branch_lines(all).take(i as int)),
        decreases pruned.branches.len() - i,
    {
        let ghost now = lines.deep_view();
        assert(all[i as int] == pruned.branches@[i as int]@);
        let mut line: Vec<Fragment> = Vec::new();
        line.push(fragment(Style::Plain, "  "));
        line.push(fragment(Style::Red, pruned.branches[i].as_str()));
        assert(line.deep_view() =~= branch_line(all[i as int]));
        add_line(lines, line);
        assert(lines.deep_view() =~= before + (head + branch_lines(all).take(i + 1)));
        i += 1;
    }
    assert(branch_lines(all).take(all.len() as int) =~= branch_lines(all));
}

/// What is shown of all projects.
pub fn prune_report(results: &Vec<Pruned>) -> (r: Vec<Vec<Fragment>>)
    ensures
        r.deep_view() == pruned_report(results.deep_view()),
{
    let ghost all = results.deep_view();
    let mut lines: Vec<Vec<Fragment>> = Vec::new();
    let mut i: usize = 0;
    assert(lines.deep_view() =~= Seq::empty());
    while i < results.len()
        invariant
            i <= results.len(),
            all == results.deep_view(),
            lines.deep_view() == pruned_report(all.take(i as int)),
        decreases results.len() - i,
    {
        assert(all[i as int] == results@[i as int]@);
        assert(all.take(i + 1).drop_last() =~= all.take(i as int));
        add_pruned(&mut lines, &results[i]);
        i += 1;
    }
    assert(all.take(all.len() as int) =~= all);
    lines
}

/// The exit code: one where a project could not be pruned.
pub fn prune_code(failed: usize) -> (r: i32)
    ensures
        r == if failed == 0 {
            0i32
        } else {
            1i32
        },
{
    if failed == 0 {
        0
    } else {
        1
    }
}

/// Each branch is pruned or kept on its own, in order, and `HEAD` is left at the last of those that
/// are pruned and that it was on.
pub proof fn law_branches_pruned_one_by_one(branches: Seq<BranchView>, branch: BranchView)
    ensures
        merged_names(branches.push(branch)) == if branch.merged {
            merged_names(branches).push(branch.name)
        } else {
            merged_names(branches)
        },
        branch.merged && branch.is_head ==> detached_at(branches.push(branch)) == Some(
            branch.commit,
        ),
        !branch.merged || !branch.is_head ==> detached_at(branches.push(branch)) == detached_at(
            branches,
        ),
        merged_names(Seq::empty()).len() == 0,
        detached_at(Seq::empty()) is None,
{
    assert(branches.push(branch).drop_last() =~= branches);
}

/// `HEAD` stays on its branch unless that is pruned.
pub proof fn law_head_stays(branches: Seq<BranchView>)
    requires
        forall|i: int|
            0 <= i < branches.len() && (#[trigger] branches[i]).is_head ==> !branches[i].merged,
    ensures
        detached_at(branches) is None,
    decreases branches.len(),
{
    if branches.len() > 0 {
        let front = branches.drop_last();
        assert forall|i: int|
            0 <= i < front.len() && (#[trigger] front[i]).is_head implies !front[i].merged by {
            assert(front[i] == branches[i]);
        }
        law_head_stays(front);
        assert(branches[branches.len() - 1].is_head ==> !branches.last().merged);
    }
}

/// What is shown tells of every project in which something was pruned: its name on a line, and then
/// each of its branches on a line; of other projects nothing is said.
pub proof fn law_pruned_branches_are_told(results: Seq<PrunedView>, pruned: PrunedView, i: int)
    ensures
        ({
            let before = pruned_report(results);
            let after = pruned_report(results.push(pruned));
            &&& pruned.branches.len() == 0 ==> after == before
            &&& pruned.branches.len() > 0 ==> {
                &&& before.is_prefix_of(after)
                &&& after.len() == before.len() + 1 + pruned.branches.len()
                &&& plain_text(after[before.len() as int]) == pruned.name
                &&& 0 <= i < pruned.branches.len() ==> plain_text(
                    after[before.len() + 1 + i],
                ) == "  "@ + pruned.branches[i]
            }
        }),
        pruned_report(Seq::empty()).len() == 0,
{
    let before = pruned_report(results);
    let after = pruned_report(results.push(pruned));
    assert(results.push(pruned).drop_last() =~= results);
    assert(pruned.branches.len() == 0 ==> after =~= before);
    if pruned.branches.len() > 0 {
        assert(after.subrange(0, before.len() as int) =~= before);
        let heading = after[before.len() as int];
        assert(heading == seq![piece(Style::Bold, pruned.name)]);
        law_plain_text(heading, heading, Style::Bold, pruned.name);
        if 0 <= i < pruned.branches.len() {
            let line = after[before.len() + 1 + i];
            assert(line == branch_line(pruned.branches[i]));
            let first = seq![line[0]];
            let second = seq![line[1]];
            assert(line =~= first + second);
            law_plain_text(first, second, Style::Plain, "  "@);
            law_plain_text(first, second, Style::Red, pruned.branches[i]);
        }
    }
}

/// The code of pruning tells whether anything has failed.
pub proof fn law_prune_code(failed: usize, code: i32)
    requires
        call_ensures(prune_code, (failed,), code),
    ensures
        code == 0 <==> failed == 0,
        failed > 0 ==> code == 1,
{
}

} // verus!
