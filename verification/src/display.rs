//! How the state of a tree is shown.
use vstd::prelude::*;

use crate::pool::{check_failed, TasksFailed};
use crate::style::{
    add_line, fragment, law_plain_text, piece, plain, plain_text, Fragment, FragmentView, Style,
};
use crate::text::{concat2, concat3, concat4, decimal, decimal_of};
use crate::tree::status::{
    state_char, FileState, FileStatus, FileStatusView, ProjectStatus, ProjectStatusView,
};

verus! {

/// The number of columns that a text takes.
pub uninterp spec fn text_width(text: Seq<char>) -> usize;

/// The number of columns that a text takes.
///
/// Calls `console::measure_text_width`, whose result is a function of the text alone and is named
/// `text_width` here.
#[verifier::external_body]
fn measure_text_width(text: &str) -> (r: usize)
    ensures
        r == text_width(text@),
{
    console::measure_text_width(text)
}

/// A text cut to a number of columns, with the tail at its end where something was cut.
pub uninterp spec fn truncated_text(
    text: Seq<char>,
    width: usize,
    tail: Seq<char>,
) -> Seq<char>;

/// A text cut to a number of columns, with the tail at its end where something was cut.
///
/// Calls `console::truncate_str`, whose result is a function of its three arguments and is named
/// `truncated_text` here. It needs at least as many columns as the tail takes, and three dots take
/// three.
#[verifier::external_body]
fn truncate_str(text: &str, width: usize, tail: &str) -> (r: String)
    requires
        tail@ == "..."@,
        width >= 3,
    ensures
        r@ == truncated_text(text@, width, tail@),
{
    console::truncate_str(text, width, tail).into_owned()
}

/// The number of columns that the message of a commit is cut to.
pub const SUMMARY_WIDTH: usize = 53;

/// How far a branch is ahead of its upstream and behind it; nothing where it is neither.
pub open spec fn ahead_behind_text(ahead: usize, behind: usize) -> Seq<char> {
    if ahead == 0 && behind == 0 {
        ""@
    } else if behind == 0 {
        " [ahead "@ + decimal(ahead as int) + "]"@
    } else if ahead == 0 {
        " [behind "@ + decimal(behind as int) + "]"@
    } else {
        " [ahead "@ + decimal(ahead as int) + ", behind "@ + (decimal(behind as int) + "]"@)
    }
}

/// How far a branch is ahead of its upstream and behind it.
pub fn ahead_behind(ahead: usize, behind: usize) -> (r: String)
    ensures
        r@ == ahead_behind_text(ahead, behind),
{
    let a: String = decimal_of(ahead as u64);
    let b: String = decimal_of(behind as u64);
    if ahead == 0 && behind == 0 {
        "".to_owned()
    } else if behind == 0 {
        concat3(" [ahead ", a.as_str(), "]")
    } else if ahead == 0 {
        concat3(" [behind ", b.as_str(), "]")
    } else {
        concat4(" [ahead ", a.as_str(), ", behind ", concat2(b.as_str(), "]").as_str())
    }
}

/// What has become of a file in the index, as it is shown.
pub open spec fn upper_char(state: FileState) -> char {
    match state {
        FileState::New => 'A',
        FileState::Modified => 'M',
        FileState::Deleted => 'D',
        FileState::Renamed => 'R',
        FileState::TypeChange => 'D',
        FileState::Unchanged => '-',
    }
}

/// The two letters of a file, as text.
fn state_letters(index: FileState, worktree: FileState) -> (r: String)
    ensures
        r@ == seq![upper_char(index), state_char(worktree)],
{
    proof {
        reveal_strlit("A");
        reveal_strlit("M");
        reveal_strlit("D");
        reveal_strlit("R");
        reveal_strlit("-");
        reveal_strlit("a");
        reveal_strlit("m");
        reveal_strlit("d");
        reveal_strlit("r");
    }
    let first: &'static str = match index {
        FileState::New => "A",
        FileState::Modified => "M",
        FileState::Deleted => "D",
        FileState::Renamed => "R",
        FileState::TypeChange => "D",
        FileState::Unchanged => "-",
    };
    let second: &'static str = match worktree {
        FileState::New => "a",
        FileState::Modified => "m",
        FileState::Deleted => "d",
        FileState::Renamed => "r",
        FileState::TypeChange => "d",
        FileState::Unchanged => "-",
    };
    let r: String = concat2(first, second);
    assert(r@ =~= seq![upper_char(index), state_char(worktree)]);
    r
}

/// The line of a file: red where the working tree differs, else green.
pub open spec fn file_line(file: FileStatusView) -> FragmentView {
    piece(
        if file.worktree != FileState::Unchanged {
            Style::Red
        } else {
            Style::Green
        },
        " "@ + seq![upper_char(file.index), state_char(file.worktree)] + "     "@ + file.filename,
    )
}

/// The lines of files.
pub open spec fn file_lines(files: Seq<FileStatusView>) -> Seq<FragmentView> {
    files.map_values(|file: FileStatusView| file_line(file))
}

/// How a project is shown.
pub struct ProjectStatusDisplayData {
    pub location: Vec<Fragment>,
    pub branch: Vec<Fragment>,
    pub top_commit: String,
    pub files: Vec<Fragment>,
    pub dirty: bool,
}

/// How a project is shown, as a value.
#[verifier::ext_equal]
pub struct ProjectDisplayView {
    pub location: Seq<FragmentView>,
    pub branch: Seq<FragmentView>,
    pub top_commit: Seq<char>,
    pub files: Seq<FragmentView>,
    pub dirty: bool,
}

impl View for ProjectStatusDisplayData {
    type V = ProjectDisplayView;

    open spec fn view(&self) -> ProjectDisplayView {
        ProjectDisplayView {
            location: self.location.deep_view(),
            branch: self.branch.deep_view(),
            top_commit: self.top_commit@,
            files: self.files.deep_view(),
            dirty: self.dirty,
        }
    }
}

impl DeepView for ProjectStatusDisplayData {
    type V = ProjectDisplayView;

    open spec fn deep_view(&self) -> ProjectDisplayView {
        self@
    }
}

/// How a project is shown: it is dirty where it is on no branch or has changed files.
pub open spec fn displayed(status: ProjectStatusView) -> ProjectDisplayView {
    ProjectDisplayView {
        location: seq![piece(Style::Bold, "project "@ + status.path)],
        branch: seq![
            match status.branch {
                Some(branch) => piece(Style::BoldCyan, "branch "@ + branch),
                None => piece(Style::Red, "no branch"@),
            },
            piece(Style::Plain, ahead_behind_text(status.ahead, status.behind)),
        ],
        top_commit: match status.commit_summary {
            Some(summary) => summary,
            None => ""@,
        },
        files: file_lines(status.files),
        dirty: status.branch is None || status.files.len() > 0,
    }
}

impl ProjectStatusDisplayData {
    /// How a project is shown.
    pub fn from_status(status: &ProjectStatus) -> (r: ProjectStatusDisplayData)
        ensures
            r@ == displayed(status@),
    {
        let mut location: Vec<Fragment> = Vec::new();
        location.push(fragment(Style::Bold, concat2("project ", status.path.as_str()).as_str()));
        assert(location.deep_view() =~= displayed(status@).location);
        let mut branch: Vec<Fragment> = Vec::new();
        match &status.branch {
            Some(name) => {
                branch.push(
                    fragment(Style::BoldCyan, concat2("branch ", name.as_str()).as_str()),
                );
            },
            None => {
                branch.push(fragment(Style::Red, "no branch"));
            },
        }
        branch.push(fragment(Style::Plain, ahead_behind(status.ahead, status.behind).as_str()));
        assert(branch.deep_view() =~= displayed(status@).branch);
        let ghost all = status.files.deep_view();
        let mut files: Vec<Fragment> = Vec::new();
        let mut i: usize = 0;
        assert(files.deep_view() =~= file_lines(all).take(0));
        while i < status.files.len()
            invariant
                i <= status.files.len(),
                all == status.files.deep_view(),
                files.deep_view() == file_lines(all).take(i as int),
            decreases status.files.len() - i,
        {
            let ghost before = files.deep_view();
            let file: &FileStatus = &status.files[i];
            assert(all[i as int] == file@);
            let letters: String = state_letters(file.index, file.worktree);
            let line: String = concat4(" ", letters.as_str(), "     ", file.filename.as_str());
            let style: Style = if file.worktree != FileState::Unchanged {
                Style::Red
            } else {
                Style::Green
            };
            files.push(fragment(style, line.as_str()));
            assert(files.deep_view() =~= before.push(file_line(all[i as int])));
            assert(files.deep_view() =~= file_lines(all).take(i + 1));
            i += 1;
        }
        assert(files.deep_view() =~= file_lines(all));
        let dirty: bool = status.branch.is_none() || status.files.len() > 0;
        ProjectStatusDisplayData {
            location,
            branch,
            top_commit: match &status.commit_summary {
                Some(summary) => summary.clone(),
                None => "".to_owned(),
            },
            files,
            dirty,
        }
    }
}

/// Something is said of a project: it is ahead, behind, or has changed files.
pub open spec fn is_reported(status: ProjectStatusView) -> bool {
    status.ahead != 0 || status.behind != 0 || status.files.len() > 0
}

/// How the projects of which something is said are shown, in order.
pub open spec fn displayed_projects(statuses: Seq<ProjectStatusView>) -> Seq<ProjectDisplayView>
    decreases statuses.len(),
{
    if statuses.len() == 0 {
        Seq::empty()
    } else {
        let front = displayed_projects(statuses.drop_last());
        if is_reported(statuses.last()) {
            front.push(displayed(statuses.last()))
        } else {
            front
        }
    }
}

/// The greatest of the numbers, or zero.
pub open spec fn greatest(numbers: Seq<usize>) -> usize
    decreases numbers.len(),
{
    if numbers.len() == 0 {
        0
    } else {
        let front = greatest(numbers.drop_last());
        if numbers.last() > front {
            numbers.last()
        } else {
            front
        }
    }
}

/// The columns that the first column of each project takes.
pub open spec fn location_widths(projects: Seq<ProjectDisplayView>) -> Seq<usize> {
    projects.map_values(|p: ProjectDisplayView| text_width(plain_text(p.location)))
}

/// The columns that the second column of each project takes.
pub open spec fn branch_widths(projects: Seq<ProjectDisplayView>) -> Seq<usize> {
    projects.map_values(|p: ProjectDisplayView| text_width(plain_text(p.branch)))
}

/// None of the numbers exceeds the greatest.
pub proof fn law_greatest(numbers: Seq<usize>, i: int)
    requires
        0 <= i < numbers.len(),
    ensures
        numbers[i] <= greatest(numbers),
    decreases numbers.len(),
{
    if i < numbers.len() - 1 {
        law_greatest(numbers.drop_last(), i);
    }
}

/// How a tree is shown: its projects, and the widths of their columns.
pub struct TreeStatusDisplayData {
    pub projects: Vec<ProjectStatusDisplayData>,
    pub max_project_length: usize,
    pub max_branch_length: usize,
}

impl TreeStatusDisplayData {
    /// How a tree is shown.
    pub fn from_results(results: &Vec<ProjectStatus>) -> (r: TreeStatusDisplayData)
        ensures
            r.projects.deep_view() == displayed_projects(results.deep_view()),
            r.max_project_length == greatest(
                location_widths(displayed_projects(results.deep_view())),
            ),
            r.max_branch_length == greatest(
                branch_widths(displayed_projects(results.deep_view())),
            ),
    {
        let ghost all = results.deep_view();
        let mut projects: Vec<ProjectStatusDisplayData> = Vec::new();
        let mut max_project_length: usize = 0;
        let mut max_branch_length: usize = 0;
        let mut i: usize = 0;
        assert(projects.deep_view() =~= Seq::empty());
        while i < results.len()
            invariant
                i <= results.len(),
                all == results.deep_view(),
                projects.deep_view() == displayed_projects(all.take(i as int)),
                max_project_length == greatest(location_widths(projects.deep_view())),
                max_branch_length == greatest(branch_widths(projects.deep_view())),
            decreases results.len() - i,
        {
            assert(all[i as int] == results@[i as int]@);
            assert(all.take(i + 1).drop_last() =~= all.take(i as int));
            if TreeStatusDisplayData::should_report(&results[i]) {
                let ghost before = projects.deep_view();
                let project: ProjectStatusDisplayData = ProjectStatusDisplayData::from_status(
                    &results[i],
                );
                let ghost added = project@;
                let location: usize = measure_text_width(plain(&project.location).as_str());
                let branch: usize = measure_text_width(plain(&project.branch).as_str());
                if location > max_project_length {
                    max_project_length = location;
                }
                if branch > max_branch_length {
                    max_branch_length = branch;
                }
                projects.push(project);
                assert(projects.deep_view() =~= before.push(added));
                assert(location_widths(before.push(added)).drop_last() =~= location_widths(before));
                assert(branch_widths(before.push(added)).drop_last() =~= branch_widths(before));
            }
            i += 1;
        }
        assert(all.take(all.len() as int) =~= all);
        TreeStatusDisplayData { projects, max_project_length, max_branch_length }
    }

    /// Whether something is said of a project.
    pub fn should_report(status: &ProjectStatus) -> (r: bool)
        ensures
            r == is_reported(status@),
    {
        status.ahead != 0 || status.behind != 0 || status.files.len() > 0
    }
}

/// A run of blanks.
pub open spec fn blanks(n: nat) -> Seq<char> {
    Seq::new(n, |i: int| ' ')
}

/// The blanks behind a text of the given width in a column whose widest text has the other width:
/// four more than it takes to reach that.
pub open spec fn column_blanks(width: int, widest: int) -> Seq<char> {
    if width >= widest + 4 {
        Seq::empty()
    } else {
        blanks((widest + 4 - width) as nat)
    }
}

/// Adds blanks to a text.
fn add_blanks(text: &mut String, count: usize)
    ensures
        final(text)@ == old(text)@ + blanks(count as nat),
{
    proof {
        reveal_strlit(" ");
    }
    let ghost before = text@;
    let mut i: usize = 0;
    assert(before + blanks(0) =~= before);
    while i < count
        invariant
            i <= count,
            " "@ == seq![' '],
            text@ == before + blanks(i as nat),
        decreases count - i,
    {
        text.append(" ");
        i += 1;
        assert(text@ =~= before + blanks(i as nat));
    }
}

/// The blanks behind a text in a column.
pub fn pad_column(width: usize, widest: usize) -> (r: String)
    ensures
        r@ == column_blanks(width as int, widest as int),
{
    let mut r: String = String::new();
    if width <= widest {
        add_blanks(&mut r, widest - width);
        add_blanks(&mut r, 4);
    } else if width - widest < 4 {
        add_blanks(&mut r, 4 - (width - widest));
    }
    assert(r@ =~= column_blanks(width as int, widest as int));
    r
}

/// The columns line up: whatever a text's own width, with the blanks behind it it takes four
/// columns more than the widest.
pub proof fn law_columns_line_up(widths: Seq<usize>, i: int)
    requires
        0 <= i < widths.len(),
    ensures
        widths[i] + column_blanks(widths[i] as int, greatest(widths) as int).len() == greatest(
            widths,
        ) + 4,
{
    law_greatest(widths, i);
}

/// The first line of a project: its columns, or only the first where the rest is not wanted.
pub open spec fn status_row(
    project: ProjectDisplayView,
    widest_location: usize,
    widest_branch: usize,
    quiet: bool,
) -> Seq<FragmentView> {
    let first = project.location.push(
        piece(
            Style::Plain,
            column_blanks(text_width(plain_text(project.location)) as int, widest_location as int),
        ),
    );
    if quiet {
        first
    } else {
        (first + project.branch).push(
            piece(
                Style::Plain,
                column_blanks(text_width(plain_text(project.branch)) as int, widest_branch as int),
            ),
        ).push(
            piece(Style::Plain, truncated_text(project.top_commit, SUMMARY_WIDTH, "..."@)),
        )
    }
}

/// Adds copies of pieces to a line.
fn add_pieces(line: &mut Vec<Fragment>, pieces: &Vec<Fragment>)
    ensures
        final(line).deep_view() == old(line).deep_view() + pieces.deep_view(),
{
    let ghost before = line.deep_view();
    let ghost all = pieces.deep_view();
    let mut i: usize = 0;
    assert(before + all.take(0) =~= before);
    while i < pieces.len()
        invariant
            i <= pieces.len(),
            all == pieces.deep_view(),
            line.deep_view() == before + all.take(i as int),
        decreases pieces.len() - i,
    {
        let ghost now = line.deep_view();
        assert(all[i as int] == pieces@[i as int]@);
        line.push(fragment(pieces[i].style, pieces[i].text.as_str()));
        assert(line.deep_view() =~= now.push(all[i as int]));
        assert(line.deep_view() =~= before + all.take(i + 1));
        i += 1;
    }
    assert(all.take(all.len() as int) =~= all);
}

/// Adds a piece to a line.
fn add_piece(line: &mut Vec<Fragment>, text: &str)
    ensures
        final(line).deep_view() == old(line).deep_view().push(piece(Style::Plain, text@)),
{
    let ghost before = line.deep_view();
    line.push(fragment(Style::Plain, text));
    assert(line.deep_view() =~= before.push(piece(Style::Plain, text@)));
}

/// The first line of a project.
pub fn project_row(
    project: &ProjectStatusDisplayData,
    max_project_length: usize,
    max_branch_length: usize,
    quiet: bool,
) -> (r: Vec<Fragment>)
    ensures
        r.deep_view() == status_row(project@, max_project_length, max_branch_length, quiet),
{
    let mut row: Vec<Fragment> = Vec::new();
    assert(row.deep_view() =~= Seq::empty());
    add_pieces(&mut row, &project.location);
    assert(row.deep_view() =~= project@.location);
    let location: usize = measure_text_width(plain(&project.location).as_str());
    add_piece(&mut row, pad_column(location, max_project_length).as_str());
    if quiet {
        return row;
    }
    add_pieces(&mut row, &project.branch);
    let branch: usize = measure_text_width(plain(&project.branch).as_str());
    add_piece(&mut row, pad_column(branch, max_branch_length).as_str());
    let summary: String = truncate_str(project.top_commit.as_str(), SUMMARY_WIDTH, "...");
    add_piece(&mut row, summary.as_str());
    row
}

/// The lines of a project: its row, and its files unless only the first column is wanted.
pub open spec fn project_lines(
    project: ProjectDisplayView,
    widest_location: usize,
    widest_branch: usize,
    quiet: bool,
) -> Seq<Seq<FragmentView>> {
    seq![status_row(project, widest_location, widest_branch, quiet)] + (if quiet {
        Seq::empty()
    } else {
        project.files.map_values(|file: FragmentView| seq![file])
    })
}

/// The lines of projects.
pub open spec fn projects_lines(
    projects: Seq<ProjectDisplayView>,
    widest_location: usize,
    widest_branch: usize,
    quiet: bool,
) -> Seq<Seq<FragmentView>>
    decreases projects.len(),
{
    if projects.len() == 0 {
        Seq::empty()
    } else {
        projects_lines(projects.drop_last(), widest_location, widest_branch, quiet)
            + project_lines(projects.last(), widest_location, widest_branch, quiet)
    }
}

/// Adds the lines of a project.
fn add_project_lines(
    lines: &mut Vec<Vec<Fragment>>,
    project: &ProjectStatusDisplayData,
    max_project_length: usize,
    max_branch_length: usize,
    quiet: bool,
)
    ensures
        final(lines).deep_view() == old(lines).deep_view() + project_lines(
            project@,
            max_project_length,
            max_branch_length,
            quiet,
        ),
{
    let ghost before = lines.deep_view();
    let ghost expected = project_lines(project@, max_project_length, max_branch_length, quiet);
    let row: Vec<Fragment> = project_row(project, max_project_length, max_branch_length, quiet);
    add_line(lines, row);
    assert(lines.deep_view() =~= before + expected.take(1));
    if quiet {
        assert(expected.take(1) =~= expected);
        return ;
    }
    let mut i: usize = 0;
    while i < project.files.len()
        invariant
            i <= project.files.len(),
            !quiet,
            expected == project_lines(project@, max_project_length, max_branch_length, quiet),
            lines.deep_view() == before + expected.take(i + 1),
        decreases project.files.len() - i,
    {
        assert(project@.files[i as int] == project.files@[i as int]@);
        let mut line: Vec<Fragment> = Vec::new();
        line.push(fragment(project.files[i].style, project.files[i].text.as_str()));
        assert(line.deep_view() =~= seq![project@.files[i as int]]);
        assert(expected[i + 1] == seq![project@.files[i as int]]);
        add_line(lines, line);
        assert(lines.deep_view() =~= before + expected.take(i + 2));
        i += 1;
    }
    assert(expected.take(expected.len() as int) =~= expected);
}

/// All that is shown of a tree, line by line.
pub fn status_lines(data: &TreeStatusDisplayData, quiet: bool) -> (r: Vec<Vec<Fragment>>)
    ensures
        r.deep_view() == projects_lines(
            data.projects.deep_view(),
            data.max_project_length,
            data.max_branch_length,
            quiet,
        ),
{
    let ghost all = data.projects.deep_view();
    let mut lines: Vec<Vec<Fragment>> = Vec::new();
    let mut i: usize = 0;
    assert(lines.deep_view() =~= Seq::empty());
    while i < data.projects.len()
        invariant
            i <= data.projects.len(),
            all == data.projects.deep_view(),
            lines.deep_view() == projects_lines(
                all.take(i as int),
                data.max_project_length,
                data.max_branch_length,
                quiet,
            ),
        decreases data.projects.len() - i,
    {
        assert(all[i as int] == data.projects@[i as int]@);
        assert(all.take(i + 1).drop_last() =~= all.take(i as int));
        add_project_lines(
            &mut lines,
            &data.projects[i],
            data.max_project_length,
            data.max_branch_length,
            quiet,
        );
        i += 1;
    }
    assert(all.take(all.len() as int) =~= all);
    lines
}

/// The number of dirty projects.
pub open spec fn dirty_count(projects: Seq<ProjectDisplayView>) -> nat
    decreases projects.len(),
{
    if projects.len() == 0 {
        0
    } else {
        dirty_count(projects.drop_last()) + (if projects.last().dirty {
            1nat
        } else {
            0nat
        })
    }
}

/// The number of dirty projects among those that are shown.
pub fn count_dirty(projects: &Vec<ProjectStatusDisplayData>) -> (r: usize)
    ensures
        r == dirty_count(projects.deep_view()),
{
    let ghost all = projects.deep_view();
    let mut count: usize = 0;
    let mut i: usize = 0;
    while i < projects.len()
        invariant
            i <= projects.len(),
            all == projects.deep_view(),
            count == dirty_count(all.take(i as int)),
            count <= i,
        decreases projects.len() - i,
    {
        assert(all[i as int] == projects@[i as int]@);
        assert(all.take(i + 1).drop_last() =~= all.take(i as int));
        if projects[i].dirty {
            count += 1;
        }
        i += 1;
    }
    assert(all.take(all.len() as int) =~= all);
    count
}

/// The exit code of showing the status: the number of dirty projects, unless the status of some
/// project could not be found.
pub fn status_code(projects: &Vec<ProjectStatusDisplayData>, failed: usize) -> (r: Result<
    i32,
    TasksFailed,
>)
    requires
        dirty_count(projects.deep_view()) <= i32::MAX,
    ensures
        match r {
            Ok(code) => failed == 0 && code == dirty_count(projects.deep_view()),
            Err(error) => failed > 0 && error.count == failed,
        },
{
    match check_failed(failed) {
        Ok(()) => Ok(count_dirty(projects) as i32),
        Err(error) => Err(error),
    }
}

/// How far a branch is from its upstream is said of each direction in which it is away, and of no
/// other.
pub proof fn law_distance_is_told(ahead: usize, behind: usize)
    ensures
        ahead_behind_text(0, 0) == ""@,
        ahead > 0 ==> ahead_behind_text(ahead, 0) == " [ahead "@ + decimal(ahead as int) + "]"@,
        behind > 0 ==> ahead_behind_text(0, behind) == " [behind "@ + decimal(behind as int) + "]"@,
        ahead > 0 && behind > 0 ==> ahead_behind_text(ahead, behind) == " [ahead "@ + decimal(
            ahead as int,
        ) + ", behind "@ + (decimal(behind as int) + "]"@),
{
}

/// A file is shown by what has become of it in the index, in a capital, and in the working tree; in
/// red exactly where the working tree differs.
pub proof fn law_file_is_told(file: FileStatusView)
    ensures
        ({
            let line = file_line(file);
            &&& line.text.len() == 8 + file.filename.len()
            &&& line.text[0] == ' '
            &&& line.text[1] == upper_char(file.index)
            &&& line.text[2] == state_char(file.worktree)
            &&& file.filename.is_suffix_of(line.text)
            &&& line.style == Style::Red <==> file.worktree != FileState::Unchanged
            &&& line.style == Style::Green <==> file.worktree == FileState::Unchanged
            &&& file.index != FileState::Unchanged ==> upper_char(file.index) as int == state_char(
                file.index,
            ) as int - 32
            &&& file.index == FileState::Unchanged ==> upper_char(file.index) == '-'
        }),
{
    reveal_strlit(" ");
    reveal_strlit("     ");
    let text = file_line(file).text;
    assert(text.subrange(text.len() - file.filename.len(), text.len() as int) =~= file.filename);
}

/// A project is shown by its path, by its branch or that it is on none, and by how far that is from
/// its upstream; by the summary of its commit; and by each of its files, in order.
pub proof fn law_project_is_shown(status: ProjectStatusView, i: int)
    ensures
        ({
            let shown = displayed(status);
            let distance = ahead_behind_text(status.ahead, status.behind);
            &&& plain_text(shown.location) == "project "@ + status.path
            &&& status.branch matches Some(branch) ==> plain_text(shown.branch) == "branch "@
                + branch + distance
            &&& status.branch is None ==> plain_text(shown.branch) == "no branch"@ + distance
            &&& status.commit_summary matches Some(summary) ==> shown.top_commit == summary
            &&& status.commit_summary is None ==> shown.top_commit == ""@
            &&& shown.files.len() == status.files.len()
            &&& 0 <= i < status.files.len() ==> shown.files[i] == file_line(status.files[i])
            &&& shown.dirty <==> status.branch is None || status.files.len() > 0
        }),
{
    let shown = displayed(status);
    let empty = Seq::<FragmentView>::empty();
    law_plain_text(empty, empty, shown.location[0].style, shown.location[0].text);
    assert(shown.location =~= seq![shown.location[0]]);
    let first = seq![shown.branch[0]];
    let second = seq![shown.branch[1]];
    assert(shown.branch =~= first + second);
    law_plain_text(first, second, shown.branch[0].style, shown.branch[0].text);
    law_plain_text(first, second, shown.branch[1].style, shown.branch[1].text);
}

/// Each project is shown on its own and in order: exactly where it is ahead or behind or has
/// changed files.
pub proof fn law_projects_shown_one_by_one(
    statuses: Seq<ProjectStatusView>,
    status: ProjectStatusView,
)
    ensures
        status.ahead > 0 || status.behind > 0 || status.files.len() > 0 ==> displayed_projects(
            statuses.push(status),
        ) == displayed_projects(statuses).push(displayed(status)),
        status.ahead == 0 && status.behind == 0 && status.files.len() == 0 ==> displayed_projects(
            statuses.push(status),
        ) == displayed_projects(statuses),
        displayed_projects(Seq::empty()).len() == 0,
{
    assert(statuses.push(status).drop_last() =~= statuses);
}

/// The greatest of some numbers is one of them.
pub proof fn law_greatest_is_among(numbers: Seq<usize>)
    ensures
        numbers.len() > 0 ==> numbers.contains(greatest(numbers)),
        numbers.len() == 0 ==> greatest(numbers) == 0,
    decreases numbers.len(),
{
    if numbers.len() > 0 {
        let front = numbers.drop_last();
        law_greatest_is_among(front);
        assert(numbers[numbers.len() - 1] == numbers.last());
        if front.len() > 0 {
            let i = choose|i: int| 0 <= i < front.len() && front[i] == greatest(front);
            assert(numbers[i] == greatest(front));
        }
    }
}

/// A row holds the path of the project, and unless only that is wanted also its branch and the
/// summary of its commit, each in its column.
pub proof fn law_row_holds_columns(
    project: ProjectDisplayView,
    widest_location: usize,
    widest_branch: usize,
)
    ensures
        ({
            let quiet = status_row(project, widest_location, widest_branch, true);
            let whole = status_row(project, widest_location, widest_branch, false);
            let first = column_blanks(
                text_width(plain_text(project.location)) as int,
                widest_location as int,
            );
            let second = column_blanks(
                text_width(plain_text(project.branch)) as int,
                widest_branch as int,
            );
            &&& quiet.is_prefix_of(whole)
            &&& plain_text(quiet) == plain_text(project.location) + first
            &&& plain_text(whole) == plain_text(project.location) + first + plain_text(
                project.branch,
            ) + second + truncated_text(project.top_commit, SUMMARY_WIDTH, "..."@)
        }),
{
    let quiet = status_row(project, widest_location, widest_branch, true);
    let whole = status_row(project, widest_location, widest_branch, false);
    let first = column_blanks(
        text_width(plain_text(project.location)) as int,
        widest_location as int,
    );
    let second = column_blanks(
        text_width(plain_text(project.branch)) as int,
        widest_branch as int,
    );
    let summary = truncated_text(project.top_commit, SUMMARY_WIDTH, "..."@);
    assert(whole.subrange(0, quiet.len() as int) =~= quiet);
    assert(quiet =~= project.location + seq![piece(Style::Plain, first)]);
    law_plain_text(project.location, seq![piece(Style::Plain, first)], Style::Plain, first);
    law_plain_text(quiet, project.branch, Style::Plain, first);
    let columns = quiet + project.branch;
    law_plain_text(columns, seq![piece(Style::Plain, second)], Style::Plain, second);
    let padded = columns + seq![piece(Style::Plain, second)];
    law_plain_text(padded, seq![piece(Style::Plain, summary)], Style::Plain, summary);
    assert(whole =~= padded + seq![piece(Style::Plain, summary)]);
}

/// Each project is told of on its own and in order: by its row and then, unless only the first
/// column is wanted, by each of its files on a line.
pub proof fn law_lines_of_projects(
    projects: Seq<ProjectDisplayView>,
    project: ProjectDisplayView,
    widest_location: usize,
    widest_branch: usize,
    quiet: bool,
    i: int,
)
    ensures
        ({
            let before = projects_lines(projects, widest_location, widest_branch, quiet);
            let after = projects_lines(
                projects.push(project),
                widest_location,
                widest_branch,
                quiet,
            );
            &&& before.is_prefix_of(after)
            &&& after[before.len() as int] == status_row(
                project,
                widest_location,
                widest_branch,
                quiet,
            )
            &&& quiet ==> after.len() == before.len() + 1
            &&& !quiet ==> after.len() == before.len() + 1 + project.files.len()
            &&& !quiet && 0 <= i < project.files.len() ==> after[before.len() + 1 + i] == seq![
                project.files[i],
            ]
        }),
        projects_lines(Seq::empty(), widest_location, widest_branch, quiet).len() == 0,
{
    let before = projects_lines(projects, widest_location, widest_branch, quiet);
    let after = projects_lines(projects.push(project), widest_location, widest_branch, quiet);
    assert(projects.push(project).drop_last() =~= projects);
    assert(after.subrange(0, before.len() as int) =~= before);
}

/// Every dirty project counts once, and no other does.
pub proof fn law_dirty_projects_count(
    projects: Seq<ProjectDisplayView>,
    project: ProjectDisplayView,
)
    ensures
        project.dirty ==> dirty_count(projects.push(project)) == dirty_count(projects) + 1,
        !project.dirty ==> dirty_count(projects.push(project)) == dirty_count(projects),
        dirty_count(Seq::empty()) == 0,
{
    assert(projects.push(project).drop_last() =~= projects);
}

/// The columns are as wide as the widest text in them: of the projects that are shown none has a
/// wider one, and where any is shown one has that width.
pub proof fn law_columns_hold_widest(
    results: &Vec<ProjectStatus>,
    data: TreeStatusDisplayData,
    i: int,
)
    requires
        call_ensures(TreeStatusDisplayData::from_results, (results,), data),
        0 <= i < data.projects.deep_view().len(),
    ensures
        ({
            let shown = data.projects.deep_view();
            &&& text_width(plain_text(shown[i].location)) <= data.max_project_length
            &&& text_width(plain_text(shown[i].branch)) <= data.max_branch_length
            &&& exists|k: int|
                0 <= k < shown.len() && text_width(plain_text((#[trigger] shown[k]).location))
                    == data.max_project_length
            &&& exists|k: int|
                0 <= k < shown.len() && text_width(plain_text((#[trigger] shown[k]).branch))
                    == data.max_branch_length
        }),
{
    let shown = data.projects.deep_view();
    let locations = location_widths(shown);
    let branches = branch_widths(shown);
    law_greatest(locations, i);
    law_greatest(branches, i);
    law_greatest_is_among(locations);
    law_greatest_is_among(branches);
    let k = choose|k: int| 0 <= k < locations.len() && locations[k] == greatest(locations);
    assert(text_width(plain_text(shown[k].location)) == data.max_project_length);
    let l = choose|l: int| 0 <= l < branches.len() && branches[l] == greatest(branches);
    assert(text_width(plain_text(shown[l].branch)) == data.max_branch_length);
}

/// A column is filled up with blanks alone, and not at all where its text is wider than that.
pub proof fn law_columns_filled_with_blanks(width: int, widest: int, i: int)
    ensures
        0 <= i < column_blanks(width, widest).len() ==> column_blanks(width, widest)[i] == ' ',
        width >= widest + 4 ==> column_blanks(width, widest).len() == 0,
        width < widest + 4 ==> column_blanks(width, widest).len() == widest + 4 - width,
{
}

/// The code of showing the status is the number of dirty projects, unless the status of some
/// project could not be found.
pub proof fn law_status_code_counts(
    projects: &Vec<ProjectStatusDisplayData>,
    failed: usize,
    r: Result<i32, TasksFailed>,
)
    requires
        call_ensures(status_code, (projects, failed), r),
    ensures
        r is Ok <==> failed == 0,
        r is Ok ==> r->Ok_0 == dirty_count(projects.deep_view()),
        r is Err ==> r->Err_0.count == failed,
{
}

} // verus!
