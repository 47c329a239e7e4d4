use pore::display::{
    ahead_behind, count_dirty, pad_column, project_row, status_code, status_lines, ProjectStatusDisplayData,
    TreeStatusDisplayData,
};
use pore::style::{add_line, fragment, plain, Style};
use pore::tree::status::{FileState, FileStatus, Flags, ProjectStatus};

fn status(path: &str, branch: Option<&str>, ahead: usize, files: Vec<FileStatus>) -> ProjectStatus {
    ProjectStatus {
        path: path.to_string(),
        branch: branch.map(|b| b.to_string()),
        commit: "abc".to_string(),
        commit_summary: Some("A commit".to_string()),
        ahead,
        behind: 0,
        files,
    }
}

fn file(name: &str, index: FileState, worktree: FileState) -> FileStatus {
    FileStatus { filename: name.to_string(), index, worktree }
}

fn flags() -> Flags {
    Flags { new: false, modified: false, deleted: false, renamed: false, typechange: false }
}

#[test]
fn states_of_files() {
    assert_eq!(FileState::New.to_char(), 'a');
    assert_eq!(FileState::Modified.to_char(), 'm');
    assert_eq!(FileState::Deleted.to_char(), 'd');
    assert_eq!(FileState::Renamed.to_char(), 'r');
    assert_eq!(FileState::TypeChange.to_char(), 'd');
    assert_eq!(FileState::Unchanged.to_char(), '-');
    assert!(matches!(FileState::from_flags(flags()), FileState::Unchanged));
    assert!(matches!(
        FileState::from_flags(Flags { modified: true, deleted: true, ..flags() }),
        FileState::Modified
    ));
    assert!(matches!(FileState::from_flags(Flags { typechange: true, ..flags() }), FileState::TypeChange));
    let unnamed = FileStatus::from_git(None, Flags { new: true, ..flags() }, flags());
    assert_eq!(unnamed.filename, "???");
    assert!(matches!(unnamed.index, FileState::New));
    assert!(matches!(unnamed.worktree, FileState::Unchanged));
}

#[test]
fn ahead_and_behind() {
    assert_eq!(ahead_behind(0, 0), "");
    assert_eq!(ahead_behind(2, 0), " [ahead 2]");
    assert_eq!(ahead_behind(0, 3), " [behind 3]");
    assert_eq!(ahead_behind(2, 3), " [ahead 2, behind 3]");
}

#[test]
fn a_project_is_shown() {
    let files = vec![
        file("new", FileState::New, FileState::Unchanged),
        file("changed", FileState::Unchanged, FileState::Modified),
    ];
    let data = ProjectStatusDisplayData::from_status(&status("p", Some("b"), 1, files));
    assert_eq!(plain(&data.location), "project p");
    assert!(matches!(data.location[0].style, Style::Bold));
    assert_eq!(plain(&data.branch), "branch b [ahead 1]");
    assert!(matches!(data.branch[0].style, Style::BoldCyan));
    assert_eq!(data.top_commit, "A commit");
    assert_eq!(data.files[0].text, " A-     new");
    assert!(matches!(data.files[0].style, Style::Green));
    assert_eq!(data.files[1].text, " -m     changed");
    assert!(matches!(data.files[1].style, Style::Red));
    assert!(data.dirty);
    let detached = ProjectStatusDisplayData::from_status(&status("p", None, 0, Vec::new()));
    assert_eq!(plain(&detached.branch), "no branch");
    assert!(matches!(detached.branch[0].style, Style::Red));
    assert!(detached.dirty);
    let clean = ProjectStatusDisplayData::from_status(&status("p", Some("b"), 1, Vec::new()));
    assert!(!clean.dirty);
}

#[test]
fn columns_line_up() {
    let data = TreeStatusDisplayData::from_results(&vec![
        status("\u{4e2d}", Some("b"), 1, Vec::new()),
        status("longer", Some("branch"), 1, vec![file("f", FileState::New, FileState::Unchanged)]),
        status("clean", Some("b"), 0, Vec::new()),
    ]);
    assert_eq!(data.projects.len(), 2);
    assert_eq!(data.max_project_length, "project longer".len());
    assert_eq!(data.max_branch_length, "branch branch [ahead 1]".len());
    let lines: Vec<String> = status_lines(&data, false).iter().map(|l| plain(l)).collect();
    assert_eq!(
        lines,
        vec![
            "project \u{4e2d}        branch b [ahead 1]         A commit",
            "project longer    branch branch [ahead 1]    A commit",
            " A-     f",
        ]
    );
    let quiet: Vec<String> = status_lines(&data, true).iter().map(|l| plain(l)).collect();
    assert_eq!(quiet, vec!["project \u{4e2d}        ", "project longer    "]);
    assert_eq!(count_dirty(&data.projects), 1);
    assert!(matches!(status_code(&data.projects, 0), Ok(1)));
    assert!(matches!(status_code(&data.projects, 3), Err(e) if e.count == 3));
    assert!(!TreeStatusDisplayData::should_report(&status("clean", None, 0, Vec::new())));
}

#[test]
fn long_messages_are_cut() {
    let mut long = status("p", Some("b"), 1, Vec::new());
    long.commit_summary = Some("x".repeat(60));
    let data = ProjectStatusDisplayData::from_status(&long);
    let row = plain(&project_row(&data, 9, 18, false));
    assert_eq!(row, format!("project p    branch b [ahead 1]    {}...", "x".repeat(50)));
    long.commit_summary = None;
    let data = ProjectStatusDisplayData::from_status(&long);
    assert_eq!(plain(&project_row(&data, 0, 0, false)), "project pbranch b [ahead 1]");
}

#[test]
fn padding() {
    assert_eq!(pad_column(3, 5), "      ");
    assert_eq!(pad_column(5, 5), "    ");
    assert_eq!(pad_column(9, 5), "");
    assert_eq!(pad_column(10, 5), "");
}

#[test]
fn lines_of_fragments() {
    let mut lines = Vec::new();
    add_line(&mut lines, vec![fragment(Style::Bold, "a"), fragment(Style::Plain, "b")]);
    assert_eq!(plain(&lines[0]), "ab");
}
