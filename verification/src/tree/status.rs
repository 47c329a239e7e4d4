//! The state of the files and of the commits of projects.
use vstd::prelude::*;

verus! {

/// What has become of a file.
#[derive(Copy, Clone, PartialEq, Eq, Structural, Debug)]
pub enum FileState {
    New,
    Modified,
    Deleted,
    Renamed,
    TypeChange,
    Unchanged,
}

/// What has become of a file, as it is shown.
pub open spec fn state_char(state: FileState) -> char {
    match state {
        FileState::New => 'a',
        FileState::Modified => 'm',
        FileState::Deleted => 'd',
        FileState::Renamed => 'r',
        FileState::TypeChange => 'd',
        FileState::Unchanged => '-',
    }
}

/// What git says of a file in the index or in the working tree; more than one can hold.
#[derive(Copy, Clone, PartialEq, Eq, Structural, Debug)]
pub struct Flags {
    pub new: bool,
    pub modified: bool,
    pub deleted: bool,
    pub renamed: bool,
    pub typechange: bool,
}

/// The state that counts where more than one holds: the first of new, modified, deleted, renamed
/// and of another type.
pub open spec fn state_of(flags: Flags) -> FileState {
    if flags.new {
        FileState::New
    } else if flags.modified {
        FileState::Modified
    } else if flags.deleted {
        FileState::Deleted
    } else if flags.renamed {
        FileState::Renamed
    } else if flags.typechange {
        FileState::TypeChange
    } else {
        FileState::Unchanged
    }
}

impl FileState {
    /// The state as it is shown.
    pub fn to_char(&self) -> (r: char)
        ensures
            r == state_char(*self),
    {
        match self {
            FileState::New => 'a',
            FileState::Modified => 'm',
            FileState::Deleted => 'd',
            FileState::Renamed => 'r',
            FileState::TypeChange => 'd',
            FileState::Unchanged => '-',
        }
    }

    /// The state that counts.
    pub fn from_flags(flags: Flags) -> (r: FileState)
        ensures
            r == state_of(flags),
    {
        if flags.new {
            FileState::New
        } else if flags.modified {
            FileState::Modified
        } else if flags.deleted {
            FileState::Deleted
        } else if flags.renamed {
            FileState::Renamed
        } else if flags.typechange {
            FileState::TypeChange
        } else {
            FileState::Unchanged
        }
    }
}

/// A file that is not as it was committed.
pub struct FileStatus {
    pub filename: String,
    pub index: FileState,
    pub worktree: FileState,
}

/// A file that is not as it was committed, as a value.
pub struct FileStatusView {
    pub filename: Seq<char>,
    pub index: FileState,
    pub worktree: FileState,
}

impl View for FileStatus {
    type V = FileStatusView;

    open spec fn view(&self) -> FileStatusView {
        FileStatusView {
            filename: self.filename@,
            index: self.index,
            worktree: self.worktree,
        }
    }
}

impl DeepView for FileStatus {
    type V = FileStatusView;

    open spec fn deep_view(&self) -> FileStatusView {
        self@
    }
}

impl FileStatus {
    /// The status of a file, from its name and what git says of it; a name that is no text is
    /// shown as `???`.
    pub fn from_git(path: Option<String>, index: Flags, worktree: Flags) -> (r: FileStatus)
        ensures
            r@ == (FileStatusView {
                filename: match path {
                    Some(name) => name@,
                    None => "???"@,
                },
                index: state_of(index),
                worktree: state_of(worktree),
            }),
    {
        FileStatus {
            filename: match path {
                Some(name) => name,
                None => "???".to_owned(),
            },
            index: FileState::from_flags(index),
            worktree: FileState::from_flags(worktree),
        }
    }
}

/// The state of a project.
pub struct ProjectStatus {
    pub path: String,
    pub branch: Option<String>,
    pub commit: String,
    pub commit_summary: Option<String>,
    pub ahead: usize,
    pub behind: usize,
    pub files: Vec<FileStatus>,
}

/// The state of a project, as a value.
#[verifier::ext_equal]
pub struct ProjectStatusView {
    pub path: Seq<char>,
    pub branch: Option<Seq<char>>,
    pub commit: Seq<char>,
    pub commit_summary: Option<Seq<char>>,
    pub ahead: usize,
    pub behind: usize,
    pub files: Seq<FileStatusView>,
}

impl View for ProjectStatus {
    type V = ProjectStatusView;

    open spec fn view(&self) -> ProjectStatusView {
        ProjectStatusView {
            path: self.path@,
            branch: self.branch.deep_view(),
            commit: self.commit@,
            commit_summary: self.commit_summary.deep_view(),
            ahead: self.ahead,
            behind: self.behind,
            files: self.files.deep_view(),
        }
    }
}

impl DeepView for ProjectStatus {
    type V = ProjectStatusView;

    open spec fn deep_view(&self) -> ProjectStatusView {
        self@
    }
}

/// Of what holds of a file, new counts before everything, then modified, deleted, renamed and of
/// another type, whatever else holds; where nothing holds the file is unchanged.
pub proof fn law_state_that_counts(flags: Flags)
    ensures
        state_of((Flags { new: true, ..flags })) == FileState::New,
        state_of((Flags { new: false, modified: true, ..flags })) == FileState::Modified,
        state_of((Flags { new: false, modified: false, deleted: true, ..flags }))
            == FileState::Deleted,
        state_of(
            (Flags { new: false, modified: false, deleted: false, renamed: true, ..flags }),
        ) == FileState::Renamed,
        state_of(
            (Flags {
                new: false,
                modified: false,
                deleted: false,
                renamed: false,
                typechange: true,
            }),
        ) == FileState::TypeChange,
        state_of(flags) == FileState::Unchanged <==> !flags.new && !flags.modified && !flags.deleted
            && !flags.renamed && !flags.typechange,
{
}

/// Files are told apart by the letter that is shown, but for those that are deleted and those that
/// became of another type, which are shown alike; only unchanged files are shown without a letter.
pub proof fn law_letters_tell_states(a: FileState, b: FileState)
    ensures
        state_char(a) == state_char(b) <==> a == b || (a == FileState::Deleted && b
            == FileState::TypeChange) || (a == FileState::TypeChange && b == FileState::Deleted),
        state_char(FileState::New) == 'a',
        state_char(FileState::Modified) == 'm',
        state_char(FileState::Deleted) == 'd',
        state_char(FileState::Renamed) == 'r',
        state_char(FileState::Unchanged) == '-',
{
}

/// The index and the working tree are told each by its own flags, and a file whose name is no text
/// by question marks.
pub proof fn law_file_status_of_both(
    path: Option<String>,
    index: Flags,
    worktree: Flags,
    status: FileStatus,
)
    requires
        call_ensures(FileStatus::from_git, (path, index, worktree), status),
    ensures
        status@.index == state_of(index),
        status@.worktree == state_of(worktree),
        path matches Some(name) ==> status@.filename == name@,
        path is None ==> status@.filename == "???"@,
{
}

} // verus!
