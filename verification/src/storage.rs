//! The history file: where it may stand, and what goes wrong with it.
//!
//! The file stands in the user's cache directory. Nothing that goes wrong
//! with it ends the session: the program gives a warning and goes on with a
//! history that lives for the session only, or with what could be read.

use std::path::PathBuf;
use vstd::prelude::*;
use vstd::string::*;

verus! {

/// Name of the history file in the user's cache directory.
pub const FILE_NAME: &'static str = "lace-debugger-history";

/// What went wrong with the history file. None of it ends the session: the
/// history then lives for the session only, or starts with what could be read.
#[derive(Debug, PartialEq, Eq)]
pub enum HistoryFileError {
    /// No cache directory is known for the user.
    NoCacheDir,
    /// The cache directory, given by its path, is missing or is no directory.
    ParentNotDirectory(String),
    /// The history file, given by its path, exists and is no regular file.
    NotRegularFile(String),
    /// The history file, given by its path, could not be opened.
    OpenFailed(String),
    /// The history file could not be read to its end.
    ReadFailed,
    /// A record could not be appended to the history file.
    WriteFailed,
}

/// What the program found where the history file should stand.
pub struct FileProbe {
    /// Path of the user's cache directory, as it is shown to the user.
    pub dir: String,
    /// Whether that path is a directory.
    pub dir_is_dir: bool,
    /// Path of the history file in that directory, as it is shown to the user.
    pub path: String,
    /// Whether anything stands at the path of the history file.
    pub path_exists: bool,
    /// Whether a regular file stands there.
    pub path_is_file: bool,
}

/// A path of the file system. The library hands it on and never looks inside.
#[verifier::external_type_specification]
#[verifier::external_body]
pub struct ExPathBuf(PathBuf);

/// `dirs_next::cache_dir` gives the user's cache directory, or nothing where
/// the system names none. What it gives depends on the system and the user,
/// so nothing is claimed of it.
pub assume_specification[ dirs_next::cache_dir ]() -> (dir: Option<PathBuf>)
;

impl HistoryFileError {
    /// What the warning says after its heading.
    pub open spec fn detail(self) -> Seq<char> {
        match self {
            HistoryFileError::NoCacheDir => "Cannot retrieve user cache directory. Eg. $XDG_CACHE_HOME"@,
            HistoryFileError::ParentNotDirectory(path) => "Parent directory is not a directory: "@
                + path@,
            HistoryFileError::NotRegularFile(path) => "File exists but is not a regular file: "@
                + path@,
            HistoryFileError::OpenFailed(path) => "Failed to open file: "@ + path@,
            HistoryFileError::ReadFailed => "Failed to read from file"@,
            HistoryFileError::WriteFailed => "Failed to write to file"@,
        }
    }

    /// The warning in full.
    pub open spec fn message_text(self) -> Seq<char> {
        "Error with debugger history file: "@ + self.detail()
    }

    /// The warning to show to the user.
    pub fn message(&self) -> (text: String)
        ensures
            text@ == self.message_text(),
    {
        let mut text = String::from_str("Error with debugger history file: ");
        match self {
            HistoryFileError::NoCacheDir => {
                text.append("Cannot retrieve user cache directory. Eg. $XDG_CACHE_HOME");
            },
            HistoryFileError::ParentNotDirectory(path) => {
                text.append("Parent directory is not a directory: ");
                text.append(path.as_str());
            },
            HistoryFileError::NotRegularFile(path) => {
                text.append("File exists but is not a regular file: ");
                text.append(path.as_str());
            },
            HistoryFileError::OpenFailed(path) => {
                text.append("Failed to open file: ");
                text.append(path.as_str());
            },
            HistoryFileError::ReadFailed => {
                text.append("Failed to read from file");
            },
            HistoryFileError::WriteFailed => {
                text.append("Failed to write to file");
            },
        }
        assert(text@ =~= self.message_text());
        text
    }
}

impl FileProbe {
    /// Whether the history file may be opened, or created, at its path: the
    /// cache directory is a directory, and nothing but a regular file stands
    /// at the path.
    pub open spec fn usable(self) -> bool {
        self.dir_is_dir && (self.path_exists ==> self.path_is_file)
    }

    /// What stands against opening the history file. The cache directory is
    /// judged first, then the path of the file itself.
    pub open spec fn obstacle(self) -> HistoryFileError
        recommends
            !self.usable(),
    {
        if !self.dir_is_dir {
            HistoryFileError::ParentNotDirectory(self.dir)
        } else {
            HistoryFileError::NotRegularFile(self.path)
        }
    }
}

/// Judges what was found for the user's cache directory: without one there
/// is no place for the history file.
pub fn require_cache_dir(dir: Option<PathBuf>) -> (found: Result<PathBuf, HistoryFileError>)
    ensures
        match dir {
            Some(path) => found == Ok::<PathBuf, HistoryFileError>(path),
            None => found == Err::<PathBuf, HistoryFileError>(HistoryFileError::NoCacheDir),
        },
{
    match dir {
        Some(path) => Ok(path),
        None => Err(HistoryFileError::NoCacheDir),
    }
}

/// Asks for the user's cache directory, in which the history file stands.
/// The only error is that there is none.
pub fn cache_dir() -> (found: Result<PathBuf, HistoryFileError>)
    ensures
        found matches Err(error) ==> error == HistoryFileError::NoCacheDir,
{
    require_cache_dir(dirs_next::cache_dir())
}

/// Decides from `probe` whether the history file may be opened at its path,
/// and names the obstacle if it may not.
pub fn get_file(probe: &FileProbe) -> (decision: Result<(), HistoryFileError>)
    ensures
        decision is Ok <==> probe.usable(),
        decision matches Err(error) ==> error == probe.obstacle(),
{
    if !probe.dir_is_dir {
        Err(HistoryFileError::ParentNotDirectory(probe.dir.clone()))
    } else if probe.path_exists && !probe.path_is_file {
        Err(HistoryFileError::NotRegularFile(probe.path.clone()))
    } else {
        Ok(())
    }
}

} // verus!
