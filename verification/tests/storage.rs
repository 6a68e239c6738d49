use lace::storage::{
    cache_dir, get_file, require_cache_dir, FileProbe, HistoryFileError, FILE_NAME,
};
use std::path::PathBuf;

fn probe() -> FileProbe {
    FileProbe {
        dir: "/home/user/.cache".to_string(),
        dir_is_dir: true,
        path: "/home/user/.cache/lace-debugger-history".to_string(),
        path_exists: true,
        path_is_file: true,
    }
}

#[test]
fn file_name() {
    assert_eq!(FILE_NAME, "lace-debugger-history");
}

#[test]
fn usable_location() {
    assert_eq!(get_file(&probe()), Ok(()));
    let absent = FileProbe { path_exists: false, path_is_file: false, ..probe() };
    assert_eq!(get_file(&absent), Ok(()));
}

#[test]
fn no_cache_directory() {
    assert_eq!(require_cache_dir(None), Err(HistoryFileError::NoCacheDir));
}

#[test]
fn known_cache_directory() {
    let dir = PathBuf::from("/home/user/.cache");
    assert_eq!(require_cache_dir(Some(dir.clone())), Ok(dir));
}

#[test]
fn cache_directory_of_this_system() {
    match cache_dir() {
        Ok(dir) => assert!(!dir.as_os_str().is_empty()),
        Err(error) => assert_eq!(error, HistoryFileError::NoCacheDir),
    }
}

#[test]
fn cache_directory_is_no_directory() {
    let found = FileProbe { dir_is_dir: false, ..probe() };
    assert_eq!(
        get_file(&found),
        Err(HistoryFileError::ParentNotDirectory("/home/user/.cache".to_string()))
    );
    let found = FileProbe { dir_is_dir: false, path_is_file: false, ..probe() };
    assert_eq!(
        get_file(&found),
        Err(HistoryFileError::ParentNotDirectory("/home/user/.cache".to_string()))
    );
}

#[test]
fn path_is_no_regular_file() {
    let found = FileProbe { path_is_file: false, ..probe() };
    assert_eq!(
        get_file(&found),
        Err(HistoryFileError::NotRegularFile(
            "/home/user/.cache/lace-debugger-history".to_string()
        ))
    );
}

#[test]
fn warnings() {
    assert_eq!(
        HistoryFileError::NoCacheDir.message(),
        "Error with debugger history file: Cannot retrieve user cache directory. Eg. $XDG_CACHE_HOME"
    );
    assert_eq!(
        HistoryFileError::ParentNotDirectory("/x/cache".to_string()).message(),
        "Error with debugger history file: Parent directory is not a directory: /x/cache"
    );
    assert_eq!(
        HistoryFileError::NotRegularFile("/x/cache/h".to_string()).message(),
        "Error with debugger history file: File exists but is not a regular file: /x/cache/h"
    );
    assert_eq!(
        HistoryFileError::OpenFailed("/x/cache/h".to_string()).message(),
        "Error with debugger history file: Failed to open file: /x/cache/h"
    );
    assert_eq!(
        HistoryFileError::ReadFailed.message(),
        "Error with debugger history file: Failed to read from file"
    );
    assert_eq!(
        HistoryFileError::WriteFailed.message(),
        "Error with debugger history file: Failed to write to file"
    );
}
