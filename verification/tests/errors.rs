use room237::error::Error;
use room237::runner::{run_error, run_step, RunStep};

#[test]
fn every_error_has_its_text() {
    let s = |t: &str| t.to_string();
    let cases = vec![
        (Error::NotADirectory(s("/r/x")), "/r/x is not a directory"),
        (Error::NotAFile(s("/r/x")), "/r/x is not a file"),
        (Error::Missing(s("/r/x")), "/r/x does not exist"),
        (Error::InvalidPath, "Invalid path"),
        (Error::InvalidFilename, "Invalid filename"),
        (Error::BadDirs, "bad dirs"),
        (Error::MissingSource, "file clash"),
        (
            Error::AlbumExists { name: s("b"), parent: s("/r") },
            "Album \"b\" already exists in /r",
        ),
        (Error::PathEscapesRoot, "Album path escapes root"),
        (Error::NotUnderRoot { path: s("/x"), root: s("/r") }, "/x is not under root /r"),
        (Error::RenameRoot, "Cannot rename root directory"),
        (Error::ReservedAlbumName, "Cannot rename favorites album"),
        (Error::EmptyAlbumId, "Album id is required"),
        (Error::EmptyAlbumName, "Album name cannot be empty"),
        (Error::InvalidPackedMeta, "Invalid packed meta"),
        (
            Error::AlbumTooLarge { files: 30001, max: 20000 },
            "Album too large for duplicate scan (30001 > 20000).",
        ),
        (Error::ProbeFailed(s("no such stream")), "no such stream"),
        (Error::Timeout, "Timeout"),
        (Error::Spawn(s("No such file or directory")), "No such file or directory"),
        (Error::NothingRegistered, "No media registered"),
    ];
    for (error, text) in cases {
        assert_eq!(error.message(), text);
    }
}

#[test]
fn runner_ends_what_takes_too_long() {
    assert_eq!(run_step(true, 0, 100), RunStep::Finished);
    assert_eq!(run_step(true, 500, 100), RunStep::Finished);
    assert_eq!(run_step(false, 99, 100), RunStep::Wait);
    assert_eq!(run_step(false, 100, 100), RunStep::Kill);
    assert_eq!(run_step(false, 0, 0), RunStep::Kill);
    assert_eq!(run_error(true, "x".to_string()), Error::Timeout);
    assert_eq!(run_error(false, "x".to_string()), Error::Spawn("x".to_string()));
}
