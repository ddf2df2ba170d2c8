//! The errors that the library's operations report.

use crate::decimal::{decimal, decimal_chars};
use crate::text::{append_str, string_of};
use vstd::prelude::*;

verus! {

/// Why an operation was refused.
#[derive(Debug, PartialEq, Eq)]
pub enum Error {
    /// The path given as an album or as a root is not a directory.
    NotADirectory(String),
    /// The path given as a media file is not a regular file.
    NotAFile(String),
    /// A path that has to exist does not.
    Missing(String),
    /// A path has no parent directory.
    InvalidPath,
    /// A path has no final component to name a file by.
    InvalidFilename,
    /// Source or target of a move is not a directory.
    BadDirs,
    /// The file to move is not there.
    MissingSource,
    /// An album of the wanted name already exists beside the renamed one.
    AlbumExists { name: String, parent: String },
    /// The album lies outside the root.
    PathEscapesRoot,
    /// A path that was found under a root does not lie under it.
    NotUnderRoot { path: String, root: String },
    /// The album is the root itself.
    RenameRoot,
    /// The album to rename is the favorites alias.
    ReservedAlbumName,
    /// No album was named.
    EmptyAlbumId,
    /// The new album name is blank.
    EmptyAlbumName,
    /// A packed metadata string is not the decimal text of a 128-bit number.
    InvalidPackedMeta,
    /// The album holds more images than a duplicate scan accepts.
    AlbumTooLarge { files: usize, max: u32 },
    /// The probe of a media file failed.
    ProbeFailed(String),
    /// The media tool did not end within its deadline.
    Timeout,
    /// The media tool could not be started.
    Spawn(String),
    /// Nothing was registered.
    NothingRegistered,
}

/// The text of an error, as it is shown.
pub open spec fn message_text(e: Error) -> Seq<char> {
    match e {
        Error::NotADirectory(path) => path@ + " is not a directory"@,
        Error::NotAFile(path) => path@ + " is not a file"@,
        Error::Missing(path) => path@ + " does not exist"@,
        Error::InvalidPath => "Invalid path"@,
        Error::InvalidFilename => "Invalid filename"@,
        Error::BadDirs => "bad dirs"@,
        Error::MissingSource => "file clash"@,
        Error::AlbumExists { name, parent } => "Album \""@ + name@ + "\" already exists in "@
            + parent@,
        Error::PathEscapesRoot => "Album path escapes root"@,
        Error::NotUnderRoot { path, root } => path@ + " is not under root "@ + root@,
        Error::RenameRoot => "Cannot rename root directory"@,
        Error::ReservedAlbumName => "Cannot rename favorites album"@,
        Error::EmptyAlbumId => "Album id is required"@,
        Error::EmptyAlbumName => "Album name cannot be empty"@,
        Error::InvalidPackedMeta => "Invalid packed meta"@,
        Error::AlbumTooLarge { files, max } => "Album too large for duplicate scan ("@ + decimal(
            files as nat,
        ) + " > "@ + decimal(max as nat) + ")."@,
        Error::ProbeFailed(detail) => detail@,
        Error::Timeout => "Timeout"@,
        Error::Spawn(detail) => detail@,
        Error::NothingRegistered => "No media registered"@,
    }
}

/// The parts one after the other.
fn text_of(parts: &Vec<&str>) -> (s: String)
    ensures
        s@ == joined_parts(parts@, parts@.len() as int),
{
    let mut out: Vec<char> = Vec::new();
    let mut i: usize = 0;
    assert(out@ =~= joined_parts(parts@, 0));
    while i < parts.len()
        invariant
            i <= parts.len(),
            out@ == joined_parts(parts@, i as int),
        decreases parts.len() - i,
    {
        append_str(&mut out, parts[i]);
        i += 1;
    }
    string_of(&out)
}

/// The first `n` of `parts` one after the other.
pub open spec fn joined_parts(parts: Seq<&str>, n: int) -> Seq<char>
    decreases n,
{
    if n <= 0 {
        Seq::empty()
    } else {
        joined_parts(parts, n - 1) + parts[n - 1]@
    }
}

impl Error {
    /// The text of the error, as it is shown.
    pub fn message(&self) -> (s: String)
        ensures
            s@ == message_text(*self),
    {
        let mut parts: Vec<&str> = Vec::new();
        let files_text: String;
        let max_text: String;
        match self {
            Error::NotADirectory(path) => {
                parts.push(path.as_str());
                parts.push(" is not a directory");
            },
            Error::NotAFile(path) => {
                parts.push(path.as_str());
                parts.push(" is not a file");
            },
            Error::Missing(path) => {
                parts.push(path.as_str());
                parts.push(" does not exist");
            },
            Error::InvalidPath => {
                parts.push("Invalid path");
            },
            Error::InvalidFilename => {
                parts.push("Invalid filename");
            },
            Error::BadDirs => {
                parts.push("bad dirs");
            },
            Error::MissingSource => {
                parts.push("file clash");
            },
            Error::AlbumExists { name, parent } => {
                parts.push("Album \"");
                parts.push(name.as_str());
                parts.push("\" already exists in ");
                parts.push(parent.as_str());
            },
            Error::PathEscapesRoot => {
                parts.push("Album path escapes root");
            },
            Error::NotUnderRoot { path, root } => {
                parts.push(path.as_str());
                parts.push(" is not under root ");
                parts.push(root.as_str());
            },
            Error::RenameRoot => {
                parts.push("Cannot rename root directory");
            },
            Error::ReservedAlbumName => {
                parts.push("Cannot rename favorites album");
            },
            Error::EmptyAlbumId => {
                parts.push("Album id is required");
            },
            Error::EmptyAlbumName => {
                parts.push("Album name cannot be empty");
            },
            Error::InvalidPackedMeta => {
                parts.push("Invalid packed meta");
            },
            Error::AlbumTooLarge { files, max } => {
                files_text = string_of(&decimal_chars(*files as u128));
                max_text = string_of(&decimal_chars(*max as u128));
                parts.push("Album too large for duplicate scan (");
                parts.push(files_text.as_str());
                parts.push(" > ");
                parts.push(max_text.as_str());
                parts.push(").");
            },
            Error::ProbeFailed(detail) => {
                parts.push(detail.as_str());
            },
            Error::Timeout => {
                parts.push("Timeout");
            },
            Error::Spawn(detail) => {
                parts.push(detail.as_str());
            },
            Error::NothingRegistered => {
                parts.push("No media registered");
            },
        }
        proof {
            reveal_with_fuel(joined_parts, 6);
            assert(joined_parts(parts@, parts@.len() as int) =~= message_text(*self));
        }
        text_of(&parts)
    }
}

} // verus!
