//! Error kinds surfaced by the repository core.

use vstd::prelude::*;

verus! {

/// What can go wrong while building or reading a repository database.
///
/// `MissingPKGINFO` is recoverable during a pool scan (the file is simply
/// not a package); every other kind aborts the run.
#[derive(Debug)]
pub enum Error {
    /// The package archive contained no `.PKGINFO` entry.
    MissingPKGINFO,
    /// `.PKGINFO` was present but could not be parsed.
    MalformedPKGINFO,
    /// A `desc`-format index file could not be parsed.
    MalformedDesc,
    /// The underlying tar or compression layer failed; carries its message.
    Archive(String),
    /// An operating-system file error; carries its message.
    Io(String),
    /// Embedded NUL or invalid UTF-8 where text is required.
    Encoding,
}

impl Error {
    /// A single-line description, suitable for standard error.
    pub fn message(&self) -> (r: String)
        ensures
            self is MissingPKGINFO ==> r@ == "archive missing .PKGINFO"@,
            self is MalformedPKGINFO ==> r@ == "archive malformed .PKGINFO"@,
            self is MalformedDesc ==> r@ == "malformed desc data"@,
            self is Archive ==> r@ == self->Archive_0@,
            self is Io ==> r@ == self->Io_0@,
            self is Encoding ==> r@ == "embedded NUL or invalid UTF-8"@,
    {
        match self {
            Error::MissingPKGINFO => String::from_str("archive missing .PKGINFO"),
            Error::MalformedPKGINFO => String::from_str("archive malformed .PKGINFO"),
            Error::MalformedDesc => String::from_str("malformed desc data"),
            Error::Archive(msg) => msg.clone(),
            Error::Io(msg) => msg.clone(),
            Error::Encoding => String::from_str("embedded NUL or invalid UTF-8"),
        }
    }
}

} // verus!
