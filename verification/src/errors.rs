//! What can go wrong.

use vstd::prelude::*;

verus! {

/// A failure of one unit of work.
#[derive(Debug, Clone, PartialEq, Eq)]
pub enum Fault {
    /// A selector could not be built.
    Selector,
    /// The document has no `<body>` element.
    BodyMissing,
    /// A text node that qualifies has no parent.
    ParentMissing,
    /// The parent of a text node that qualifies is not an element.
    ParentNotElement,
    /// The bytes are not a zip archive that can be read.
    ArchiveInvalid,
    /// An entry of the archive cannot be opened.
    EntryHeader,
    /// The content of an entry cannot be read.
    EntryContent,
    /// A path to pack does not lie under the root it is packed from.
    OutsideRoot,
    /// A file to pack could not be read.
    SourceUnreadable,
    /// The archive writer refused an entry, its content or the end of the archive.
    ArchiveWrite,
    /// A path holds no name to go by.
    NameMissing,
    /// The file name does not end in the archive suffix.
    NotZip,
    /// The archive to write is already there.
    Conflict,
    /// Upload mode was asked for without a token.
    TokenMissing,
    /// Upload mode runs without an upload client.
    ClientMissing,
    /// The kind of a directory entry could not be read.
    FileType,
    /// A step that the caller took for an item failed: what it says of it.
    Caller { message: String },
    /// The service answered an upload with another code than the one for
    /// success: the name that was sent, and the answer.
    Rejected { name: String, code: String, data: String },
}

/// The outcome of looking at one directory entry.
#[derive(Debug, Clone, PartialEq, Eq)]
pub enum ErisError {
    /// The entry is not part of the working set.
    Empty(String),
    /// Looking at the entry failed.
    Other(Fault),
}

} // verus!
