//! The calls that sharing asks of the operating system, and what comes back.

use vstd::prelude::*;

verus! {

/// A file that a call names.
#[derive(Debug, Clone, Copy, PartialEq, Eq, Structural)]
pub enum Name {
    /// The shared object.
    Object,
    /// The file in which a new object is prepared.
    Temporary,
    /// A file of an earlier run that may have no users any more.
    Leftover,
}

/// A call to be made.
#[derive(Debug, Clone, Copy, PartialEq, Eq, Structural)]
pub enum Action {
    /// Open a file for reading.
    Open(Name),
    /// Create a file for reading and writing that does not exist yet.
    Create(Name),
    /// Take a shared lock, without blocking.
    LockShared { fd: i32 },
    /// Take an exclusive lock, without blocking.
    LockExclusive { fd: i32 },
    /// Wait.
    Pause { millis: u64 },
    /// Read inode, link count and size of an open file.
    Stat { fd: i32 },
    /// Read inode, link count and size of a named file.
    StatName(Name),
    /// Reserve address space.
    Reserve { len: usize },
    /// Map a file read-only and shared at a fixed address.
    MapFile { fd: i32, at: usize, len: usize },
    /// Release addresses.
    Unmap { at: usize, len: usize },
    /// Hand over the mapped bytes.
    Look { at: usize, len: usize },
    /// Ask for huge pages.
    AdviseHuge { at: usize, len: usize },
    /// Build huge pages now.
    Collapse { at: usize, len: usize },
    /// Close a file.
    Close { fd: i32 },
    /// Remove a name.
    Unlink(Name),
    /// Give a file a second name, which must not exist yet.
    Link { file: Name, name: Name },
    /// Start to list the directory of the shared objects.
    List,
    /// Read the next name in that directory.
    NextName,
    /// Set the size of a file.
    Truncate { fd: i32, len: usize },
    /// Write the array from `from` on, at the same position of the file.
    Write { fd: i32, from: usize },
}

/// What a call returned.
pub enum Outcome<'b> {
    /// The call succeeded and has nothing more to say.
    Success,
    /// The call failed: the system's words, and whether it says to try again.
    Failure { text: String, again: bool },
    /// A file was opened.
    Opened(i32),
    /// What is known of a file.
    Status { inode: u64, links: u64, size: i64 },
    /// Address space was reserved.
    Reserved(usize),
    /// The mapped bytes.
    Contents(&'b [u8]),
    /// A name in the directory, or none where the listing is at its end.
    Name(Option<String>),
    /// How many bytes were written, and the system's words for the last failure.
    Written { count: isize, text: String },
}

/// An outcome as a value of its own.
#[verifier::ext_equal]
pub enum Reply {
    Success,
    Failure { text: Seq<char>, again: bool },
    Opened(i32),
    Status { inode: u64, links: u64, size: i64 },
    Reserved(usize),
    Contents(Seq<u8>),
    Name(Option<Seq<char>>),
    Written { count: isize, text: Seq<char> },
}

impl<'b> View for Outcome<'b> {
    type V = Reply;

    open spec fn view(&self) -> Reply {
        match self {
            Outcome::Success => Reply::Success,
            Outcome::Failure { text, again } => Reply::Failure { text: text@, again: *again },
            Outcome::Opened(fd) => Reply::Opened(*fd),
            Outcome::Status { inode, links, size } => Reply::Status {
                inode: *inode,
                links: *links,
                size: *size,
            },
            Outcome::Reserved(base) => Reply::Reserved(*base),
            Outcome::Contents(bytes) => Reply::Contents(bytes@),
            Outcome::Name(name) => Reply::Name(
                match name {
                    Some(n) => Some(n@),
                    None => None,
                },
            ),
            Outcome::Written { count, text } => Reply::Written { count: *count, text: text@ },
        }
    }
}

/// What a call returned is taken in full.
pub proof fn law_outcome_is_taken_in_full<'b>(outcome: Outcome<'b>)
    ensures
        match outcome {
            Outcome::Success => outcome@ is Success,
            Outcome::Failure { text, again } => outcome@ == (Reply::Failure { text: text@, again }),
            Outcome::Opened(fd) => outcome@ == Reply::Opened(fd),
            Outcome::Status { inode, links, size } => outcome@ == (Reply::Status {
                inode,
                links,
                size,
            }),
            Outcome::Reserved(base) => outcome@ == Reply::Reserved(base),
            Outcome::Contents(bytes) => outcome@ == Reply::Contents(bytes@),
            Outcome::Name(Some(name)) => outcome@ == Reply::Name(Some(name@)),
            Outcome::Name(None) => outcome@ == Reply::Name(None),
            Outcome::Written { count, text } => outcome@ == (Reply::Written { count, text: text@ }),
        },
{
}

} // verus!
