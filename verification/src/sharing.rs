//! The protocol by which a process comes to share an array.
//!
//! A [`Sharing`] says which call to make next and is told what came of it, until
//! it ends with a region or with the reason why there is none. It first attaches
//! to an object that is already published; where there is none, it sweeps away
//! leftovers, writes the array to a temporary file and links that file to the
//! object's name, which fails if the name exists. An object is accepted only
//! after all of its bytes have been compared.

use vstd::prelude::*;

use crate::number::{push_decimal, push_signed};
use crate::placement::{fits, place, HUGE};
use crate::naming::{contains_nul, temporary_name, DIRECTORY, PREFIX};
use crate::region::SharedRegion;
use crate::system::{Action, Name, Outcome};
use crate::text::{begins, chars_of};

verus! {

use crate::number::{decimal, signed_decimal};
use crate::placement::{
    aligned_start, head_len, placement_fits, span_of, tail_len, tail_start,
};
use crate::naming::{has_nul, lemma_temporary_nul, temporary_path};
use crate::region::Region;
use crate::system::Reply;
use crate::text::begins_with;

/// What a failed call is reported as.
pub open spec fn call_error(what: Seq<char>, reason: Seq<char>) -> Seq<char> {
    what + ": "@ + reason
}

/// Words for a failed call: what was tried, and the system's reason.
pub fn errno(what: &str, reason: &str) -> (r: String)
    ensures
        r@ == call_error(what@, reason@),
{
    let mut r = what.to_owned();
    r.append(": ");
    r.append(reason);
    r
}

/// How often the shared lock of a published object is tried.
pub const LOCK_TRIES: u32 = 50;

/// How often huge pages are asked to be built.
pub const COLLAPSE_TRIES: u32 = 3;

/// As what a process comes to an object.
#[derive(Debug, Clone, Copy, PartialEq, Eq, Structural)]
pub enum Side {
    /// As one that publishes the object where it does not exist.
    First,
    /// As one that only attaches.
    Second,
    /// As the one that has published it.
    Publisher,
}

/// Where a sharing stands: the call that it waits for.
#[derive(Debug, Clone, Copy, PartialEq, Eq, Structural)]
pub enum Phase {
    /// Open the object.
    Open { side: Side },
    /// Lock the object, after so many tries.
    Lock { side: Side, fd: i32, tries: u32 },
    /// Wait before the next try.
    Pause { side: Side, fd: i32, tries: u32 },
    /// Look at the link count and the size of the object.
    Stat { side: Side, fd: i32 },
    /// Reserve addresses with room to align.
    Reserve { side: Side, fd: i32 },
    /// Map the object into the reservation at `base`.
    MapFile { side: Side, fd: i32, base: usize },
    /// Release the reservation, as nothing could be mapped.
    Abandon { side: Side, fd: i32, base: usize },
    /// Release what lies in front of the mapping.
    TrimHead { side: Side, fd: i32, base: usize },
    /// Release what lies behind the mapping.
    TrimTail { side: Side, fd: i32, base: usize },
    /// Compare the mapped bytes with the array.
    Look { side: Side, fd: i32, at: usize },
    /// Release the mapping, as its bytes differ.
    Discard { side: Side, fd: i32, at: usize },
    /// Ask for huge pages.
    Advise { side: Side, fd: i32, at: usize },
    /// Build huge pages, after so many tries.
    Collapse { side: Side, fd: i32, at: usize, tries: u32 },
    /// Remove the object that was published and could not be mapped.
    Withdraw { fd: i32 },
    /// Close the file, as the last thing before the refusal.
    Close { fd: i32 },
    /// Start to list leftovers.
    List,
    /// Read the next name.
    NextName,
    /// Open a leftover.
    SweepOpen,
    /// Lock it exclusively.
    SweepLock { fd: i32 },
    /// Remove it.
    SweepUnlink { fd: i32 },
    /// Close it.
    SweepClose { fd: i32 },
    /// Create the temporary file.
    Create,
    /// Lock the temporary file.
    LockNew { fd: i32 },
    /// Set its size.
    Truncate { fd: i32 },
    /// Write the array from `from` on.
    Write { fd: i32, from: usize },
    /// Remove the temporary file, as it could not be written.
    Drop { fd: i32 },
    /// Publish the temporary file.
    Link { fd: i32 },
    /// Remove the temporary name.
    Settle { fd: i32, linked: bool },
    /// Close the file of a publication that came second.
    Yield { fd: i32 },
    /// The array is shared.
    Shared { side: Side, fd: i32, at: usize },
    /// The array is not shared.
    Refused,
}

/// The state of a sharing.
#[verifier::ext_equal]
pub struct Run {
    /// The array.
    pub bytes: Seq<u8>,
    /// The path of the object.
    pub path: Seq<char>,
    /// The path of the temporary file.
    pub temporary: Seq<char>,
    /// The path of the leftover at hand.
    pub leftover: Seq<char>,
    /// The reason of the refusal, once there is one.
    pub error: Seq<char>,
    /// Where the sharing stands.
    pub phase: Phase,
}

/// The reason where the size of an object is not that of the array.
pub open spec fn size_error(size: int, len: nat) -> Seq<char> {
    "size mismatch ("@ + signed_decimal(size) + " vs "@ + decimal(len) + ")"@
}

/// Whether an error of `open` says that there is no such file.
pub open spec fn says_missing(error: Seq<char>) -> bool {
    begins_with(error, "open: No such file"@)
}

/// Whether a file in the directory may be a leftover: it is named like an
/// object, and is not the object that is kept.
pub open spec fn sweepable(name: Seq<char>, keep: Seq<char>) -> bool {
    &&& begins_with(name, PREFIX@)
    &&& DIRECTORY@ + name != keep
    &&& !has_nul(name)
}

impl Run {
    /// The path that a name stands for.
    pub open spec fn path_of(self, name: Name) -> Seq<char> {
        match name {
            Name::Object => self.path,
            Name::Temporary => self.temporary,
            Name::Leftover => self.leftover,
        }
    }

    /// The state with another phase.
    pub open spec fn at(self, phase: Phase) -> Run {
        Run { phase, ..self }
    }

    /// The state after a failure: with its reason, and on to what has to be
    /// undone.
    pub open spec fn failed(self, error: Seq<char>, phase: Phase) -> Run {
        Run { error, phase, ..self }
    }

    /// The call that a sharing waits for; none where it has ended.
    pub open spec fn pending(self) -> Option<Action> {
        let len = self.bytes.len() as usize;
        match self.phase {
            Phase::Open { .. } => Some(Action::Open(Name::Object)),
            Phase::Lock { fd, .. } => Some(Action::LockShared { fd }),
            Phase::Pause { .. } => Some(Action::Pause { millis: 1 }),
            Phase::Stat { fd, .. } => Some(Action::Stat { fd }),
            Phase::Reserve { .. } => Some(Action::Reserve { len: span_of(len as int) as usize }),
            Phase::MapFile { fd, base, .. } => Some(
                Action::MapFile { fd, at: aligned_start(base as int) as usize, len },
            ),
            Phase::Abandon { base, .. } => Some(
                Action::Unmap { at: base, len: span_of(len as int) as usize },
            ),
            Phase::TrimHead { base, .. } => Some(
                Action::Unmap { at: base, len: head_len(base as int) as usize },
            ),
            Phase::TrimTail { base, .. } => Some(
                Action::Unmap {
                    at: tail_start(base as int, len as int) as usize,
                    len: tail_len(base as int, len as int) as usize,
                },
            ),
            Phase::Look { at, .. } => Some(Action::Look { at, len }),
            Phase::Discard { at, .. } => Some(Action::Unmap { at, len }),
            Phase::Advise { at, .. } => Some(Action::AdviseHuge { at, len }),
            Phase::Collapse { at, .. } => Some(Action::Collapse { at, len }),
            Phase::Withdraw { .. } => Some(Action::Unlink(Name::Object)),
            Phase::Close { fd } => Some(Action::Close { fd }),
            Phase::List => Some(Action::List),
            Phase::NextName => Some(Action::NextName),
            Phase::SweepOpen => Some(Action::Open(Name::Leftover)),
            Phase::SweepLock { fd } => Some(Action::LockExclusive { fd }),
            Phase::SweepUnlink { .. } => Some(Action::Unlink(Name::Leftover)),
            Phase::SweepClose { fd } => Some(Action::Close { fd }),
            Phase::Create => Some(Action::Create(Name::Temporary)),
            Phase::LockNew { fd } => Some(Action::LockShared { fd }),
            Phase::Truncate { fd } => Some(Action::Truncate { fd, len }),
            Phase::Write { fd, from } => Some(Action::Write { fd, from }),
            Phase::Drop { .. } => Some(Action::Unlink(Name::Temporary)),
            Phase::Link { .. } => Some(Action::Link { file: Name::Temporary, name: Name::Object }),
            Phase::Settle { .. } => Some(Action::Unlink(Name::Temporary)),
            Phase::Yield { fd } => Some(Action::Close { fd }),
            Phase::Shared { .. } => None,
            Phase::Refused => None,
        }
    }

    /// Whether `reply` is one that the pending call can give. Where nothing is
    /// made of a result, any will do.
    pub open spec fn expects(self, reply: Reply) -> bool {
        match self.phase {
            Phase::Open { .. } | Phase::SweepOpen | Phase::Create => reply is Opened
                || reply is Failure,
            Phase::Stat { .. } => reply is Status || reply is Failure,
            Phase::Reserve { .. } => match reply {
                Reply::Reserved(base) => placement_fits(base as int, self.bytes.len() as int),
                _ => reply is Failure,
            },
            Phase::Look { .. } => reply is Contents,
            Phase::NextName => reply is Name,
            Phase::Write { .. } => reply is Written,
            Phase::Lock { .. }
            | Phase::MapFile { .. }
            | Phase::Collapse { .. }
            | Phase::List
            | Phase::SweepLock { .. }
            | Phase::LockNew { .. }
            | Phase::Truncate { .. }
            | Phase::Link { .. } => reply is Success || reply is Failure,
            Phase::Shared { .. } | Phase::Refused => false,
            _ => true,
        }
    }

    /// What has to be undone where a locked object cannot be used: the publisher
    /// takes its object back before it closes the file.
    pub open spec fn undo(side: Side, fd: i32) -> Phase {
        if side == Side::Publisher {
            Phase::Withdraw { fd }
        } else {
            Phase::Close { fd }
        }
    }

    /// What follows once the head of the reservation is released.
    pub open spec fn after_head(self, side: Side, fd: i32, base: usize) -> Phase {
        if tail_len(base as int, self.bytes.len() as int) > 0 {
            Phase::TrimTail { side, fd, base }
        } else {
            Phase::Look { side, fd, at: aligned_start(base as int) as usize }
        }
    }

    /// What follows once the object is mapped.
    pub open spec fn after_map(self, side: Side, fd: i32, base: usize) -> Phase {
        if head_len(base as int) > 0 {
            Phase::TrimHead { side, fd, base }
        } else {
            self.after_head(side, fd, base)
        }
    }

    /// Attaching, up to the lock.
    pub open spec fn next_attach(self, reply: Reply) -> Run {
        match (self.phase, reply) {
            (Phase::Open { side }, Reply::Opened(fd)) => self.at(
                Phase::Lock { side, fd, tries: 0 },
            ),
            (Phase::Open { side }, Reply::Failure { text, .. }) => {
                let error = call_error("open"@, text);
                if side == Side::First && says_missing(error) {
                    self.at(Phase::List)
                } else {
                    self.failed(error, Phase::Refused)
                }
            },
            (Phase::Lock { side, fd, .. }, Reply::Success) => self.at(Phase::Stat { side, fd }),
            (Phase::Lock { side, fd, tries }, _) => self.at(Phase::Pause { side, fd, tries }),
            (Phase::Pause { side, fd, tries }, _) => if tries + 1 < LOCK_TRIES {
                self.at(Phase::Lock { side, fd, tries: (tries + 1) as u32 })
            } else {
                self.failed("lock busy"@, Phase::Close { fd })
            },
            (Phase::Close { .. }, _) => self.at(Phase::Refused),
            _ => self,
        }
    }

    /// Mapping a locked object and accepting it.
    pub open spec fn next_map(self, reply: Reply) -> Run {
        match (self.phase, reply) {
            (Phase::Stat { side, fd }, Reply::Failure { text, .. }) => self.failed(
                call_error("fstat"@, text),
                Self::undo(side, fd),
            ),
            (Phase::Stat { side, fd }, Reply::Status { links, size, .. }) => if links == 0 {
                self.failed("object was removed"@, Self::undo(side, fd))
            } else if size != self.bytes.len() {
                self.failed(size_error(size as int, self.bytes.len()), Self::undo(side, fd))
            } else {
                self.at(Phase::Reserve { side, fd })
            },
            (Phase::Reserve { side, fd }, Reply::Reserved(base)) => self.at(
                Phase::MapFile { side, fd, base },
            ),
            (Phase::Reserve { side, fd }, Reply::Failure { text, .. }) => self.failed(
                call_error("mmap reserve"@, text),
                Self::undo(side, fd),
            ),
            (Phase::MapFile { side, fd, base }, Reply::Success) => self.at(
                self.after_map(side, fd, base),
            ),
            (Phase::MapFile { side, fd, base }, Reply::Failure { text, .. }) => self.failed(
                call_error("mmap"@, text),
                Phase::Abandon { side, fd, base },
            ),
            (Phase::Abandon { side, fd, .. }, _) => self.at(Self::undo(side, fd)),
            (Phase::TrimHead { side, fd, base }, _) => self.at(self.after_head(side, fd, base)),
            (Phase::TrimTail { side, fd, base }, _) => self.at(
                Phase::Look { side, fd, at: aligned_start(base as int) as usize },
            ),
            (Phase::Look { side, fd, at }, Reply::Contents(mapped)) => if mapped == self.bytes {
                self.at(Phase::Advise { side, fd, at })
            } else {
                self.failed("content mismatch"@, Phase::Discard { side, fd, at })
            },
            (Phase::Discard { side, fd, .. }, _) => self.at(Self::undo(side, fd)),
            (Phase::Advise { side, fd, at }, _) => self.at(
                Phase::Collapse { side, fd, at, tries: 0 },
            ),
            (Phase::Collapse { side, fd, at, tries }, Reply::Failure { again: true, .. }) => if tries
                + 1 < COLLAPSE_TRIES {
                self.at(Phase::Collapse { side, fd, at, tries: (tries + 1) as u32 })
            } else {
                self.at(Phase::Shared { side, fd, at })
            },
            (Phase::Collapse { side, fd, at, .. }, _) => self.at(Phase::Shared { side, fd, at }),
            (Phase::Withdraw { fd }, _) => self.at(Phase::Close { fd }),
            _ => self,
        }
    }

    /// Sweeping away leftovers.
    pub open spec fn next_sweep(self, reply: Reply) -> Run {
        match (self.phase, reply) {
            (Phase::List, Reply::Success) => self.at(Phase::NextName),
            (Phase::List, _) => self.at(Phase::Create),
            (Phase::NextName, Reply::Name(Some(name))) => if sweepable(name, self.path) {
                Run { leftover: DIRECTORY@ + name, phase: Phase::SweepOpen, ..self }
            } else {
                self
            },
            (Phase::NextName, _) => self.at(Phase::Create),
            (Phase::SweepOpen, Reply::Opened(fd)) => self.at(Phase::SweepLock { fd }),
            (Phase::SweepOpen, _) => self.at(Phase::NextName),
            (Phase::SweepLock { fd }, Reply::Success) => self.at(Phase::SweepUnlink { fd }),
            (Phase::SweepLock { fd }, _) => self.at(Phase::SweepClose { fd }),
            (Phase::SweepUnlink { fd }, _) => self.at(Phase::SweepClose { fd }),
            (Phase::SweepClose { .. }, _) => self.at(Phase::NextName),
            _ => self,
        }
    }

    /// Writing the array to the temporary file: what follows once the bytes up
    /// to `from` are written.
    pub open spec fn after_write(self, fd: i32, from: int) -> Phase {
        if from < self.bytes.len() {
            Phase::Write { fd, from: from as usize }
        } else {
            Phase::Link { fd }
        }
    }

    /// Publishing a new object.
    pub open spec fn next_publish(self, reply: Reply) -> Run {
        match (self.phase, reply) {
            (Phase::Create, Reply::Opened(fd)) => self.at(Phase::LockNew { fd }),
            (Phase::Create, Reply::Failure { text, .. }) => self.failed(
                call_error("create"@, text),
                Phase::Refused,
            ),
            (Phase::LockNew { fd }, Reply::Success) => self.at(Phase::Truncate { fd }),
            (Phase::LockNew { fd }, Reply::Failure { text, .. }) => self.failed(
                call_error("flock"@, text),
                Phase::Drop { fd },
            ),
            (Phase::Truncate { fd }, Reply::Success) => self.at(self.after_write(fd, 0)),
            (Phase::Truncate { fd }, Reply::Failure { text, .. }) => self.failed(
                call_error("ftruncate"@, text),
                Phase::Drop { fd },
            ),
            (Phase::Write { fd, from }, Reply::Written { count, text }) => if count <= 0 {
                self.failed(call_error("write"@, text), Phase::Drop { fd })
            } else {
                self.at(self.after_write(fd, from + count))
            },
            (Phase::Drop { fd }, _) => self.at(Phase::Close { fd }),
            (Phase::Link { fd }, Reply::Success) => self.at(Phase::Settle { fd, linked: true }),
            (Phase::Link { fd }, _) => self.at(Phase::Settle { fd, linked: false }),
            (Phase::Settle { fd, linked: true }, _) => self.at(
                Phase::Stat { side: Side::Publisher, fd },
            ),
            (Phase::Settle { fd, linked: false }, _) => self.at(Phase::Yield { fd }),
            (Phase::Yield { .. }, _) => self.at(Phase::Open { side: Side::Second }),
            _ => self,
        }
    }

    /// What a reply to the pending call leads to.
    pub open spec fn next(self, reply: Reply) -> Run {
        match self.phase {
            Phase::Open { .. } | Phase::Lock { .. } | Phase::Pause { .. } | Phase::Close { .. } =>
                self.next_attach(reply),
            Phase::List
            | Phase::NextName
            | Phase::SweepOpen
            | Phase::SweepLock { .. }
            | Phase::SweepUnlink { .. }
            | Phase::SweepClose { .. } => self.next_sweep(reply),
            Phase::Create
            | Phase::LockNew { .. }
            | Phase::Truncate { .. }
            | Phase::Write { .. }
            | Phase::Drop { .. }
            | Phase::Link { .. }
            | Phase::Settle { .. }
            | Phase::Yield { .. } => self.next_publish(reply),
            _ => self.next_map(reply),
        }
    }

    /// What holds of every state of a sharing: its lengths and addresses are
    /// within the range of the machine, and every path that a call can name is
    /// one.
    pub open spec fn valid(self) -> bool {
        &&& self.bytes.len() <= isize::MAX
        &&& !has_nul(self.path)
        &&& !has_nul(self.temporary)
        &&& !has_nul(self.leftover)
        &&& match self.phase {
            Phase::Lock { side, tries, .. } | Phase::Pause { side, tries, .. } => tries < LOCK_TRIES
                && side != Side::Publisher,
            Phase::Open { side } => side != Side::Publisher,
            Phase::MapFile { base, .. }
            | Phase::Abandon { base, .. }
            | Phase::TrimHead { base, .. }
            | Phase::TrimTail { base, .. } => placement_fits(base as int, self.bytes.len() as int),
            Phase::Collapse { tries, .. } => tries < COLLAPSE_TRIES,
            Phase::Write { from, .. } => from < self.bytes.len(),
            _ => true,
        }
    }
}

/// Whether two arrays hold the same bytes.
pub fn same_content(a: &[u8], b: &[u8]) -> (r: bool)
    ensures
        r == (a@ == b@),
{
    if a.len() != b.len() {
        return false;
    }
    let mut i: usize = 0;
    while i < a.len()
        invariant
            i <= a@.len(),
            a@.len() == b@.len(),
            forall|k: int| 0 <= k < i ==> a@[k] == b@[k],
        decreases a@.len() - i,
    {
        if a[i] != b[i] {
            return false;
        }
        i = i + 1;
    }
    assert(a@ =~= b@);
    true
}

/// Builds the reason where the sizes differ.
fn size_mismatch(size: i64, len: usize) -> (r: String)
    ensures
        r@ == size_error(size as int, len as nat),
{
    let mut r = "size mismatch (".to_owned();
    push_signed(&mut r, size);
    r.append(" vs ");
    push_decimal(&mut r, len as u64);
    r.append(")");
    r
}

/// Whether an error of `open` says that there is no such file.
fn missing(error: &str) -> (r: bool)
    ensures
        r == says_missing(error@),
{
    let e = chars_of(error);
    let m = chars_of("open: No such file");
    begins(e.as_slice(), m.as_slice())
}

/// The path of a leftover, where the name may be one.
fn leftover_path(name: &str, keep: &String) -> (r: Option<String>)
    ensures
        r is Some == sweepable(name@, keep@),
        r matches Some(path) ==> path@ == DIRECTORY@ + name@,
{
    let n = chars_of(name);
    let p = chars_of(PREFIX);
    if !begins(n.as_slice(), p.as_slice()) {
        return None;
    }
    let mut full = DIRECTORY.to_owned();
    full.append(name);
    if full == *keep || contains_nul(name) {
        return None;
    }
    Some(full)
}

/// The sharing of one array, under way.
pub struct Sharing<'a> {
    bytes: &'a [u8],
    path: String,
    temporary: String,
    leftover: String,
    error: String,
    phase: Phase,
}

impl<'a> View for Sharing<'a> {
    type V = Run;

    closed spec fn view(&self) -> Run {
        Run {
            bytes: self.bytes@,
            path: self.path@,
            temporary: self.temporary@,
            leftover: self.leftover@,
            error: self.error@,
            phase: self.phase,
        }
    }
}

/// A directory and a name without NUL make a path without NUL.
proof fn lemma_leftover_nul(name: Seq<char>)
    requires
        !has_nul(name),
    ensures
        !has_nul(DIRECTORY@ + name),
{
    reveal_strlit("/dev/shm/");
    let full = DIRECTORY@ + name;
    assert forall|i: int| 0 <= i < full.len() implies #[trigger] full[i] != '\0' by {
        if i < DIRECTORY@.len() {
            assert(full[i] == DIRECTORY@[i]);
        } else {
            assert(full[i] == name[i - DIRECTORY@.len()]);
        }
    }
}

impl<'a> Sharing<'a> {
    /// Starts a sharing in the given phase.
    pub(crate) fn new(bytes: &'a [u8], path: String, temporary: String, phase: Phase) -> (r:
        Sharing<'a>)
        ensures
            r@ == start(bytes@, path@, temporary@, phase),
    {
        Sharing { bytes, path, temporary, leftover: String::new(), error: String::new(), phase }
    }

    /// The path that a name stands for.
    pub fn path_of(&self, name: Name) -> (r: &str)
        ensures
            r@ == self@.path_of(name),
    {
        match name {
            Name::Object => self.path.as_str(),
            Name::Temporary => self.temporary.as_str(),
            Name::Leftover => self.leftover.as_str(),
        }
    }

    /// The call to be made; none where the sharing has ended.
    pub fn pending(&self) -> (r: Option<Action>)
        requires
            self@.valid(),
        ensures
            r == self@.pending(),
    {
        let len = self.bytes.len();
        match self.phase {
            Phase::Open { .. } => Some(Action::Open(Name::Object)),
            Phase::Lock { fd, .. } => Some(Action::LockShared { fd }),
            Phase::Pause { .. } => Some(Action::Pause { millis: 1 }),
            Phase::Stat { fd, .. } => Some(Action::Stat { fd }),
            Phase::Reserve { .. } => Some(Action::Reserve { len: len + HUGE }),
            Phase::MapFile { fd, base, .. } => Some(
                Action::MapFile { fd, at: place(base, len).at, len },
            ),
            Phase::Abandon { base, .. } => Some(Action::Unmap { at: base, len: len + HUGE }),
            Phase::TrimHead { base, .. } => Some(
                Action::Unmap { at: base, len: place(base, len).head },
            ),
            Phase::TrimTail { base, .. } => {
                let placement = place(base, len);
                Some(Action::Unmap { at: placement.tail_at, len: placement.tail })
            },
            Phase::Look { at, .. } => Some(Action::Look { at, len }),
            Phase::Discard { at, .. } => Some(Action::Unmap { at, len }),
            Phase::Advise { at, .. } => Some(Action::AdviseHuge { at, len }),
            Phase::Collapse { at, .. } => Some(Action::Collapse { at, len }),
            Phase::Withdraw { .. } => Some(Action::Unlink(Name::Object)),
            Phase::Close { fd } => Some(Action::Close { fd }),
            Phase::List => Some(Action::List),
            Phase::NextName => Some(Action::NextName),
            Phase::SweepOpen => Some(Action::Open(Name::Leftover)),
            Phase::SweepLock { fd } => Some(Action::LockExclusive { fd }),
            Phase::SweepUnlink { .. } => Some(Action::Unlink(Name::Leftover)),
            Phase::SweepClose { fd } => Some(Action::Close { fd }),
            Phase::Create => Some(Action::Create(Name::Temporary)),
            Phase::LockNew { fd } => Some(Action::LockShared { fd }),
            Phase::Truncate { fd } => Some(Action::Truncate { fd, len }),
            Phase::Write { fd, from } => Some(Action::Write { fd, from }),
            Phase::Drop { .. } => Some(Action::Unlink(Name::Temporary)),
            Phase::Link { .. } => Some(Action::Link { file: Name::Temporary, name: Name::Object }),
            Phase::Settle { .. } => Some(Action::Unlink(Name::Temporary)),
            Phase::Yield { fd } => Some(Action::Close { fd }),
            Phase::Shared { .. } => None,
            Phase::Refused => None,
        }
    }

    /// Whether an outcome is one that the pending call can have.
    pub fn expects(&self, outcome: &Outcome<'_>) -> (r: bool)
        ensures
            r == self@.expects(outcome@),
    {
        match self.phase {
            Phase::Open { .. } | Phase::SweepOpen | Phase::Create => matches!(outcome, Outcome::Opened(_) | Outcome::Failure { .. }),
            Phase::Stat { .. } => matches!(outcome, Outcome::Status { .. } | Outcome::Failure { .. }),
            Phase::Reserve { .. } => match outcome {
                Outcome::Reserved(base) => fits(*base, self.bytes.len()),
                Outcome::Failure { .. } => true,
                _ => false,
            },
            Phase::Look { .. } => matches!(outcome, Outcome::Contents(_)),
            Phase::NextName => matches!(outcome, Outcome::Name(_)),
            Phase::Write { .. } => matches!(outcome, Outcome::Written { .. }),
            Phase::Lock { .. }
            | Phase::MapFile { .. }
            | Phase::Collapse { .. }
            | Phase::List
            | Phase::SweepLock { .. }
            | Phase::LockNew { .. }
            | Phase::Truncate { .. }
            | Phase::Link { .. } => matches!(outcome, Outcome::Success | Outcome::Failure { .. }),
            Phase::Shared { .. } | Phase::Refused => false,
            _ => true,
        }
    }

    /// Goes on to another phase.
    fn go(&mut self, phase: Phase)
        ensures
            final(self)@ == old(self)@.at(phase),
    {
        self.phase = phase;
    }

    /// Keeps the reason of a failure and goes on to another phase.
    fn fail(&mut self, error: String, phase: Phase)
        ensures
            final(self)@ == old(self)@.failed(error@, phase),
    {
        self.error = error;
        self.phase = phase;
    }

    /// Takes an outcome while attaching, up to the lock.
    fn step_attach(&mut self, outcome: Outcome<'_>)
        requires
            old(self)@.valid(),
            old(self)@.expects(outcome@),
        ensures
            final(self)@ == old(self)@.next_attach(outcome@),
    {
        match (self.phase, outcome) {
            (Phase::Open { side }, Outcome::Opened(fd)) => {
                self.go(Phase::Lock { side, fd, tries: 0 });
            },
            (Phase::Open { side }, Outcome::Failure { text, .. }) => {
                let error = errno("open", text.as_str());
                if side == Side::First && missing(error.as_str()) {
                    self.go(Phase::List);
                } else {
                    self.fail(error, Phase::Refused);
                }
            },
            (Phase::Lock { side, fd, .. }, Outcome::Success) => {
                self.go(Phase::Stat { side, fd });
            },
            (Phase::Lock { side, fd, tries }, _) => {
                self.go(Phase::Pause { side, fd, tries });
            },
            (Phase::Pause { side, fd, tries }, _) => {
                if tries + 1 < LOCK_TRIES {
                    self.go(Phase::Lock { side, fd, tries: tries + 1 });
                } else {
                    self.fail("lock busy".to_owned(), Phase::Close { fd });
                }
            },
            (Phase::Close { .. }, _) => {
                self.go(Phase::Refused);
            },
            _ => {},
        }
    }

    /// What has to be undone where a locked object cannot be used.
    fn undo(side: Side, fd: i32) -> (r: Phase)
        ensures
            r == Run::undo(side, fd),
    {
        if side == Side::Publisher {
            Phase::Withdraw { fd }
        } else {
            Phase::Close { fd }
        }
    }

    /// Takes an outcome while a locked object is mapped and accepted.
    fn step_map(&mut self, outcome: Outcome<'_>)
        requires
            old(self)@.valid(),
            old(self)@.expects(outcome@),
        ensures
            final(self)@ == old(self)@.next_map(outcome@),
    {
        let len = self.bytes.len();
        match (self.phase, outcome) {
            (Phase::Stat { side, fd }, Outcome::Failure { text, .. }) => {
                self.fail(errno("fstat", text.as_str()), Self::undo(side, fd));
            },
            (Phase::Stat { side, fd }, Outcome::Status { links, size, .. }) => {
                if links == 0 {
                    self.fail("object was removed".to_owned(), Self::undo(side, fd));
                } else if size != len as i64 {
                    self.fail(size_mismatch(size, len), Self::undo(side, fd));
                } else {
                    self.go(Phase::Reserve { side, fd });
                }
            },
            (Phase::Reserve { side, fd }, Outcome::Reserved(base)) => {
                self.go(Phase::MapFile { side, fd, base });
            },
            (Phase::Reserve { side, fd }, Outcome::Failure { text, .. }) => {
                self.fail(errno("mmap reserve", text.as_str()), Self::undo(side, fd));
            },
            (Phase::MapFile { side, fd, base }, Outcome::Success) => {
                let placement = place(base, len);
                if placement.head > 0 {
                    self.go(Phase::TrimHead { side, fd, base });
                } else if placement.tail > 0 {
                    self.go(Phase::TrimTail { side, fd, base });
                } else {
                    self.go(Phase::Look { side, fd, at: placement.at });
                }
            },
            (Phase::MapFile { side, fd, base }, Outcome::Failure { text, .. }) => {
                self.fail(errno("mmap", text.as_str()), Phase::Abandon { side, fd, base });
            },
            (Phase::Abandon { side, fd, .. }, _) => {
                self.go(Self::undo(side, fd));
            },
            (Phase::TrimHead { side, fd, base }, _) => {
                let placement = place(base, len);
                if placement.tail > 0 {
                    self.go(Phase::TrimTail { side, fd, base });
                } else {
                    self.go(Phase::Look { side, fd, at: placement.at });
                }
            },
            (Phase::TrimTail { side, fd, base }, _) => {
                self.go(Phase::Look { side, fd, at: place(base, len).at });
            },
            (Phase::Look { side, fd, at }, Outcome::Contents(mapped)) => {
                if same_content(mapped, self.bytes) {
                    self.go(Phase::Advise { side, fd, at });
                } else {
                    self.fail("content mismatch".to_owned(), Phase::Discard { side, fd, at });
                }
            },
            (Phase::Discard { side, fd, .. }, _) => {
                self.go(Self::undo(side, fd));
            },
            (Phase::Advise { side, fd, at }, _) => {
                self.go(Phase::Collapse { side, fd, at, tries: 0 });
            },
            (Phase::Collapse { side, fd, at, tries }, Outcome::Failure { again: true, .. }) => {
                if tries + 1 < COLLAPSE_TRIES {
                    self.go(Phase::Collapse { side, fd, at, tries: tries + 1 });
                } else {
                    self.go(Phase::Shared { side, fd, at });
                }
            },
            (Phase::Collapse { side, fd, at, .. }, _) => {
                self.go(Phase::Shared { side, fd, at });
            },
            (Phase::Withdraw { fd }, _) => {
                self.go(Phase::Close { fd });
            },
            _ => {},
        }
    }

    /// Takes an outcome while leftovers are swept away: files of other nets and
    /// of crashed publishers. Any file that this process can lock exclusively
    /// has no users.
    fn step_sweep(&mut self, outcome: Outcome<'_>)
        requires
            old(self)@.valid(),
            old(self)@.expects(outcome@),
        ensures
            final(self)@ == old(self)@.next_sweep(outcome@),
    {
        match (self.phase, outcome) {
            (Phase::List, Outcome::Success) => {
                self.go(Phase::NextName);
            },
            (Phase::List, _) => {
                self.go(Phase::Create);
            },
            (Phase::NextName, Outcome::Name(Some(name))) => {
                match leftover_path(name.as_str(), &self.path) {
                    Some(path) => {
                        self.leftover = path;
                        self.phase = Phase::SweepOpen;
                    },
                    None => {},
                }
            },
            (Phase::NextName, _) => {
                self.go(Phase::Create);
            },
            (Phase::SweepOpen, Outcome::Opened(fd)) => {
                self.go(Phase::SweepLock { fd });
            },
            (Phase::SweepOpen, _) => {
                self.go(Phase::NextName);
            },
            (Phase::SweepLock { fd }, Outcome::Success) => {
                self.go(Phase::SweepUnlink { fd });
            },
            (Phase::SweepLock { fd }, _) => {
                self.go(Phase::SweepClose { fd });
            },
            (Phase::SweepUnlink { fd }, _) => {
                self.go(Phase::SweepClose { fd });
            },
            (Phase::SweepClose { .. }, _) => {
                self.go(Phase::NextName);
            },
            _ => {},
        }
    }

    /// Takes an outcome while a new object is written and published. The shared
    /// lock is held from creation on, so that no other publisher's sweep can
    /// remove the file.
    fn step_publish(&mut self, outcome: Outcome<'_>)
        requires
            old(self)@.valid(),
            old(self)@.expects(outcome@),
        ensures
            final(self)@ == old(self)@.next_publish(outcome@),
    {
        let len = self.bytes.len();
        match (self.phase, outcome) {
            (Phase::Create, Outcome::Opened(fd)) => {
                self.go(Phase::LockNew { fd });
            },
            (Phase::Create, Outcome::Failure { text, .. }) => {
                self.fail(errno("create", text.as_str()), Phase::Refused);
            },
            (Phase::LockNew { fd }, Outcome::Success) => {
                self.go(Phase::Truncate { fd });
            },
            (Phase::LockNew { fd }, Outcome::Failure { text, .. }) => {
                self.fail(errno("flock", text.as_str()), Phase::Drop { fd });
            },
            (Phase::Truncate { fd }, Outcome::Success) => {
                if len > 0 {
                    self.go(Phase::Write { fd, from: 0 });
                } else {
                    self.go(Phase::Link { fd });
                }
            },
            (Phase::Truncate { fd }, Outcome::Failure { text, .. }) => {
                self.fail(errno("ftruncate", text.as_str()), Phase::Drop { fd });
            },
            (Phase::Write { fd, from }, Outcome::Written { count, text }) => {
                if count <= 0 {
                    self.fail(errno("write", text.as_str()), Phase::Drop { fd });
                } else if (count as usize) < len - from {
                    self.go(Phase::Write { fd, from: from + count as usize });
                } else {
                    self.go(Phase::Link { fd });
                }
            },
            (Phase::Drop { fd }, _) => {
                self.go(Phase::Close { fd });
            },
            (Phase::Link { fd }, Outcome::Success) => {
                self.go(Phase::Settle { fd, linked: true });
            },
            (Phase::Link { fd }, _) => {
                self.go(Phase::Settle { fd, linked: false });
            },
            (Phase::Settle { fd, linked: true }, _) => {
                self.go(Phase::Stat { side: Side::Publisher, fd });
            },
            (Phase::Settle { fd, linked: false }, _) => {
                self.go(Phase::Yield { fd });
            },
            (Phase::Yield { .. }, _) => {
                self.go(Phase::Open { side: Side::Second });
            },
            _ => {},
        }
    }

    /// Takes the outcome of the pending call.
    pub fn step(&mut self, outcome: Outcome<'_>)
        requires
            old(self)@.valid(),
            old(self)@.expects(outcome@),
        ensures
            final(self)@ == old(self)@.next(outcome@),
            final(self)@.valid(),
    {
        proof {
            lemma_next_is_valid(self@, outcome@);
        }
        match self.phase {
            Phase::Open { .. } | Phase::Lock { .. } | Phase::Pause { .. } | Phase::Close { .. } => {
                self.step_attach(outcome);
            },
            Phase::List
            | Phase::NextName
            | Phase::SweepOpen
            | Phase::SweepLock { .. }
            | Phase::SweepUnlink { .. }
            | Phase::SweepClose { .. } => {
                self.step_sweep(outcome);
            },
            Phase::Create
            | Phase::LockNew { .. }
            | Phase::Truncate { .. }
            | Phase::Write { .. }
            | Phase::Drop { .. }
            | Phase::Link { .. }
            | Phase::Settle { .. }
            | Phase::Yield { .. } => {
                self.step_publish(outcome);
            },
            _ => {
                self.step_map(outcome);
            },
        }
    }

    /// The region where the array is shared, the reason where it is not; none
    /// while the sharing is under way.
    pub fn result(self) -> (r: Option<Result<SharedRegion, String>>)
        ensures
            match self@.phase {
                Phase::Shared { fd, at, .. } => r matches Some(Ok(region)) && region@ == (Region {
                    at,
                    len: self@.bytes.len() as usize,
                    fd,
                    path: self@.path,
                }),
                Phase::Refused => r matches Some(Err(error)) && error@ == self@.error,
                _ => r is None,
            },
    {
        match self.phase {
            Phase::Shared { fd, at, .. } => Some(
                Ok(SharedRegion::new(at, self.bytes.len(), fd, self.path)),
            ),
            Phase::Refused => Some(Err(self.error)),
            _ => None,
        }
    }
}

/// Every step leads from a valid state to a valid one.
pub proof fn lemma_next_is_valid(run: Run, reply: Reply)
    requires
        run.valid(),
        run.expects(reply),
    ensures
        run.next(reply).valid(),
{
    if let Phase::NextName = run.phase {
        if let Reply::Name(Some(name)) = reply {
            if sweepable(name, run.path) {
                lemma_leftover_nul(name);
            }
        }
    }
}

/// The state in which a sharing starts.
pub open spec fn start(
    bytes: Seq<u8>,
    path: Seq<char>,
    temporary: Seq<char>,
    phase: Phase,
) -> Run {
    Run {
        bytes,
        path,
        temporary,
        leftover: Seq::empty(),
        error: Seq::empty(),
        phase,
    }
}

/// Starts to attach to an object that is already published.
pub fn attach<'a>(path: &str, bytes: &'a [u8]) -> (r: Sharing<'a>)
    requires
        bytes@.len() <= isize::MAX,
        !has_nul(path@),
    ensures
        r@ == start(bytes@, path@, Seq::empty(), Phase::Open { side: Side::Second }),
        r@.bytes == bytes@ && r@.path_of(Name::Object) == path@,
        r@.valid(),
{
    Sharing::new(bytes, path.to_owned(), String::new(), Phase::Open { side: Side::Second })
}

/// Starts to write a new object and publish it under `path`; on losing a publish
/// race, the winner's object is attached instead.
pub fn publish_then_attach<'a>(path: &str, bytes: &'a [u8], pid: u32) -> (r: Sharing<'a>)
    requires
        bytes@.len() <= isize::MAX,
        !has_nul(path@),
    ensures
        r@ == start(bytes@, path@, temporary_path(path@, pid), Phase::List),
        r@.bytes == bytes@ && r@.path_of(Name::Object) == path@,
        r@.path_of(Name::Temporary) == path@ + ".tmp"@ + decimal(pid as nat),
        r@.valid(),
{
    proof {
        lemma_temporary_nul(path@, pid);
    }
    Sharing::new(bytes, path.to_owned(), temporary_name(path, pid), Phase::List)
}

} // verus!
