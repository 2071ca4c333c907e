//! A shared array in use, and how it is given up.

use vstd::prelude::*;

use crate::system::{Action, Name, Outcome};

verus! {

use crate::placement::pages;
use crate::system::Reply;

/// A read-only shared mapping of one weight array.
pub struct SharedRegion {
    at: usize,
    len: usize,
    fd: i32,
    path: String,
}

/// What a shared region consists of.
#[verifier::ext_equal]
pub struct Region {
    /// Where the mapping starts.
    pub at: usize,
    /// How many bytes it holds.
    pub len: usize,
    /// The file that is mapped, on which a shared lock is held.
    pub fd: i32,
    /// The path of the object.
    pub path: Seq<char>,
}

impl View for SharedRegion {
    type V = Region;

    closed spec fn view(&self) -> Region {
        Region { at: self.at, len: self.len, fd: self.fd, path: self.path@ }
    }
}

impl SharedRegion {
    /// A region of `len` bytes at `at`.
    pub(crate) fn new(at: usize, len: usize, fd: i32, path: String) -> (r: SharedRegion)
        ensures
            r@ == (Region { at, len, fd, path: path@ }),
    {
        SharedRegion { at, len, fd, path }
    }

    /// The address of the first byte.
    pub fn as_ptr(&self) -> (r: usize)
        ensures
            r == self@.at,
    {
        self.at
    }

    /// How many bytes the region holds.
    pub fn len(&self) -> (r: usize)
        ensures
            r == self@.len,
    {
        self.len
    }
}

/// Where the release of a region stands: the call that it waits for.
#[derive(Debug, Clone, Copy, PartialEq, Eq, Structural)]
pub enum Exit {
    /// Release the mapping.
    Unmap,
    /// Lock the object exclusively.
    Lock,
    /// Look at the inode of the file.
    Stat,
    /// Look at the inode that the name refers to.
    StatName { inode: u64 },
    /// Remove the name.
    Unlink,
    /// Close the file.
    Close,
    /// The region is released.
    Done,
}

/// The state of a release.
#[verifier::ext_equal]
pub struct Leave {
    pub region: Region,
    pub exit: Exit,
}

impl Leave {
    /// The call that a release waits for; none where it has ended.
    pub open spec fn pending(self) -> Option<Action> {
        match self.exit {
            Exit::Unmap => Some(Action::Unmap { at: self.region.at, len: self.region.len }),
            Exit::Lock => Some(Action::LockExclusive { fd: self.region.fd }),
            Exit::Stat => Some(Action::Stat { fd: self.region.fd }),
            Exit::StatName { .. } => Some(Action::StatName(Name::Object)),
            Exit::Unlink => Some(Action::Unlink(Name::Object)),
            Exit::Close => Some(Action::Close { fd: self.region.fd }),
            Exit::Done => None,
        }
    }

    /// What a reply to the pending call leads to. The exclusive lock is had only
    /// where no other process holds the object, and the name is removed only
    /// where it still refers to the same inode, never to a successor published
    /// under it. Whatever goes wrong on the way, the file is closed.
    pub open spec fn next(self, reply: Reply) -> Leave {
        let exit = match (self.exit, reply) {
            (Exit::Unmap, _) => Exit::Lock,
            (Exit::Lock, Reply::Success) => Exit::Stat,
            (Exit::Stat, Reply::Status { inode, .. }) => Exit::StatName { inode },
            (Exit::StatName { inode }, Reply::Status { inode: named, .. }) => if inode == named {
                Exit::Unlink
            } else {
                Exit::Close
            },
            (Exit::Unlink, _) => Exit::Close,
            (Exit::Close, _) => Exit::Done,
            (Exit::Done, _) => Exit::Done,
            _ => Exit::Close,
        };
        Leave { exit, ..self }
    }
}

/// The release of a shared region: says which call to make next, and is told
/// what came of it.
pub struct Release {
    region: SharedRegion,
    exit: Exit,
}

impl View for Release {
    type V = Leave;

    closed spec fn view(&self) -> Leave {
        Leave { region: self.region@, exit: self.exit }
    }
}

impl Release {
    /// Starts to release a region.
    pub fn new(region: SharedRegion) -> (r: Release)
        ensures
            r@ == (Leave { region: region@, exit: Exit::Unmap }),
    {
        Release { region, exit: Exit::Unmap }
    }

    /// The path of the object.
    pub fn path(&self) -> (r: &str)
        ensures
            r@ == self@.region.path,
    {
        self.region.path.as_str()
    }

    /// The call to be made; none where the release has ended.
    pub fn pending(&self) -> (r: Option<Action>)
        ensures
            r == self@.pending(),
    {
        match self.exit {
            Exit::Unmap => Some(Action::Unmap { at: self.region.at, len: self.region.len }),
            Exit::Lock => Some(Action::LockExclusive { fd: self.region.fd }),
            Exit::Stat => Some(Action::Stat { fd: self.region.fd }),
            Exit::StatName { .. } => Some(Action::StatName(Name::Object)),
            Exit::Unlink => Some(Action::Unlink(Name::Object)),
            Exit::Close => Some(Action::Close { fd: self.region.fd }),
            Exit::Done => None,
        }
    }

    /// Takes the outcome of the pending call.
    pub fn step(&mut self, outcome: Outcome<'_>)
        ensures
            final(self)@ == old(self)@.next(outcome@),
    {
        let exit = match (self.exit, outcome) {
            (Exit::Unmap, _) => Exit::Lock,
            (Exit::Lock, Outcome::Success) => Exit::Stat,
            (Exit::Stat, Outcome::Status { inode, .. }) => Exit::StatName { inode },
            (Exit::StatName { inode }, Outcome::Status { inode: named, .. }) => if inode == named {
                Exit::Unlink
            } else {
                Exit::Close
            },
            (Exit::Unlink, _) => Exit::Close,
            (Exit::Close, _) => Exit::Done,
            (Exit::Done, _) => Exit::Done,
            _ => Exit::Close,
        };
        self.exit = exit;
    }
}

/// What a release has done so far.
#[verifier::ext_equal]
pub struct Parting {
    /// Whether the mapping was released.
    pub unmapped: bool,
    /// Whether the exclusive lock was had.
    pub exclusive: bool,
    /// The inode of the file.
    pub inode: Option<u64>,
    /// The inode that the name referred to.
    pub named: Option<u64>,
    /// Whether the name was removed.
    pub removed: bool,
    /// How often the file was closed.
    pub closed: nat,
    /// The addresses of the region that were not released.
    pub held: Set<int>,
    /// Whether an address was released that was not held.
    pub foreign: bool,
}

impl Parting {
    /// What has been done after the pending call of `leave` has returned `reply`.
    pub open spec fn record(self, leave: Leave, reply: Reply) -> Parting {
        match (leave.pending(), reply) {
            (Some(Action::Unmap { at, len }), _) => Parting {
                unmapped: true,
                held: self.held.difference(pages(at as int, len as int)),
                foreign: self.foreign || !pages(at as int, len as int).subset_of(self.held),
                ..self
            },
            (Some(Action::LockExclusive { .. }), Reply::Success) => Parting {
                exclusive: true,
                ..self
            },
            (Some(Action::Stat { .. }), Reply::Status { inode, .. }) => Parting {
                inode: Some(inode),
                ..self
            },
            (Some(Action::StatName(_)), Reply::Status { inode, .. }) => Parting {
                named: Some(inode),
                ..self
            },
            (Some(Action::Unlink(_)), _) => Parting { removed: true, ..self },
            (Some(Action::Close { .. }), _) => Parting { closed: self.closed + 1, ..self },
            _ => self,
        }
    }
}

/// The state of a release that has made no call.
pub open spec fn leaving(region: Region) -> Leave {
    Leave { region, exit: Exit::Unmap }
}

/// The state that a sequence of replies leads to.
pub open spec fn leave_after(region: Region, replies: Seq<Reply>) -> Leave
    decreases replies.len(),
{
    if replies.len() == 0 {
        leaving(region)
    } else {
        leave_after(region, replies.drop_last()).next(replies.last())
    }
}

/// What has been done after a sequence of replies.
pub open spec fn parting(region: Region, replies: Seq<Reply>) -> Parting
    decreases replies.len(),
{
    if replies.len() == 0 {
        Parting {
            unmapped: false,
            exclusive: false,
            inode: None,
            named: None,
            removed: false,
            closed: 0,
            held: pages(region.at as int, region.len as int),
            foreign: false,
        }
    } else {
        parting(region, replies.drop_last()).record(
            leave_after(region, replies.drop_last()),
            replies.last(),
        )
    }
}

/// The addresses that a release still holds: first the pages of the region, then
/// none.
pub open spec fn holds_in_order(leave: Leave, done: Parting) -> bool {
    &&& !done.foreign
    &&& done.held == if leave.exit is Unmap {
        pages(leave.region.at as int, leave.region.len as int)
    } else {
        Set::empty()
    }
}

/// What holds of a release at every moment.
pub open spec fn leaves_in_order(leave: Leave, done: Parting) -> bool {
    &&& done.unmapped == !(leave.exit is Unmap)
    &&& done.closed == if leave.exit is Done {
        1nat
    } else {
        0
    }
    &&& (leave.exit is Stat || leave.exit is StatName || leave.exit is Unlink) ==> done.exclusive
    &&& (leave.exit matches Exit::StatName { inode } ==> done.inode == Some(inode))
    &&& leave.exit is Unlink ==> done.inode is Some && done.inode == done.named
    &&& done.removed ==> done.exclusive && done.inode is Some && done.inode == done.named
    &&& done.removed ==> leave.exit is Close || leave.exit is Done
}

/// How many calls at most lie before the end of a release.
pub open spec fn calls_left(exit: Exit) -> nat {
    match exit {
        Exit::Unmap => 6,
        Exit::Lock => 5,
        Exit::Stat => 4,
        Exit::StatName { .. } => 3,
        Exit::Unlink => 2,
        Exit::Close => 1,
        Exit::Done => 0,
    }
}

proof fn lemma_leaves_in_order(region: Region, replies: Seq<Reply>)
    ensures
        leaves_in_order(leave_after(region, replies), parting(region, replies)),
        holds_in_order(leave_after(region, replies), parting(region, replies)),
        leave_after(region, replies).region == region,
        calls_left(leave_after(region, replies).exit) == 0 || calls_left(
            leave_after(region, replies).exit,
        ) + replies.len() <= 6,
    decreases replies.len(),
{
    if replies.len() > 0 {
        lemma_leaves_in_order(region, replies.drop_last());
        let all = pages(region.at as int, region.len as int);
        assert(all.difference(all) =~= Set::empty());
    }
}

/// Whatever the system answers, a release ends after at most six calls; it has
/// then released the mapping and closed the file, and that once. The shared lock
/// is held as long as the mapping: only once that is released is the lock turned
/// into an exclusive one, or given up with the file.
pub proof fn law_release_ends(region: Region, replies: Seq<Reply>)
    ensures
        leave_after(region, replies).region == region,
        replies.len() >= 6 ==> leave_after(region, replies).pending() is None,
        leave_after(region, replies).pending() is None ==> parting(region, replies).unmapped
            && parting(region, replies).closed == 1,
        parting(region, replies).exclusive || parting(region, replies).closed > 0 ==> parting(
            region,
            replies,
        ).unmapped,
        leave_after(region, replies).pending() == Some(Action::LockExclusive { fd: region.fd })
            || leave_after(region, replies).pending() == Some(Action::Close { fd: region.fd })
            ==> parting(region, replies).unmapped,
{
    lemma_leaves_in_order(region, replies);
}

/// A release starts with all pages of the region's bytes, and ends with none of
/// them: every address of the region is given back, before the lock is touched, and
/// no address is ever released that does not belong to it.
pub proof fn law_release_gives_back_the_region(region: Region, replies: Seq<Reply>)
    ensures
        replies.len() == 0 ==> (forall|a: int|
            #![auto]
            region.at <= a < region.at + region.len ==> parting(region, replies).held.contains(a)),
        leave_after(region, replies).pending() is None ==> parting(region, replies).held == Set::<
            int,
        >::empty(),
        parting(region, replies).exclusive || parting(region, replies).closed > 0 || parting(
            region,
            replies,
        ).removed ==> parting(region, replies).held == Set::<int>::empty(),
        !parting(region, replies).foreign,
{
    lemma_leaves_in_order(region, replies);
    crate::placement::lemma_round_up(
        region.at + region.len,
        crate::placement::PAGE as int,
    );
}

/// Every call of a release is on the region's own file or name.
pub proof fn law_release_touches_its_own_file_only(region: Region, replies: Seq<Reply>)
    ensures
        match leave_after(region, replies).pending() {
            None => true,
            Some(Action::Unmap { at, len }) => at == region.at && len == region.len
                && replies.len() == 0,
            Some(Action::LockExclusive { fd }) => fd == region.fd,
            Some(Action::Stat { fd }) => fd == region.fd,
            Some(Action::StatName(name)) => name == Name::Object,
            Some(Action::Unlink(name)) => name == Name::Object,
            Some(Action::Close { fd }) => fd == region.fd,
            Some(_) => false,
        },
{
    lemma_leaves_in_order(region, replies);
}

/// A release removes the object's name only where it has the exclusive lock, so
/// that there is no other user, and the name refers to the very file that it
/// mapped, never to a successor.
pub proof fn law_name_is_removed_only_by_last_user(region: Region, replies: Seq<Reply>)
    ensures
        (leave_after(region, replies).pending() == Some(Action::Unlink(Name::Object)) || parting(
            region,
            replies,
        ).removed) ==> ({
            let done = parting(region, replies);
            done.unmapped && done.exclusive && done.inode is Some && done.inode == done.named
        }),
{
    lemma_leaves_in_order(region, replies);
}

/// The last user of an object removes its name.
pub proof fn law_last_user_removes_name(region: Region, first: Reply, one: Reply, two: Reply)
    requires
        one is Status,
        two is Status,
        one->inode == two->inode,
    ensures
        leave_after(region, seq![first, Reply::Success, one, two]).pending() == Some(
            Action::Unlink(Name::Object),
        ),
{
    let all = seq![first, Reply::Success, one, two];
    assert(all.drop_last() =~= seq![first, Reply::Success, one]);
    assert(all.drop_last().drop_last() =~= seq![first, Reply::Success]);
    assert(all.drop_last().drop_last().drop_last() =~= seq![first]);
    assert(all.drop_last().drop_last().drop_last().drop_last() =~= Seq::<Reply>::empty());
    reveal_with_fuel(leave_after, 5);
}

} // verus!
