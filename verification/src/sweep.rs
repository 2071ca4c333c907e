//! What a sweep leaves of the directory of the objects.
//!
//! A sweep is followed reply by reply against a directory that answers as it is:
//! a file that is there and can be opened is opened, a lock is granted where
//! nobody uses the file, and a removal takes the file away where it is allowed.

use vstd::prelude::*;

use crate::naming::{DIRECTORY, PREFIX};
use crate::sharing::Phase;
use crate::system::{Action, Name};

verus! {

use crate::naming::has_nul;
use crate::sharing::{sweepable, Run};
use crate::system::Reply;
use crate::text::begins_with;

/// The directory of the objects, and what can be done with its files.
#[verifier::ext_equal]
pub struct Shelf {
    /// Whether the directory can be listed.
    pub readable: bool,
    /// The paths of the files in it.
    pub files: Set<Seq<char>>,
    /// The paths under which a file can be opened, where it is there.
    pub openable: Set<Seq<char>>,
    /// The paths of files on which an exclusive lock is granted.
    pub unused: Set<Seq<char>>,
    /// The paths of files that may be removed.
    pub removable: Set<Seq<char>>,
}

/// A sweep under way in a directory.
#[verifier::ext_equal]
pub struct Pass {
    /// The sharing that sweeps.
    pub run: Run,
    /// The directory as it now is.
    pub shelf: Shelf,
    /// The names that are still to be read.
    pub rest: Seq<Seq<char>>,
    /// The file that is open, and the path it was opened under.
    pub source: Option<(i32, Seq<char>)>,
}

impl Pass {
    /// Whether `reply` is what the directory answers to the pending call.
    pub open spec fn answers(self, reply: Reply) -> bool {
        match self.run.pending() {
            Some(Action::List) => if self.shelf.readable {
                reply is Success
            } else {
                reply is Failure
            },
            Some(Action::NextName) => if self.rest.len() > 0 {
                reply == Reply::Name(Some(self.rest[0]))
            } else {
                reply == Reply::Name(None)
            },
            Some(Action::Open(name)) => {
                let path = self.run.path_of(name);
                if self.shelf.files.contains(path) && self.shelf.openable.contains(path) {
                    reply is Opened
                } else {
                    reply is Failure
                }
            },
            Some(Action::LockExclusive { fd }) => match self.source {
                Some((file, path)) => if file == fd && self.shelf.unused.contains(path) {
                    reply is Success
                } else {
                    reply is Failure
                },
                None => reply is Failure,
            },
            Some(Action::Unlink(_)) | Some(Action::Close { .. }) => true,
            _ => false,
        }
    }

    /// What the pending call leads to where the reply is `reply`.
    pub open spec fn next(self, reply: Reply) -> Pass {
        Pass {
            run: self.run.next(reply),
            shelf: match self.run.pending() {
                Some(Action::Unlink(name)) => if self.shelf.removable.contains(
                    self.run.path_of(name),
                ) {
                    Shelf { files: self.shelf.files.remove(self.run.path_of(name)), ..self.shelf }
                } else {
                    self.shelf
                },
                _ => self.shelf,
            },
            rest: if self.run.pending() == Some(Action::NextName) && self.rest.len() > 0 {
                self.rest.drop_first()
            } else {
                self.rest
            },
            source: match (self.run.pending(), reply) {
                (Some(Action::Open(name)), Reply::Opened(fd)) => Some((fd, self.run.path_of(name))),
                (Some(Action::Close { .. }), _) => None,
                _ => self.source,
            },
        }
    }
}

/// Where a sequence of replies leads a sweep.
pub open spec fn swept(pass: Pass, replies: Seq<Reply>) -> Pass
    decreases replies.len(),
{
    if replies.len() == 0 {
        pass
    } else {
        swept(pass, replies.drop_last()).next(replies.last())
    }
}

/// Whether every reply of a sequence is what the directory answers.
pub open spec fn truthful(pass: Pass, replies: Seq<Reply>) -> bool
    decreases replies.len(),
{
    replies.len() == 0 || (truthful(pass, replies.drop_last()) && swept(
        pass,
        replies.drop_last(),
    ).answers(replies.last()))
}

/// Whether a listing names every file of the directory.
pub open spec fn lists_all(listing: Seq<Seq<char>>, files: Set<Seq<char>>) -> bool {
    forall|name: Seq<char>| #[trigger]
        files.contains("/dev/shm/"@ + name) ==> listing.contains(name)
}

/// Whether `path` is that of a leftover that nobody uses and that can be taken
/// away: a file of the directory whose name begins as those of objects do, other
/// than the object that is kept, which can be opened, locked exclusively and
/// removed.
pub open spec fn is_unused_leftover(shelf: Shelf, path: Seq<char>, keep: Seq<char>) -> bool {
    &&& shelf.readable
    &&& shelf.files.contains(path)
    &&& shelf.openable.contains(path)
    &&& shelf.unused.contains(path)
    &&& shelf.removable.contains(path)
    &&& path.len() >= 17 && path.take(17) == "/dev/shm/coda-w1-"@
    &&& path != keep
    &&& forall|i: int| 0 <= i < path.len() ==> #[trigger] path[i] != '\0'
}

/// The files that a sweep chooses are those in the directory whose names begin as
/// those of objects do, other than the one that is kept.
pub proof fn law_sweep_chooses_by_name(name: Seq<char>, keep: Seq<char>)
    ensures
        sweepable(name, keep) <==> ("/dev/shm/"@ + name).len() >= 17 && ("/dev/shm/"@ + name).take(
            17,
        ) == "/dev/shm/coda-w1-"@ && "/dev/shm/"@ + name != keep && (forall|i: int|
            0 <= i < ("/dev/shm/"@ + name).len() ==> #[trigger] ("/dev/shm/"@ + name)[i] != '\0'),
{
    reveal_strlit("/dev/shm/");
    reveal_strlit("coda-w1-");
    reveal_strlit("/dev/shm/coda-w1-");
    let path = "/dev/shm/"@ + name;
    if begins_with(name, PREFIX@) {
        assert forall|i: int| 0 <= i < 17 implies path.take(17)[i] == "/dev/shm/coda-w1-"@[i] by {
            if i >= 9 {
                assert(name.subrange(0, 8)[i - 9] == PREFIX@[i - 9]);
            }
        }
        assert(path.take(17) =~= "/dev/shm/coda-w1-"@);
    }
    if path.len() >= 17 && path.take(17) == "/dev/shm/coda-w1-"@ {
        assert forall|i: int| 0 <= i < 8 implies name.subrange(0, 8)[i] == PREFIX@[i] by {
            assert(path.take(17)[i + 9] == path[i + 9]);
        }
        assert(name.subrange(0, 8) =~= PREFIX@);
    }
    if has_nul(name) {
        let i = choose|i: int| 0 <= i < name.len() && #[trigger] name[i] == '\0';
        assert(path[i + 9] == '\0');
    } else {
        assert forall|i: int| 0 <= i < path.len() implies #[trigger] path[i] != '\0' by {
            if i >= 9 {
                assert(path[i] == name[i - 9]);
            }
        }
    }
}

/// Of the first `n` names of the listing, no unused leftover is there any more.
spec fn cleared(first: Pass, now: Pass, n: int) -> bool {
    forall|j: int|
        0 <= j < n && is_unused_leftover(
            first.shelf,
            DIRECTORY@ + #[trigger] first.rest[j],
            first.run.path,
        ) ==> !now.shelf.files.contains(DIRECTORY@ + first.rest[j])
}

/// Whether the file at hand is that of the last name that was read.
spec fn at_hand(first: Pass, now: Pass) -> bool {
    let n = first.rest.len() - now.rest.len();
    &&& n > 0
    &&& now.run.leftover == DIRECTORY@ + first.rest[n - 1]
    &&& sweepable(first.rest[n - 1], first.run.path)
    &&& cleared(first, now, n - 1)
}

/// What holds at every moment of a sweep that started as `first`.
spec fn on_course(first: Pass, now: Pass) -> bool {
    let n = first.rest.len() - now.rest.len();
    &&& now.run.path == first.run.path
    &&& now.shelf == (Shelf { files: now.shelf.files, ..first.shelf })
    &&& forall|path: Seq<char>| #[trigger]
        now.shelf.files.contains(path) ==> first.shelf.files.contains(path)
    &&& forall|path: Seq<char>| #[trigger]
        first.shelf.files.contains(path) && !now.shelf.files.contains(path) ==> is_unused_leftover(
            first.shelf,
            path,
            first.run.path,
        )
    &&& n >= 0
    &&& now.rest == first.rest.skip(n)
    &&& !(now.run.phase is List || now.run.phase is Create) ==> first.shelf.readable
    &&& match now.run.phase {
        Phase::SweepLock { fd } | Phase::SweepUnlink { fd } => now.source == Some(
            (fd, now.run.leftover),
        ),
        _ => true,
    }
    &&& match now.run.phase {
        Phase::List => n == 0,
        Phase::NextName => cleared(first, now, n),
        Phase::Create => !first.shelf.readable || (now.rest.len() == 0 && cleared(first, now, n)),
        Phase::SweepOpen => at_hand(first, now),
        Phase::SweepLock { .. } => at_hand(first, now) && now.shelf.files.contains(now.run.leftover)
            && now.shelf.openable.contains(now.run.leftover),
        Phase::SweepUnlink { .. } => at_hand(first, now) && now.shelf.files.contains(
            now.run.leftover,
        ) && now.shelf.openable.contains(now.run.leftover) && now.shelf.unused.contains(
            now.run.leftover,
        ),
        Phase::SweepClose { .. } => cleared(first, now, n),
        _ => false,
    }
}

/// A truthful reply keeps a sweep on course.
proof fn lemma_stays_on_course(first: Pass, now: Pass, reply: Reply)
    requires
        on_course(first, now),
        now.answers(reply),
    ensures
        on_course(first, now.next(reply)),
{
    let n = first.rest.len() - now.rest.len();
    let then = now.next(reply);
    match now.run.phase {
        Phase::NextName => {
            if now.rest.len() > 0 {
                assert(now.rest[0] == first.rest[n]);
                assert(then.rest =~= first.rest.skip(n + 1));
                assert(cleared(first, then, n));
                law_sweep_chooses_by_name(now.rest[0], now.run.path);
            }
        },
        Phase::SweepOpen | Phase::SweepLock { .. } => {
            assert(cleared(first, then, n - 1));
        },
        Phase::SweepUnlink { .. } => {
            law_sweep_chooses_by_name(first.rest[n - 1], first.run.path);
            assert(cleared(first, then, n - 1));
        },
        _ => {},
    }
}

/// A sweep is on course after any truthful replies.
proof fn lemma_always_on_course(first: Pass, replies: Seq<Reply>)
    requires
        first.run.pending() == Some(Action::List),
        truthful(first, replies),
    ensures
        on_course(first, swept(first, replies)),
    decreases replies.len(),
{
    if replies.len() == 0 {
        assert(first.rest =~= first.rest.skip(0));
    } else {
        lemma_always_on_course(first, replies.drop_last());
        lemma_stays_on_course(first, swept(first, replies.drop_last()), replies.last());
    }
}

/// A sweep that was told the name of every file and has come to its end has taken
/// away exactly the unused leftovers: every file of the directory whose name begins
/// as those of objects do, other than the kept object, and that could be opened,
/// locked exclusively and removed. It has left everything else as it was.
pub proof fn law_sweep_takes_every_unused_leftover(first: Pass, replies: Seq<Reply>)
    requires
        first.run.pending() == Some(Action::List),
        lists_all(first.rest, first.shelf.files),
        truthful(first, replies),
        swept(first, replies).run.pending() == Some(Action::Create(Name::Temporary)),
    ensures
        forall|path: Seq<char>| #[trigger]
            swept(first, replies).shelf.files.contains(path) <==> first.shelf.files.contains(path)
                && !is_unused_leftover(first.shelf, path, first.run.path),
        swept(first, replies).shelf == (Shelf {
            files: swept(first, replies).shelf.files,
            ..first.shelf
        }),
{
    lemma_always_on_course(first, replies);
    let last = swept(first, replies);
    assert forall|path: Seq<char>| #[trigger] last.shelf.files.contains(path) implies !(
    is_unused_leftover(first.shelf, path, first.run.path)) by {
        if is_unused_leftover(first.shelf, path, first.run.path) {
            reveal_strlit("/dev/shm/");
            reveal_strlit("/dev/shm/coda-w1-");
            let name = path.skip(9);
            assert forall|i: int| 0 <= i < 9 implies path[i] == "/dev/shm/"@[i] by {
                assert(path.take(17)[i] == path[i]);
            }
            assert(path =~= "/dev/shm/"@ + name);
            assert(first.shelf.files.contains("/dev/shm/"@ + name));
            let j = choose|j: int| 0 <= j < first.rest.len() && first.rest[j] == name;
            assert(is_unused_leftover(first.shelf, DIRECTORY@ + first.rest[j], first.run.path));
        }
    }
}

/// Where there is no unused leftover, a sweep takes nothing.
proof fn lemma_nothing_to_take(first: Pass, replies: Seq<Reply>)
    requires
        first.run.pending() == Some(Action::List),
        truthful(first, replies),
        forall|path: Seq<char>| !#[trigger] is_unused_leftover(first.shelf, path, first.run.path),
    ensures
        swept(first, replies).shelf == first.shelf,
        swept(first, replies).run.pending() == Some(Action::Unlink(Name::Leftover))
            ==> !first.shelf.removable.contains(
            swept(first, replies).run.path_of(Name::Leftover),
        ),
{
    lemma_always_on_course(first, replies);
    let last = swept(first, replies);
    assert(last.shelf.files =~= first.shelf.files);
    if last.run.phase is SweepUnlink && first.shelf.removable.contains(last.run.leftover) {
        let n = first.rest.len() - last.rest.len();
        law_sweep_chooses_by_name(first.rest[n - 1], first.run.path);
        let path = last.run.leftover;
        assert(path == "/dev/shm/"@ + first.rest[n - 1]);
        assert(first.shelf.files.contains(path));
        assert(is_unused_leftover(first.shelf, path, first.run.path));
    }
}

/// A second sweep of a directory in which neither a file nor a lock has changed
/// since the first removes nothing: whatever names it is told, the directory stays
/// as it is. Where it still asks for a removal, the file is one that cannot be
/// removed.
pub proof fn law_second_sweep_removes_nothing(
    first: Pass,
    replies: Seq<Reply>,
    second: Pass,
    more: Seq<Reply>,
)
    requires
        first.run.pending() == Some(Action::List),
        lists_all(first.rest, first.shelf.files),
        truthful(first, replies),
        swept(first, replies).run.pending() == Some(Action::Create(Name::Temporary)),
        second.run.pending() == Some(Action::List),
        second.run.path == first.run.path,
        second.shelf == swept(first, replies).shelf,
        truthful(second, more),
    ensures
        swept(second, more).shelf == second.shelf,
        swept(second, more).run.pending() == Some(Action::Unlink(Name::Leftover))
            ==> !second.shelf.removable.contains(
            swept(second, more).run.path_of(Name::Leftover),
        ),
{
    law_sweep_takes_every_unused_leftover(first, replies);
    assert forall|path: Seq<char>| !#[trigger] is_unused_leftover(
        second.shelf,
        path,
        second.run.path,
    ) by {
        if is_unused_leftover(second.shelf, path, second.run.path) {
            assert(swept(first, replies).shelf.files.contains(path));
            assert(is_unused_leftover(first.shelf, path, first.run.path));
        }
    }
    lemma_nothing_to_take(second, more);
}

} // verus!
