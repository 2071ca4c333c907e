//! What holds of every sharing, whatever the system answers.
//!
//! A ledger follows a sharing call by call: which files it has open and locked,
//! which addresses it holds, which names it has put up, and what it has read and
//! written. The laws speak of the ledger after any sequence of replies.

use vstd::multiset::Multiset;
use vstd::prelude::*;

use crate::naming::{DIRECTORY, PREFIX};
use crate::placement::{HUGE, PAGE};
use crate::sharing::{Phase, Side, COLLAPSE_TRIES, LOCK_TRIES};
use crate::system::{Action, Name};

verus! {

use crate::placement::{
    aligned_start, head_len, law_placement_is_aligned, law_placement_splits_reservation,
    lemma_round_up, pages, span_of,
};
use crate::sharing::{call_error, lemma_next_is_valid, says_missing, size_error, sweepable, Run};
use crate::system::Reply;
use crate::text::begins_with;

/// What a sharing has done so far.
#[verifier::ext_equal]
pub struct Ledger {
    /// The files that were opened and not closed.
    pub open: Multiset<i32>,
    /// The open files on which a shared lock was taken.
    pub shared: Set<i32>,
    /// The open files on which an exclusive lock was taken.
    pub exclusive: Set<i32>,
    /// The file that was opened last, and the path it was opened under.
    pub source: Option<(i32, Seq<char>)>,
    /// The addresses that were reserved and not released.
    pub held: Set<int>,
    /// What was last read of a mapping, and where.
    pub seen: Option<(usize, Seq<u8>)>,
    /// Whether the temporary name was created and not removed.
    pub temporary: bool,
    /// Whether the object's name was put up and not removed.
    pub published: bool,
    /// The content of the file that was created.
    pub file: Seq<u8>,
    /// How often it has waited for a lock.
    pub pauses: nat,
    /// How often it has asked for huge pages to be built.
    pub collapses: nat,
}

/// The ledger of a sharing that has made no call.
pub open spec fn clean() -> Ledger {
    Ledger {
        open: Multiset::empty(),
        shared: Set::empty(),
        exclusive: Set::empty(),
        source: None,
        held: Set::empty(),
        seen: None,
        temporary: false,
        published: false,
        file: Seq::empty(),
        pauses: 0,
        collapses: 0,
    }
}

/// `file` with the bytes of `array` written over it, from `from` up to `to`.
pub open spec fn overwritten(file: Seq<u8>, array: Seq<u8>, from: int, to: int) -> Seq<u8> {
    Seq::new(
        file.len(),
        |i: int|
            if from <= i < to {
                array[i]
            } else {
                file[i]
            },
    )
}

impl Ledger {
    /// The ledger with one more file open.
    pub open spec fn opened(self, fd: i32, path: Seq<char>) -> Ledger {
        Ledger {
            open: self.open.insert(fd),
            shared: self.shared.remove(fd),
            exclusive: self.exclusive.remove(fd),
            source: Some((fd, path)),
            ..self
        }
    }

    /// The ledger after the pending call of `run` has returned `reply`.
    pub open spec fn record(self, run: Run, reply: Reply) -> Ledger {
        match (run.pending(), reply) {
            (Some(Action::Open(name)), Reply::Opened(fd)) => self.opened(fd, run.path_of(name)),
            (Some(Action::Create(name)), Reply::Opened(fd)) => Ledger {
                temporary: true,
                file: Seq::empty(),
                ..self.opened(fd, run.path_of(name))
            },
            (Some(Action::LockShared { fd }), Reply::Success) => Ledger {
                shared: self.shared.insert(fd),
                ..self
            },
            (Some(Action::LockExclusive { fd }), Reply::Success) => Ledger {
                exclusive: self.exclusive.insert(fd),
                ..self
            },
            (Some(Action::Pause { .. }), _) => Ledger { pauses: self.pauses + 1, ..self },
            (Some(Action::Collapse { .. }), _) => Ledger { collapses: self.collapses + 1, ..self },
            (Some(Action::Reserve { len }), Reply::Reserved(base)) => Ledger {
                held: self.held.union(pages(base as int, len as int)),
                ..self
            },
            (Some(Action::Unmap { at, len }), _) => Ledger {
                held: self.held.difference(pages(at as int, len as int)),
                ..self
            },
            (Some(Action::Look { at, .. }), Reply::Contents(mapped)) => Ledger {
                seen: Some((at, mapped)),
                ..self
            },
            (Some(Action::Close { fd }), _) => Ledger {
                open: self.open.remove(fd),
                shared: self.shared.remove(fd),
                exclusive: self.exclusive.remove(fd),
                ..self
            },
            (Some(Action::Unlink(Name::Temporary)), _) => Ledger { temporary: false, ..self },
            (Some(Action::Unlink(Name::Object)), _) => Ledger { published: false, ..self },
            (Some(Action::Link { .. }), Reply::Success) => Ledger { published: true, ..self },
            (Some(Action::Truncate { len, .. }), Reply::Success) => Ledger {
                file: Seq::new(len as nat, |i: int| 0u8),
                ..self
            },
            (Some(Action::Write { from, .. }), Reply::Written { count, .. }) => Ledger {
                file: overwritten(self.file, run.bytes, from as int, from + count),
                ..self
            },
            _ => self,
        }
    }
}

/// The state that a sequence of replies leads to.
pub open spec fn after(run: Run, replies: Seq<Reply>) -> Run
    decreases replies.len(),
{
    if replies.len() == 0 {
        run
    } else {
        after(run, replies.drop_last()).next(replies.last())
    }
}

/// The ledger that a sequence of replies leads to.
pub open spec fn ledger(run: Run, replies: Seq<Reply>) -> Ledger
    decreases replies.len(),
{
    if replies.len() == 0 {
        clean()
    } else {
        ledger(run, replies.drop_last()).record(after(run, replies.drop_last()), replies.last())
    }
}

/// Whether every reply of a sequence is one that the call can return.
pub open spec fn possible(run: Run, replies: Seq<Reply>) -> bool
    decreases replies.len(),
{
    replies.len() == 0 || (possible(run, replies.drop_last()) && after(
        run,
        replies.drop_last(),
    ).expects(replies.last()))
}

/// Whether every reservation in a sequence of replies starts on a page, as the
/// system gives them.
pub open spec fn page_aligned(replies: Seq<Reply>) -> bool {
    forall|i: int|
        0 <= i < replies.len() ==> (#[trigger] replies[i] matches Reply::Reserved(base) ==> base
            % PAGE == 0)
}

/// Whether `run` is a state in which a sharing starts.
pub open spec fn starts(run: Run) -> bool {
    &&& run.valid()
    &&& run.phase is Open || run.phase is List
}

/// The file that a sharing has open in a phase.
pub open spec fn file_of(phase: Phase) -> Option<i32> {
    match phase {
        Phase::Open { .. }
        | Phase::List
        | Phase::NextName
        | Phase::SweepOpen
        | Phase::Create
        | Phase::Refused => None,
        Phase::Lock { fd, .. }
        | Phase::Pause { fd, .. }
        | Phase::Stat { fd, .. }
        | Phase::Reserve { fd, .. }
        | Phase::MapFile { fd, .. }
        | Phase::Abandon { fd, .. }
        | Phase::TrimHead { fd, .. }
        | Phase::TrimTail { fd, .. }
        | Phase::Look { fd, .. }
        | Phase::Discard { fd, .. }
        | Phase::Advise { fd, .. }
        | Phase::Collapse { fd, .. }
        | Phase::Withdraw { fd }
        | Phase::Close { fd }
        | Phase::SweepLock { fd }
        | Phase::SweepUnlink { fd }
        | Phase::SweepClose { fd }
        | Phase::LockNew { fd }
        | Phase::Truncate { fd }
        | Phase::Write { fd, .. }
        | Phase::Drop { fd }
        | Phase::Link { fd }
        | Phase::Settle { fd, .. }
        | Phase::Yield { fd }
        | Phase::Shared { fd, .. } => Some(fd),
    }
}

/// The side of a phase in which a locked object is at hand.
pub open spec fn side_of(phase: Phase) -> Option<Side> {
    match phase {
        Phase::Stat { side, .. }
        | Phase::Reserve { side, .. }
        | Phase::MapFile { side, .. }
        | Phase::Abandon { side, .. }
        | Phase::TrimHead { side, .. }
        | Phase::TrimTail { side, .. }
        | Phase::Look { side, .. }
        | Phase::Discard { side, .. }
        | Phase::Advise { side, .. }
        | Phase::Collapse { side, .. }
        | Phase::Shared { side, .. } => Some(side),
        _ => None,
    }
}

/// The phases in which the file at hand is locked.
pub open spec fn is_locked(phase: Phase) -> bool {
    side_of(phase) is Some || phase is Truncate || phase is Write || phase is Link || phase is Settle
        || phase is Withdraw || phase is Yield
}

/// The phases in which the temporary name exists.
pub open spec fn has_temporary(phase: Phase) -> bool {
    phase is LockNew || phase is Truncate || phase is Write || phase is Drop || phase is Link
        || phase is Settle
}

/// The phases in which the object's name was put up by the sharing itself.
pub open spec fn has_published(phase: Phase) -> bool {
    side_of(phase) == Some(Side::Publisher) || phase is Withdraw || (phase matches Phase::Settle {
        linked,
        ..
    } && linked)
}

/// The phases in which a refusal is certain.
pub open spec fn is_failing(phase: Phase) -> bool {
    phase is Abandon || phase is Discard || phase is Withdraw || phase is Close || phase is Drop
        || phase is Refused
}

/// The addresses that a sharing holds in a phase.
pub open spec fn addresses_of(phase: Phase, len: int) -> Set<int> {
    match phase {
        Phase::MapFile { base, .. } | Phase::Abandon { base, .. } | Phase::TrimHead { base, .. } =>
            pages(base as int, span_of(len)),
        Phase::TrimTail { base, .. } => pages(base as int, span_of(len)).difference(
            pages(base as int, head_len(base as int)),
        ),
        Phase::Look { at, .. }
        | Phase::Discard { at, .. }
        | Phase::Advise { at, .. }
        | Phase::Collapse { at, .. }
        | Phase::Shared { at, .. } => pages(at as int, len),
        _ => Set::empty(),
    }
}

/// Whether the reservation of a phase starts on a page.
pub open spec fn is_page_aligned(phase: Phase) -> bool {
    match phase {
        Phase::MapFile { base, .. }
        | Phase::Abandon { base, .. }
        | Phase::TrimHead { base, .. }
        | Phase::TrimTail { base, .. } => base % PAGE == 0,
        _ => true,
    }
}

/// Whether the mapping of a phase starts on a huge page.
pub open spec fn is_huge_aligned(phase: Phase) -> bool {
    match phase {
        Phase::Look { at, .. }
        | Phase::Discard { at, .. }
        | Phase::Advise { at, .. }
        | Phase::Collapse { at, .. }
        | Phase::Shared { at, .. } => at % HUGE == 0,
        _ => true,
    }
}

/// Whether `path` is one that a sweep may touch: in the directory of the objects,
/// named like one, and not the object that is kept.
pub open spec fn is_leftover(path: Seq<char>, keep: Seq<char>) -> bool {
    begins_with(path, DIRECTORY@ + PREFIX@) && path != keep
}

/// Where a sweep stands, the file at hand was opened under a leftover's path, and
/// is removed only under an exclusive lock.
pub open spec fn sweeps_safely(run: Run, l: Ledger) -> bool {
    match run.phase {
        Phase::SweepOpen => is_leftover(run.leftover, run.path),
        Phase::SweepLock { fd } => is_leftover(run.leftover, run.path) && l.source == Some(
            (fd, run.leftover),
        ),
        Phase::SweepUnlink { fd } => is_leftover(run.leftover, run.path) && l.source == Some(
            (fd, run.leftover),
        ) && l.exclusive.contains(fd),
        _ => true,
    }
}

/// Under which path the file at hand was opened: the temporary file is the only
/// one that is written, and what is mapped is the object, or the file that was
/// published as it.
pub open spec fn knows_file(run: Run, l: Ledger) -> bool {
    match run.phase {
        Phase::Lock { fd, .. } | Phase::Pause { fd, .. } => l.source == Some((fd, run.path)),
        Phase::LockNew { fd }
        | Phase::Truncate { fd }
        | Phase::Write { fd, .. }
        | Phase::Link { fd }
        | Phase::Settle { fd, .. } => l.source == Some((fd, run.temporary)),
        _ => side_of(run.phase) matches Some(side) ==> (file_of(run.phase) matches Some(fd)
            && l.source == Some(
            (
                fd,
                if side == Side::Publisher {
                    run.temporary
                } else {
                    run.path
                },
            ),
        )),
    }
}

/// How far the file is written.
pub open spec fn writes_array(run: Run, l: Ledger) -> bool {
    match run.phase {
        Phase::Write { from, .. } => l.file.len() == run.bytes.len() && (forall|i: int|
            0 <= i < from ==> #[trigger] l.file[i] == run.bytes[i]),
        Phase::Link { .. } => l.file == run.bytes,
        _ => l.published ==> l.file == run.bytes,
    }
}

/// How often a sharing has tried again.
pub open spec fn counts_tries(run: Run, l: Ledger) -> bool {
    match run.phase {
        Phase::Lock { tries, .. } | Phase::Pause { tries, .. } => l.pauses == tries && l.collapses
            == 0,
        Phase::Collapse { tries, .. } => l.collapses == tries && l.pauses < LOCK_TRIES,
        Phase::Shared { .. } => l.collapses <= COLLAPSE_TRIES && l.pauses < LOCK_TRIES,
        Phase::Close { .. } | Phase::Refused => l.collapses == 0 && l.pauses <= LOCK_TRIES,
        Phase::Withdraw { .. } => l.collapses == 0 && l.pauses < LOCK_TRIES,
        _ => l.collapses == 0 && if side_of(run.phase) is Some {
            l.pauses < LOCK_TRIES
        } else {
            l.pauses == 0
        },
    }
}

/// What holds of a sharing and its ledger at every moment.
pub open spec fn in_order(run: Run, l: Ledger) -> bool {
    &&& run.valid()
    &&& l.open == match file_of(run.phase) {
        Some(fd) => Multiset::singleton(fd),
        None => Multiset::empty(),
    }
    &&& is_locked(run.phase) ==> (file_of(run.phase) matches Some(fd) && l.shared.contains(fd))
    &&& l.temporary == has_temporary(run.phase)
    &&& l.published == has_published(run.phase)
    &&& is_failing(run.phase) ==> run.error.len() > 0
    &&& is_huge_aligned(run.phase)
    &&& match run.phase {
        Phase::Advise { at, .. } | Phase::Collapse { at, .. } | Phase::Shared { at, .. } => l.seen
            == Some((at, run.bytes)),
        _ => true,
    }
    &&& sweeps_safely(run, l)
    &&& knows_file(run, l)
    &&& writes_array(run, l)
    &&& counts_tries(run, l)
}

/// Every reason that is given has words.
proof fn lemma_reasons_have_words(text: Seq<char>, size: int, len: nat)
    ensures
        call_error("open"@, text).len() > 0,
        call_error("fstat"@, text).len() > 0,
        call_error("mmap reserve"@, text).len() > 0,
        call_error("mmap"@, text).len() > 0,
        call_error("create"@, text).len() > 0,
        call_error("flock"@, text).len() > 0,
        call_error("ftruncate"@, text).len() > 0,
        call_error("write"@, text).len() > 0,
        size_error(size, len).len() > 0,
        "lock busy"@.len() > 0,
        "object was removed"@.len() > 0,
        "content mismatch"@.len() > 0,
{
    reveal_strlit(": ");
    reveal_strlit("size mismatch (");
    reveal_strlit("lock busy");
    reveal_strlit("object was removed");
    reveal_strlit("content mismatch");
}

/// The path of a file that may be a leftover is a leftover's.
proof fn lemma_sweepable_is_leftover(name: Seq<char>, keep: Seq<char>)
    requires
        sweepable(name, keep),
    ensures
        is_leftover(DIRECTORY@ + name, keep),
{
    let path = DIRECTORY@ + name;
    let front = DIRECTORY@ + PREFIX@;
    assert(path.subrange(0, front.len() as int) =~= front) by {
        assert forall|i: int| 0 <= i < front.len() implies path[i] == front[i] by {
            if i >= DIRECTORY@.len() {
                let k = i - DIRECTORY@.len();
                assert(name.subrange(0, PREFIX@.len() as int)[k] == PREFIX@[k]);
            }
        }
    }
}

/// The files and locks of a sharing stay in order.
proof fn lemma_files_stay_in_order(run: Run, l: Ledger, reply: Reply)
    requires
        in_order(run, l),
        run.expects(reply),
    ensures
        ({
            let run2 = run.next(reply);
            let l2 = l.record(run, reply);
            &&& l2.open == match file_of(run2.phase) {
                Some(fd) => Multiset::singleton(fd),
                None => Multiset::empty(),
            }
            &&& is_locked(run2.phase) ==> (file_of(run2.phase) matches Some(fd)
                && l2.shared.contains(fd))
            &&& l2.temporary == has_temporary(run2.phase)
            &&& l2.published == has_published(run2.phase)
        }),
{
    let l2 = l.record(run, reply);
    let run2 = run.next(reply);
    assert(l2.open =~= match file_of(run2.phase) {
        Some(fd) => Multiset::singleton(fd),
        None => Multiset::empty(),
    });
}

/// What holds of the addresses of a sharing at every moment, where reservations
/// start on a page.
pub open spec fn addresses_in_order(run: Run, l: Ledger) -> bool {
    l.held == addresses_of(run.phase, run.bytes.len() as int) && is_page_aligned(run.phase)
}

/// A mapping starts on a huge page.
proof fn lemma_mapping_stays_aligned(run: Run, l: Ledger, reply: Reply)
    requires
        in_order(run, l),
        run.expects(reply),
    ensures
        is_huge_aligned(run.next(reply).phase),
{
    match run.phase {
        Phase::MapFile { base, .. } | Phase::TrimHead { base, .. } | Phase::TrimTail { base, .. } => {
            law_placement_is_aligned(base as int, run.bytes.len() as int);
        },
        _ => {},
    }
}

/// The addresses of a sharing stay in order.
proof fn lemma_addresses_stay_in_order(run: Run, l: Ledger, reply: Reply)
    requires
        in_order(run, l),
        addresses_in_order(run, l),
        run.expects(reply),
        reply matches Reply::Reserved(base) ==> base % PAGE == 0,
    ensures
        addresses_in_order(run.next(reply), l.record(run, reply)),
{
    let len = run.bytes.len() as int;
    let l2 = l.record(run, reply);
    let run2 = run.next(reply);
    match run.phase {
        Phase::Reserve { .. } => {
            if let Reply::Reserved(base) = reply {
                assert(Set::<int>::empty().union(pages(base as int, span_of(len))) =~= pages(
                    base as int,
                    span_of(len),
                ));
            }
        },
        Phase::MapFile { base, .. } | Phase::Abandon { base, .. } | Phase::TrimHead { base, .. }
        | Phase::TrimTail { base, .. } => {
            let b = base as int;
            law_placement_is_aligned(b, len);
            law_placement_splits_reservation(b, len);
            lemma_round_up(b, PAGE as int);
            lemma_round_up(aligned_start(b) + len, PAGE as int);
            if head_len(b) == 0 {
                assert(pages(b, span_of(len)).difference(pages(b, 0)) =~= pages(b, span_of(len)));
            }
            assert(pages(b, span_of(len)).difference(pages(b, span_of(len))) =~= Set::empty());
        },
        Phase::Discard { at, .. } => {
            assert(pages(at as int, len).difference(pages(at as int, len)) =~= Set::empty());
        },
        _ => {},
    }
}

/// What was read and written, the sweep, the tries and the reasons stay in
/// order.
proof fn lemma_work_stays_in_order(run: Run, l: Ledger, reply: Reply)
    requires
        in_order(run, l),
        run.expects(reply),
    ensures
        ({
            let run2 = run.next(reply);
            let l2 = l.record(run, reply);
            &&& is_failing(run2.phase) ==> run2.error.len() > 0
            &&& match run2.phase {
                Phase::Advise { at, .. } | Phase::Collapse { at, .. } | Phase::Shared { at, .. } =>
                    l2.seen == Some((at, run2.bytes)),
                _ => true,
            }
            &&& sweeps_safely(run2, l2)
            &&& knows_file(run2, l2)
            &&& counts_tries(run2, l2)
        }),
{
    match reply {
        Reply::Failure { text, .. } => {
            lemma_reasons_have_words(text, 0, 0);
        },
        Reply::Written { text, .. } => {
            lemma_reasons_have_words(text, 0, 0);
        },
        Reply::Status { size, .. } => {
            lemma_reasons_have_words(Seq::empty(), size as int, run.bytes.len());
        },
        Reply::Name(Some(name)) => {
            if sweepable(name, run.path) {
                lemma_sweepable_is_leftover(name, run.path);
            }
        },
        _ => {},
    }
    lemma_reasons_have_words(Seq::empty(), 0, 0);
}

/// The file that is written stays in order.
proof fn lemma_file_stays_in_order(run: Run, l: Ledger, reply: Reply)
    requires
        in_order(run, l),
        run.expects(reply),
    ensures
        writes_array(run.next(reply), l.record(run, reply)),
{
    let l2 = l.record(run, reply);
    if let Phase::Write { from, .. } = run.phase {
        if let Reply::Written { count, .. } = reply {
            if count > 0 && from + count >= run.bytes.len() {
                assert(l2.file =~= run.bytes);
            }
        }
    }
    if let Phase::Truncate { .. } = run.phase {
        if run.bytes.len() == 0 {
            assert(l2.file.len() == 0 ==> l2.file =~= run.bytes);
        }
    }
}

/// A possible reply keeps everything in order.
pub proof fn lemma_stays_in_order(run: Run, l: Ledger, reply: Reply)
    requires
        in_order(run, l),
        run.expects(reply),
    ensures
        in_order(run.next(reply), l.record(run, reply)),
        run.next(reply).bytes == run.bytes,
        run.next(reply).path == run.path,
        run.next(reply).temporary == run.temporary,
{
    lemma_next_is_valid(run, reply);
    lemma_files_stay_in_order(run, l, reply);
    lemma_mapping_stays_aligned(run, l, reply);
    lemma_work_stays_in_order(run, l, reply);
    lemma_file_stays_in_order(run, l, reply);
}

/// Everything is in order after any possible replies; the array and the names
/// stay what they were.
pub proof fn law_always_in_order(run: Run, replies: Seq<Reply>)
    requires
        starts(run),
        possible(run, replies),
    ensures
        in_order(after(run, replies), ledger(run, replies)),
        after(run, replies).bytes == run.bytes,
        after(run, replies).path == run.path,
        after(run, replies).temporary == run.temporary,
    decreases replies.len(),
{
    if replies.len() > 0 {
        law_always_in_order(run, replies.drop_last());
        lemma_stays_in_order(
            after(run, replies.drop_last()),
            ledger(run, replies.drop_last()),
            replies.last(),
        );
    }
}

/// The addresses are in order after any possible replies.
proof fn lemma_always_holds_addresses(run: Run, replies: Seq<Reply>)
    requires
        starts(run),
        possible(run, replies),
        page_aligned(replies),
    ensures
        addresses_in_order(after(run, replies), ledger(run, replies)),
    decreases replies.len(),
{
    if replies.len() > 0 {
        let before = replies.drop_last();
        assert(page_aligned(before)) by {
            assert forall|i: int| 0 <= i < before.len() implies (
            #[trigger] before[i] matches Reply::Reserved(base) ==> base % PAGE == 0) by {
                assert(before[i] == replies[i]);
            }
        }
        lemma_always_holds_addresses(run, before);
        law_always_in_order(run, before);
        assert(replies[replies.len() - 1] == replies.last());
        lemma_addresses_stay_in_order(after(run, before), ledger(run, before), replies.last());
    }
}

/// An array ends up shared only where the mapping that is handed out has been
/// read in full and holds exactly the bytes of the array: a stale, partial or
/// colliding object is never used. The mapping starts on a huge-page boundary.
pub proof fn law_shared_array_was_compared(run: Run, replies: Seq<Reply>)
    requires
        starts(run),
        possible(run, replies),
    ensures
        after(run, replies).phase matches Phase::Shared { at, .. } ==> ledger(run, replies).seen
            == Some((at, run.bytes)) && at % HUGE == 0,
{
    law_always_in_order(run, replies);
}

/// A refused sharing has closed every file that it opened; a successful one has
/// exactly the file of its region open.
pub proof fn law_files_are_closed(run: Run, replies: Seq<Reply>)
    requires
        starts(run),
        possible(run, replies),
    ensures
        after(run, replies).phase is Refused ==> ledger(run, replies).open == Multiset::<
            i32,
        >::empty(),
        after(run, replies).phase matches Phase::Shared { fd, .. } ==> ledger(run, replies).open
            == Multiset::singleton(fd),
{
    law_always_in_order(run, replies);
}

/// Where the system gives reservations that start on a page: a refused sharing
/// has released every address that it reserved; a successful one holds exactly
/// the pages of its region.
pub proof fn law_addresses_are_released(run: Run, replies: Seq<Reply>)
    requires
        starts(run),
        possible(run, replies),
        page_aligned(replies),
    ensures
        after(run, replies).phase is Refused ==> ledger(run, replies).held == Set::<int>::empty(),
        after(run, replies).phase matches Phase::Shared { at, .. } ==> ledger(run, replies).held
            == pages(at as int, run.bytes.len() as int),
{
    law_always_in_order(run, replies);
    lemma_always_holds_addresses(run, replies);
}

/// A leftover's path begins with the directory and the prefix of the objects.
proof fn lemma_leftover_path(path: Seq<char>, keep: Seq<char>)
    requires
        is_leftover(path, keep),
    ensures
        path.len() >= 17,
        path.take(17) == "/dev/shm/coda-w1-"@,
        path != keep,
{
    reveal_strlit("/dev/shm/");
    reveal_strlit("coda-w1-");
    reveal_strlit("/dev/shm/coda-w1-");
    assert(DIRECTORY@ + PREFIX@ =~= "/dev/shm/coda-w1-"@);
    assert(path.take(17) =~= path.subrange(0, 17));
}

/// Whether a call on files is in place, for a sharing of `run` that has come to
/// `now` and has done what `l` says.
///
/// * Only the object, the temporary file and leftovers are opened, created or
///   removed: the temporary file where the sharing has created it, the object where
///   it has put it up, and a leftover where it holds it locked exclusively.
/// * Only files that are open are locked, looked at, sized, written, mapped or
///   closed; the temporary file is given the size of the array and its bytes in
///   order, and only then the object's name.
pub open spec fn is_in_place(action: Action, run: Run, now: Run, l: Ledger) -> bool {
    match action {
        Action::Open(name) => {
            let path = now.path_of(name);
            ||| path == run.path
            ||| path.len() >= 17 && path.take(17) == "/dev/shm/coda-w1-"@
        },
        Action::Create(name) => now.path_of(name) == run.temporary && !l.temporary,
        Action::LockShared { fd } => l.open.contains(fd) && (l.source == Some((fd, run.path))
            || l.source == Some((fd, run.temporary))),
        Action::LockExclusive { fd } => l.open.contains(fd) && l.source == Some(
            (fd, now.path_of(Name::Leftover)),
        ),
        Action::Pause { millis } => millis == 1,
        Action::Stat { fd } | Action::MapFile { fd, .. } => l.open.contains(fd)
            && l.shared.contains(fd),
        Action::Close { fd } => l.open.contains(fd),
        Action::Unlink(name) => {
            let path = now.path_of(name);
            ||| path == run.temporary && l.temporary
            ||| path == run.path && l.published
            ||| path != run.path && path.len() >= 17 && path.take(17) == "/dev/shm/coda-w1-"@ && (
            l.source matches Some((fd, opened)) && opened == path && l.open.contains(fd)
                && l.exclusive.contains(fd))
        },
        Action::Link { file, name } => now.path_of(file) == run.temporary && now.path_of(name)
            == run.path && l.file == run.bytes && l.temporary,
        Action::Truncate { fd, len } => l.open.contains(fd) && l.source == Some(
            (fd, run.temporary),
        ) && len == run.bytes.len(),
        Action::Write { fd, from } => l.open.contains(fd) && l.source == Some((fd, run.temporary))
            && from < run.bytes.len() && l.file.len() == run.bytes.len() && (forall|i: int|
            0 <= i < from ==> #[trigger] l.file[i] == run.bytes[i]),
        Action::StatName(_) => false,
        _ => true,
    }
}

/// Every call on files that a sharing asks for is in place, whatever the system has
/// answered.
pub proof fn law_every_file_call_is_in_place(run: Run, replies: Seq<Reply>)
    requires
        starts(run),
        possible(run, replies),
    ensures
        after(run, replies).pending() matches Some(action) ==> is_in_place(
            action,
            run,
            after(run, replies),
            ledger(run, replies),
        ),
{
    law_always_in_order(run, replies);
    let now = after(run, replies);
    if is_leftover(now.leftover, run.path) {
        lemma_leftover_path(now.leftover, run.path);
    }
}

/// A sharing that has ended leaves no temporary name behind; where it was
/// refused it leaves no object behind that it put up, and gives a reason.
pub proof fn law_refusal_leaves_no_name(run: Run, replies: Seq<Reply>)
    requires
        starts(run),
        possible(run, replies),
    ensures
        after(run, replies).pending() is None ==> !ledger(run, replies).temporary,
        after(run, replies).phase is Refused ==> !ledger(run, replies).published && after(
            run,
            replies,
        ).error.len() > 0,
{
    law_always_in_order(run, replies);
}

/// The object's name is put up only once the whole array is written, and what it
/// then names holds exactly the bytes of the array.
pub proof fn law_published_object_is_whole(run: Run, replies: Seq<Reply>)
    requires
        starts(run),
        possible(run, replies),
    ensures
        after(run, replies).pending() == Some(
            Action::Link { file: Name::Temporary, name: Name::Object },
        ) ==> ledger(run, replies).file == run.bytes,
        ledger(run, replies).published ==> ledger(run, replies).file == run.bytes,
{
    law_always_in_order(run, replies);
}

/// The only file that is ever created, sized or written is the temporary one of
/// the process: no object that another process may use is changed.
pub proof fn law_only_temporary_file_is_written(run: Run, replies: Seq<Reply>)
    requires
        starts(run),
        possible(run, replies),
    ensures
        after(run, replies).pending() matches Some(Action::Create(name)) ==> name
            == Name::Temporary,
        after(run, replies).pending() matches Some(Action::Truncate { fd, .. }) ==> ledger(
            run,
            replies,
        ).source == Some((fd, run.temporary)),
        after(run, replies).pending() matches Some(Action::Write { fd, .. }) ==> ledger(
            run,
            replies,
        ).source == Some((fd, run.temporary)),
{
    law_always_in_order(run, replies);
}

/// What is handed out is a mapping of the object of that name, or of the file
/// that the process has itself published as it.
pub proof fn law_shared_file_is_the_object(run: Run, replies: Seq<Reply>)
    requires
        starts(run),
        possible(run, replies),
    ensures
        after(run, replies).phase matches Phase::Shared { side, fd, .. } ==> {
            ||| side != Side::Publisher && ledger(run, replies).source == Some((fd, run.path))
            ||| side == Side::Publisher && ledger(run, replies).source == Some((fd, run.temporary))
                && ledger(run, replies).published
        },
{
    law_always_in_order(run, replies);
}

/// A sweep removes a file only where it is named like an object, is not the one
/// to be kept, and was locked exclusively under that very path.
pub proof fn law_sweep_removes_only_unused_files(run: Run, replies: Seq<Reply>)
    requires
        starts(run),
        possible(run, replies),
        after(run, replies).pending() == Some(Action::Unlink(Name::Leftover)),
    ensures
        is_leftover(after(run, replies).leftover, run.path),
        ledger(run, replies).source matches Some((fd, path)) && path == after(
            run,
            replies,
        ).leftover && ledger(run, replies).exclusive.contains(fd),
{
    law_always_in_order(run, replies);
}

/// A sharing removes the object's name only where it has put it up itself.
pub proof fn law_object_is_removed_only_by_its_publisher(run: Run, replies: Seq<Reply>)
    requires
        starts(run),
        possible(run, replies),
        after(run, replies).pending() == Some(Action::Unlink(Name::Object)),
    ensures
        ledger(run, replies).published,
{
    law_always_in_order(run, replies);
}

/// As long as a sharing holds addresses, it has the object open and holds a
/// shared lock on it.
pub proof fn law_mapping_is_locked(run: Run, replies: Seq<Reply>)
    requires
        starts(run),
        possible(run, replies),
        page_aligned(replies),
        ledger(run, replies).held != Set::<int>::empty(),
    ensures
        exists|fd: i32| #[trigger]
            ledger(run, replies).open.contains(fd) && ledger(run, replies).shared.contains(fd),
{
    law_always_in_order(run, replies);
    lemma_always_holds_addresses(run, replies);
    let phase = after(run, replies).phase;
    let fd = file_of(phase).unwrap();
    assert(ledger(run, replies).open.contains(fd));
}

/// A sharing waits for a lock at most fifty times, and asks at most three times
/// for huge pages to be built.
pub proof fn law_tries_are_bounded(run: Run, replies: Seq<Reply>)
    requires
        starts(run),
        possible(run, replies),
    ensures
        ledger(run, replies).pauses <= 50,
        ledger(run, replies).collapses <= 3,
{
    law_always_in_order(run, replies);
}

/// What one process has published is accepted by another that compares it with
/// the same array, and refused by one that compares it with a different one.
pub proof fn law_published_object_is_accepted_by_equals_only(
    run: Run,
    replies: Seq<Reply>,
    other: Run,
)
    requires
        starts(run),
        possible(run, replies),
        ledger(run, replies).published,
        other.phase is Look,
    ensures
        other.bytes == run.bytes ==> other.next(
            Reply::Contents(ledger(run, replies).file),
        ).phase is Advise,
        other.bytes != run.bytes ==> other.next(
            Reply::Contents(ledger(run, replies).file),
        ).phase is Discard,
{
    law_published_object_is_whole(run, replies);
}

/// Whether a reply tells that there is no such file.
pub open spec fn tells_missing(reply: Reply) -> bool {
    reply matches Reply::Failure { text, .. } && says_missing(call_error("open"@, text))
}

/// The phases on the way to a publication, and with an object of one's own.
pub open spec fn is_publishing(phase: Phase) -> bool {
    has_temporary(phase) || has_published(phase) || phase is List || phase is NextName
        || phase is SweepOpen || phase is SweepLock || phase is SweepUnlink || phase is SweepClose
        || phase is Create || phase is Yield
}

proof fn lemma_published_only_where_missing(run: Run, replies: Seq<Reply>)
    requires
        starts(run),
        run.phase is Open,
        possible(run, replies),
    ensures
        after(run, replies).phase == (Phase::Open { side: Side::First }) ==> replies.len() == 0,
        is_publishing(after(run, replies).phase) ==> replies.len() > 0 && tells_missing(
            replies[0],
        ),
    decreases replies.len(),
{
    if replies.len() > 0 {
        let before = replies.drop_last();
        lemma_published_only_where_missing(run, before);
        law_always_in_order(run, before);
        if replies.len() > 1 {
            assert(replies[0] == before[0]);
        }
    }
}

/// A process that was to attach creates or puts up a name only after it was told
/// that there is no such object.
pub proof fn law_published_only_where_missing(run: Run, replies: Seq<Reply>)
    requires
        starts(run),
        run.phase is Open,
        possible(run, replies),
        ledger(run, replies).temporary || ledger(run, replies).published,
    ensures
        replies.len() > 0,
        tells_missing(replies[0]),
{
    law_always_in_order(run, replies);
    lemma_published_only_where_missing(run, replies);
}

/// Whether a reply is no obstacle to the sharing: the call does what it is asked
/// to do, in full or in part, or fails in a way that the protocol copes with. A
/// missing object may be published, a busy lock is tried again, a write may be
/// short, the directory may hold any files and the sweep may fail on each of
/// them, and a publication that came second attaches to the winner's object.
pub open spec fn good_reply(run: Run, reply: Reply) -> bool {
    &&& run.expects(reply)
    &&& match run.phase {
        Phase::Open { side } => reply is Opened || (side == Side::First && tells_missing(
            reply,
        )),
        Phase::Lock { tries, .. } => reply is Success || tries + 1 < LOCK_TRIES,
        Phase::Stat { .. } => reply matches Reply::Status { links, size, .. } && links > 0 && size
            == run.bytes.len(),
        Phase::Reserve { .. } => reply is Reserved,
        Phase::Look { .. } => reply == Reply::Contents(run.bytes),
        Phase::Create => reply is Opened,
        Phase::Write { .. } => reply matches Reply::Written { count, .. } && count > 0,
        Phase::MapFile { .. } | Phase::LockNew { .. } | Phase::Truncate { .. } => reply is Success,
        _ => true,
    }
}

/// Whether every reply of a sequence is no obstacle.
pub open spec fn all_good(run: Run, replies: Seq<Reply>) -> bool
    decreases replies.len(),
{
    replies.len() == 0 || (all_good(run, replies.drop_last()) && good_reply(
        after(run, replies.drop_last()),
        replies.last(),
    ))
}

/// How many names of files a sequence of replies holds.
pub open spec fn names_read(replies: Seq<Reply>) -> nat
    decreases replies.len(),
{
    if replies.len() == 0 {
        0
    } else {
        names_read(replies.drop_last()) + if replies.last() matches Reply::Name(Some(_)) {
            1nat
        } else {
            0
        }
    }
}

/// How many calls at most lie between a phase and the shared array of `len`
/// bytes, where there is no obstacle and no further name is read; none where a
/// refusal is certain.
pub open spec fn distance(phase: Phase, len: int) -> Option<int> {
    match phase {
        Phase::Shared { .. } => Some(0),
        Phase::Collapse { tries, .. } => Some(COLLAPSE_TRIES - tries),
        Phase::Advise { .. } => Some(4),
        Phase::Look { .. } => Some(5),
        Phase::TrimTail { .. } => Some(6),
        Phase::TrimHead { .. } => Some(7),
        Phase::MapFile { .. } => Some(8),
        Phase::Reserve { .. } => Some(9),
        Phase::Stat { .. } => Some(10),
        Phase::Lock { tries, .. } => Some(9 + 2 * (LOCK_TRIES - tries)),
        Phase::Pause { tries, .. } => if tries + 1 < LOCK_TRIES {
            Some(8 + 2 * (LOCK_TRIES - tries))
        } else {
            None
        },
        Phase::Open { side: Side::Second } => Some(10 + 2 * LOCK_TRIES),
        Phase::Yield { .. } => Some(11 + 2 * LOCK_TRIES),
        Phase::Settle { linked: false, .. } => Some(12 + 2 * LOCK_TRIES),
        Phase::Settle { linked: true, .. } => Some(11),
        Phase::Link { .. } => Some(13 + 2 * LOCK_TRIES),
        Phase::Write { from, .. } => Some(13 + 2 * LOCK_TRIES + len - from),
        Phase::Truncate { .. } => Some(14 + 2 * LOCK_TRIES + len),
        Phase::LockNew { .. } => Some(15 + 2 * LOCK_TRIES + len),
        Phase::Create => Some(16 + 2 * LOCK_TRIES + len),
        Phase::NextName => Some(17 + 2 * LOCK_TRIES + len),
        Phase::SweepClose { .. } => Some(18 + 2 * LOCK_TRIES + len),
        Phase::SweepUnlink { .. } => Some(19 + 2 * LOCK_TRIES + len),
        Phase::SweepLock { .. } => Some(20 + 2 * LOCK_TRIES + len),
        Phase::SweepOpen => Some(21 + 2 * LOCK_TRIES + len),
        Phase::List => Some(18 + 2 * LOCK_TRIES + len),
        Phase::Open { side: Side::First } => Some(19 + 2 * LOCK_TRIES + len),
        _ => None,
    }
}

/// A reply that is no obstacle brings a sharing one call closer to its end; a name
/// that is read may take it four calls further away.
proof fn lemma_good_reply_comes_closer(run: Run, reply: Reply)
    requires
        run.valid(),
        good_reply(run, reply),
        distance(run.phase, run.bytes.len() as int) is Some,
    ensures
        ({
            let len = run.bytes.len() as int;
            let before = distance(run.phase, len).unwrap();
            let name: int = if reply matches Reply::Name(Some(_)) {
                5
            } else {
                0
            };
            distance(run.next(reply).phase, len) matches Some(left) && 0 <= left <= before - 1
                + name
        }),
{
    match run.phase {
        Phase::Open { .. } | Phase::Lock { .. } | Phase::Pause { .. } => {
            assert(run.next(reply) == run.next_attach(reply));
        },
        Phase::List
        | Phase::NextName
        | Phase::SweepOpen
        | Phase::SweepLock { .. }
        | Phase::SweepUnlink { .. }
        | Phase::SweepClose { .. } => {
            assert(run.next(reply) == run.next_sweep(reply));
        },
        Phase::Create
        | Phase::LockNew { .. }
        | Phase::Truncate { .. }
        | Phase::Write { .. }
        | Phase::Link { .. }
        | Phase::Settle { .. }
        | Phase::Yield { .. } => {
            assert(run.next(reply) == run.next_publish(reply));
        },
        _ => {
            assert(run.next(reply) == run.next_map(reply));
        },
    }
}

proof fn lemma_good_replies_come_closer(run: Run, replies: Seq<Reply>)
    requires
        starts(run),
        all_good(run, replies),
    ensures
        possible(run, replies),
        distance(after(run, replies).phase, run.bytes.len() as int) matches Some(left) && left >= 0
            && replies.len() + left <= 19 + 2 * LOCK_TRIES + run.bytes.len() + 5 * names_read(
            replies,
        ),
    decreases replies.len(),
{
    if replies.len() > 0 {
        let now = after(run, replies.drop_last());
        lemma_good_replies_come_closer(run, replies.drop_last());
        assert(now.valid() && now.bytes == run.bytes) by {
            law_always_in_order(run, replies.drop_last());
        }
        lemma_good_reply_comes_closer(now, replies.last());
    }
}

/// Where the shared array is within reach, no refusal is certain, and nothing but
/// the shared array is the end.
proof fn lemma_within_reach(run: Run)
    requires
        distance(run.phase, run.bytes.len() as int) is Some,
    ensures
        !is_failing(run.phase),
        run.pending() is None <==> run.phase is Shared,
{
}

/// Where no reply is an obstacle, a sharing is never refused, whatever files the
/// directory holds and however short the writes are: where it ends, the array is
/// shared. It ends after a number of calls that is bounded by the tries for a
/// lock, the length of the array and the names of files that it reads.
pub proof fn law_good_replies_share_the_array(run: Run, replies: Seq<Reply>)
    requires
        starts(run),
        all_good(run, replies),
    ensures
        possible(run, replies),
        !is_failing(after(run, replies).phase),
        after(run, replies).pending() is None <==> after(run, replies).phase is Shared,
        replies.len() <= 19 + 2 * LOCK_TRIES + run.bytes.len() + 5 * names_read(replies),
{
    lemma_good_replies_come_closer(run, replies);
    let now = after(run, replies);
    assert(now.bytes == run.bytes) by {
        law_always_in_order(run, replies);
    }
    lemma_within_reach(now);
}

/// Whether a reply is the best there is: the call does at once all that it is
/// asked to do, and the directory holds no files.
pub open spec fn prompt_reply(run: Run, reply: Reply) -> bool {
    &&& good_reply(run, reply)
    &&& match run.phase {
        Phase::NextName => reply == Reply::Name(None),
        Phase::Write { from, .. } => reply matches Reply::Written { count, .. } && count
            == run.bytes.len() - from,
        Phase::Lock { .. } | Phase::Link { .. } => reply is Success,
        _ => true,
    }
}

/// Whether every reply of a sequence is the best there is.
pub open spec fn all_prompt(run: Run, replies: Seq<Reply>) -> bool
    decreases replies.len(),
{
    replies.len() == 0 || (all_prompt(run, replies.drop_last()) && prompt_reply(
        after(run, replies.drop_last()),
        replies.last(),
    ))
}

/// How many calls at most lie between a phase and the shared array, where every
/// reply is the best there is.
pub open spec fn prompt_distance(phase: Phase) -> Option<int> {
    match phase {
        Phase::Lock { .. } => Some(11),
        Phase::Open { side: Side::Second } => Some(12),
        Phase::Link { .. } => Some(12),
        Phase::Write { .. } => Some(13),
        Phase::Truncate { .. } => Some(14),
        Phase::LockNew { .. } => Some(15),
        Phase::Create => Some(16),
        Phase::NextName => Some(17),
        Phase::List => Some(18),
        Phase::Open { side: Side::First } => Some(19),
        _ => if side_of(phase) is Some || phase is Settle && has_published(phase) {
            distance(phase, 0)
        } else {
            None
        },
    }
}

proof fn lemma_prompt_replies_come_closer(run: Run, replies: Seq<Reply>)
    requires
        starts(run),
        all_prompt(run, replies),
    ensures
        all_good(run, replies),
        prompt_distance(after(run, replies).phase) matches Some(left) && left >= 0 && replies.len()
            + left <= 19,
    decreases replies.len(),
{
    if replies.len() > 0 {
        lemma_prompt_replies_come_closer(run, replies.drop_last());
        lemma_good_replies_come_closer(run, replies.drop_last());
        law_always_in_order(run, replies.drop_last());
    }
}

/// Where every call does at once all that it is asked to do, a sharing ends, after
/// at most nineteen calls, with the array shared.
pub proof fn law_prompt_replies_share_the_array(run: Run, replies: Seq<Reply>)
    requires
        starts(run),
        all_prompt(run, replies),
    ensures
        all_good(run, replies),
        replies.len() <= 19,
        after(run, replies).pending() is None <==> after(run, replies).phase is Shared,
{
    lemma_prompt_replies_come_closer(run, replies);
    law_good_replies_share_the_array(run, replies);
}

/// As long as there was no obstacle and the array is not shared yet, there is a
/// best reply to the pending call, so that a sharing can always go on.
pub proof fn law_good_reply_exists(run: Run, replies: Seq<Reply>)
    requires
        starts(run),
        all_good(run, replies),
        !(after(run, replies).phase is Shared),
    ensures
        exists|reply: Reply| prompt_reply(after(run, replies), reply),
{
    lemma_good_replies_come_closer(run, replies);
    law_always_in_order(run, replies);
    let now = after(run, replies);
    let len = now.bytes.len();
    let reply = match now.phase {
        Phase::Open { .. } | Phase::SweepOpen | Phase::Create => Reply::Opened(3),
        Phase::Stat { .. } => Reply::Status { inode: 1, links: 1, size: len as i64 },
        Phase::Reserve { .. } => Reply::Reserved(0),
        Phase::Look { .. } => Reply::Contents(now.bytes),
        Phase::NextName => Reply::Name(None),
        Phase::Write { from, .. } => Reply::Written {
            count: (len - from) as isize,
            text: Seq::empty(),
        },
        _ => Reply::Success,
    };
    lemma_round_up(0, HUGE as int);
    assert(prompt_reply(now, reply));
}

} // verus!
