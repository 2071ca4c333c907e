//! What each reply leads to: the next call, or the reason of the refusal.

use vstd::prelude::*;

use crate::sharing::{Phase, Side};
use crate::system::{Action, Name};

verus! {

use crate::laws::{after, is_failing, law_always_in_order, ledger, possible, starts};
use crate::number::{decimal, signed_decimal};
use crate::placement::law_reservation_has_a_place;
use crate::sharing::{call_error, says_missing, start, Run};
use crate::sweep::law_sweep_chooses_by_name;
use crate::system::Reply;

/// A sharing starts with the array and the paths that it is given, and its names
/// stand for those paths.
pub proof fn law_start_is_as_given(
    bytes: Seq<u8>,
    path: Seq<char>,
    temporary: Seq<char>,
    phase: Phase,
)
    ensures
        ({
            let run = start(bytes, path, temporary, phase);
            &&& run.bytes == bytes
            &&& run.path_of(Name::Object) == path
            &&& run.path_of(Name::Temporary) == temporary
            &&& run.phase == phase
            &&& run.error.len() == 0
        }),
{
}

/// A reason is what was tried, a colon and a space, and the system's words in full.
pub proof fn law_reason_is_in_full(what: Seq<char>, text: Seq<char>)
    ensures
        call_error(what, text).len() == what.len() + 2 + text.len(),
        call_error(what, text).take(what.len() as int) == what,
        call_error(what, text)[what.len() as int] == ':',
        call_error(what, text)[what.len() as int + 1] == ' ',
        call_error(what, text).skip(what.len() as int + 2) == text,
{
    reveal_strlit(": ");
    assert(call_error(what, text).take(what.len() as int) =~= what);
    assert(call_error(what, text).skip(what.len() as int + 2) =~= text);
}

proof fn lemma_missing(text: Seq<char>)
    ensures
        says_missing(call_error("open"@, text)) <==> text.len() >= 12 && text.take(12)
            == "No such file"@,
{
    reveal_strlit("open");
    reveal_strlit(": ");
    reveal_strlit("open: No such file");
    reveal_strlit("No such file");
    let error = call_error("open"@, text);
    let whole = "open: No such file"@;
    if says_missing(error) {
        assert forall|i: int| 0 <= i < 12 implies text.take(12)[i] == "No such file"@[i] by {
            assert(error.subrange(0, 18)[i + 6] == whole[i + 6]);
            assert(error[i + 6] == text[i]);
        }
        assert(text.take(12) =~= "No such file"@);
    }
    if text.len() >= 12 && text.take(12) == "No such file"@ {
        assert forall|i: int| 0 <= i < 18 implies error.subrange(0, 18)[i] == whole[i] by {
            if i >= 6 {
                assert(text.take(12)[i - 6] == text[i - 6]);
                assert(error[i] == text[i - 6]);
            }
        }
        assert(error.subrange(0, 18) =~= whole);
    }
}

/// An object that opens is locked next. Where it does not, the system's words
/// decide: a process that may publish it does so where there is no such file; any
/// other failure, and any failure of one that only attaches, is the end.
pub proof fn law_open_decides(run: Run, reply: Reply)
    requires
        run.pending() == Some(Action::Open(Name::Object)),
    ensures
        reply matches Reply::Opened(fd) ==> run.next(reply).pending() == Some(
            Action::LockShared { fd },
        ),
        reply matches Reply::Failure { text, .. } ==> if run.phase == (Phase::Open {
            side: Side::First,
        }) && text.len() >= 12 && text.take(12) == "No such file"@ {
            run.next(reply).pending() == Some(Action::List)
        } else {
            run.next(reply).phase is Refused && run.next(reply).error == "open"@ + ": "@ + text
        },
{
    if let Reply::Failure { text, .. } = reply {
        lemma_missing(text);
    }
}

/// An object is mapped only where it still has a name and has exactly the size of
/// the array.
pub proof fn law_size_decides(run: Run, reply: Reply)
    requires
        run.phase is Stat,
    ensures
        reply matches Reply::Status { links, size, .. } ==> {
            &&& links > 0 && size == run.bytes.len() ==> run.next(reply).phase is Reserve
                && !is_failing(run.next(reply).phase)
            &&& links == 0 ==> is_failing(run.next(reply).phase) && run.next(reply).error
                == "object was removed"@
            &&& links > 0 && size != run.bytes.len() ==> is_failing(run.next(reply).phase)
                && run.next(reply).error == "size mismatch ("@ + signed_decimal(size as int)
                + " vs "@ + decimal(run.bytes.len()) + ")"@
        },
{
}

/// What is mapped is accepted only where it is the array, byte for byte.
pub proof fn law_content_decides(run: Run, mapped: Seq<u8>)
    requires
        run.phase is Look,
    ensures
        mapped == run.bytes ==> run.next(Reply::Contents(mapped)).phase is Advise && run.next(
            Reply::Contents(mapped),
        ).error == run.error,
        mapped != run.bytes ==> is_failing(run.next(Reply::Contents(mapped)).phase) && run.next(
            Reply::Contents(mapped),
        ).error == "content mismatch"@,
{
}

/// A call without which there is no sharing is the reason of the refusal where it
/// fails, in the words of the system.
pub proof fn law_failure_is_the_reason(run: Run, text: Seq<char>, again: bool)
    ensures
        ({
            let next = run.next(Reply::Failure { text, again });
            match run.phase {
                Phase::Stat { .. } => is_failing(next.phase) && next.error == "fstat"@ + ": "@
                    + text,
                Phase::Reserve { .. } => is_failing(next.phase) && next.error == "mmap reserve"@
                    + ": "@ + text,
                Phase::MapFile { .. } => is_failing(next.phase) && next.error == "mmap"@ + ": "@
                    + text,
                Phase::Create => is_failing(next.phase) && next.error == "create"@ + ": "@ + text,
                Phase::LockNew { .. } => is_failing(next.phase) && next.error == "flock"@ + ": "@
                    + text,
                Phase::Truncate { .. } => is_failing(next.phase) && next.error == "ftruncate"@
                    + ": "@ + text,
                _ => true,
            }
        }),
{
}

/// A refusal that is certain is reached with its first reason, whatever the calls
/// that undo the sharing return.
pub proof fn law_reason_is_kept(run: Run, reply: Reply)
    requires
        is_failing(run.phase),
    ensures
        is_failing(run.next(reply).phase),
        run.next(reply).error == run.error,
{
}

/// How many calls undo a sharing whose refusal is certain.
pub open spec fn calls_to_undo(phase: Phase) -> int {
    match phase {
        Phase::Abandon { .. } | Phase::Discard { .. } => 3,
        Phase::Withdraw { .. } | Phase::Drop { .. } => 2,
        Phase::Close { .. } => 1,
        _ => 0,
    }
}

/// A refusal that is certain is reached after three more calls at most, whatever
/// they return.
pub proof fn law_undoing_ends(run: Run, reply: Reply)
    requires
        is_failing(run.phase),
        run.pending() is Some,
    ensures
        calls_to_undo(run.next(reply).phase) < calls_to_undo(run.phase) <= 3,
        calls_to_undo(run.next(reply).phase) == 0 <==> run.next(reply).phase is Refused,
        run.next(reply).phase is Refused <==> run.next(reply).pending() is None,
{
}

/// A write goes on where it stopped until the whole array is written, and only then
/// is the file put up; a write that writes nothing is the reason of the refusal.
pub proof fn law_writing_goes_on(run: Run, count: isize, text: Seq<char>)
    requires
        run.valid(),
        run.phase is Write,
    ensures
        run.phase matches Phase::Write { fd, from } ==> ({
            let next = run.next(Reply::Written { count, text });
            &&& count > 0 && from + count < run.bytes.len() ==> next.pending() == Some(
                Action::Write { fd, from: (from + count) as usize },
            )
            &&& count > 0 && from + count >= run.bytes.len() ==> next.pending() == Some(
                Action::Link { file: Name::Temporary, name: Name::Object },
            )
            &&& count <= 0 ==> is_failing(next.phase) && next.error == "write"@ + ": "@ + text
        }),
{
}

/// A busy lock is tried again after each of the first 49 pauses; the fiftieth is the
/// last. A lock that is had is followed by a look at the object.
pub proof fn law_lock_is_tried_fifty_times(run: Run, replies: Seq<Reply>, reply: Reply)
    requires
        starts(run),
        possible(run, replies),
    ensures
        ({
            let now = after(run, replies);
            let next = now.next(reply);
            &&& now.phase matches Phase::Lock { fd, .. } ==> if reply is Success {
                next.pending() == Some(Action::Stat { fd })
            } else {
                next.pending() == Some(Action::Pause { millis: 1 })
            }
            &&& now.phase matches Phase::Pause { fd, .. } ==> if ledger(run, replies).pauses < 49 {
                next.pending() == Some(Action::LockShared { fd })
            } else {
                is_failing(next.phase) && next.error == "lock busy"@ && next.pending() == Some(
                    Action::Close { fd },
                )
            }
        }),
{
    law_always_in_order(run, replies);
}

/// What is accepted is first advised to be on huge pages, and these are then asked
/// to be built, whatever came of the advice.
pub proof fn law_huge_pages_are_asked_for(run: Run, reply: Reply)
    requires
        run.phase is Advise,
    ensures
        run.phase matches Phase::Advise { at, .. } ==> run.pending() == Some(
            Action::AdviseHuge { at, len: run.bytes.len() as usize },
        ) && run.next(reply).pending() == Some(
            Action::Collapse { at, len: run.bytes.len() as usize },
        ),
{
}

/// Huge pages are asked for again only where the system says so, and three times at
/// most; then the array is shared, whether there are huge pages or not.
pub proof fn law_collapse_is_tried_three_times(run: Run, replies: Seq<Reply>, reply: Reply)
    requires
        starts(run),
        possible(run, replies),
        after(run, replies).phase is Collapse,
    ensures
        (reply matches Reply::Failure { again, .. } && again) && ledger(run, replies).collapses < 2
            ==> after(run, replies).next(reply).pending() == after(run, replies).pending(),
        !(reply matches Reply::Failure { again, .. } && again) || ledger(run, replies).collapses
            >= 2 ==> after(run, replies).next(reply).phase is Shared,
{
    law_always_in_order(run, replies);
}

/// A sharing whose object is there first by another hand takes its own file away
/// and attaches to the other's object; one that puts its object up goes on to map
/// that.
pub proof fn law_link_decides(run: Run, reply: Reply, one: Reply, two: Reply)
    requires
        run.phase is Link,
    ensures
        run.phase matches Phase::Link { fd } ==> ({
            let settled = run.next(reply);
            &&& settled.pending() == Some(Action::Unlink(Name::Temporary))
            &&& reply is Success ==> settled.next(one).pending() == Some(Action::Stat { fd })
            &&& !(reply is Success) ==> settled.next(one).pending() == Some(Action::Close { fd })
                && settled.next(one).next(two).pending() == Some(Action::Open(Name::Object))
        }),
{
}

/// A name in the directory is followed up exactly where it begins as those of
/// objects do and is not that of the object that is kept; the file is then opened
/// under its path in the directory.
pub proof fn law_name_decides(run: Run, name: Seq<char>)
    requires
        run.pending() == Some(Action::NextName),
    ensures
        ({
            let path = "/dev/shm/"@ + name;
            let next = run.next(Reply::Name(Some(name)));
            let chosen = path.len() >= 17 && path.take(17) == "/dev/shm/coda-w1-"@ && path
                != run.path_of(Name::Object) && (forall|i: int|
                0 <= i < path.len() ==> #[trigger] path[i] != '\0');
            &&& chosen ==> next.pending() == Some(Action::Open(Name::Leftover)) && next.path_of(
                Name::Leftover,
            ) == path
            &&& !chosen ==> next.pending() == Some(Action::NextName)
            &&& run.next(Reply::Name(None)).pending() == Some(Action::Create(Name::Temporary))
        }),
{
    law_sweep_chooses_by_name(name, run.path);
}

/// Every reply that a call can have is expected: of a reservation, every one that
/// ends a page before the end of the address range.
pub proof fn law_every_reply_is_expected(run: Run, reply: Reply)
    requires
        match run.pending() {
            None => false,
            Some(Action::Open(_)) | Some(Action::Create(_)) => reply is Opened || reply is Failure,
            Some(Action::Stat { .. }) | Some(Action::StatName(_)) => reply is Status
                || reply is Failure,
            Some(Action::Reserve { .. }) => (reply matches Reply::Reserved(base) && base
                + run.bytes.len() + 2097152 + 4095 <= usize::MAX) || reply is Failure,
            Some(Action::Look { .. }) => reply is Contents,
            Some(Action::NextName) => reply is Name,
            Some(Action::Write { .. }) => reply is Written,
            _ => reply is Success || reply is Failure,
        },
    ensures
        run.expects(reply),
{
    if let Reply::Reserved(base) = reply {
        law_reservation_has_a_place(base as int, run.bytes.len() as int);
    }
}

/// No reply is expected that the pending call cannot have, where anything is made
/// of it; and none where nothing is pending.
pub proof fn law_no_other_reply_is_expected(run: Run, reply: Reply)
    requires
        run.expects(reply),
    ensures
        match run.pending() {
            None => false,
            Some(Action::Open(_)) | Some(Action::Create(_)) => reply is Opened || reply is Failure,
            Some(Action::Stat { .. }) => reply is Status || reply is Failure,
            Some(Action::Reserve { .. }) => (reply matches Reply::Reserved(base) && base
                + run.bytes.len() + 2097152 <= usize::MAX) || reply is Failure,
            Some(Action::Look { .. }) => reply is Contents,
            Some(Action::NextName) => reply is Name,
            Some(Action::Write { .. }) => reply is Written,
            Some(Action::LockShared { .. })
            | Some(Action::LockExclusive { .. })
            | Some(Action::MapFile { .. })
            | Some(Action::Collapse { .. })
            | Some(Action::List)
            | Some(Action::Truncate { .. })
            | Some(Action::Link { .. }) => reply is Success || reply is Failure,
            Some(_) => true,
        },
{
    if let Reply::Reserved(base) = reply {
        law_reservation_has_a_place(base as int, run.bytes.len() as int);
    }
}

} // verus!
