//! The addresses of a sharing: what it reserves, maps and gives back.
//!
//! An account of addresses follows a sharing call by call. The laws speak of the
//! account after any sequence of replies, where the system gives reservations that
//! start on a page, as it does.

use vstd::prelude::*;

use crate::placement::{HUGE, PAGE};
use crate::sharing::Phase;
use crate::system::Action;

verus! {

use crate::laws::{after, is_huge_aligned, law_always_in_order, page_aligned, possible, starts};
use crate::placement::{
    aligned_start, head_len, law_placement_is_aligned, law_placement_splits_reservation,
    lemma_round_up, pages, span_of, tail_len, tail_start,
};
use crate::sharing::Run;
use crate::system::Reply;

/// What a sharing has done with addresses.
#[verifier::ext_equal]
pub struct Space {
    /// The addresses that were reserved and not released.
    pub held: Set<int>,
    /// The file that is mapped, from which address on, and how many bytes of it.
    pub mapped: Option<(i32, usize, usize)>,
    /// Whether an address was mapped over or released that was not held.
    pub foreign: bool,
}

impl Space {
    /// The account after the pending call of `run` has returned `reply`.
    pub open spec fn record(self, run: Run, reply: Reply) -> Space {
        match (run.pending(), reply) {
            (Some(Action::Reserve { len }), Reply::Reserved(base)) => Space {
                held: self.held.union(pages(base as int, len as int)),
                ..self
            },
            (Some(Action::MapFile { fd, at, len }), Reply::Success) => Space {
                mapped: Some((fd, at, len)),
                foreign: self.foreign || !pages(at as int, len as int).subset_of(self.held),
                ..self
            },
            (Some(Action::Unmap { at, len }), _) => Space {
                held: self.held.difference(pages(at as int, len as int)),
                mapped: match self.mapped {
                    Some((_, start, size)) => if pages(at as int, len as int).disjoint(
                        pages(start as int, size as int),
                    ) {
                        self.mapped
                    } else {
                        None
                    },
                    None => None,
                },
                foreign: self.foreign || !pages(at as int, len as int).subset_of(self.held),
            },
            _ => self,
        }
    }
}

/// The account that a sequence of replies leads to.
pub open spec fn space(run: Run, replies: Seq<Reply>) -> Space
    decreases replies.len(),
{
    if replies.len() == 0 {
        Space { held: Set::empty(), mapped: None, foreign: false }
    } else {
        space(run, replies.drop_last()).record(after(run, replies.drop_last()), replies.last())
    }
}

/// How the pages of a reservation at `base` are parted.
proof fn lemma_reservation(base: int, len: int)
    requires
        0 <= base,
        0 <= len,
        base % 4096 == 0,
    ensures
        ({
            let all = pages(base, span_of(len));
            let head = pages(base, head_len(base));
            let tail = pages(tail_start(base, len), tail_len(base, len));
            let mid = pages(aligned_start(base), len);
            &&& head.subset_of(all)
            &&& mid.subset_of(all)
            &&& tail.subset_of(all.difference(head))
            &&& all.difference(head).difference(tail) == mid
            &&& head.disjoint(mid)
            &&& tail.disjoint(mid)
            &&& tail_len(base, len) > 0
            &&& head_len(base) == 0 ==> all.difference(head) == all
            &&& head_len(base) == 0 ==> all.difference(tail) == mid && tail.subset_of(all)
            &&& aligned_start(base) % 2097152 == 0
            &&& span_of(len) == len + 2097152
        }),
{
    let at = aligned_start(base);
    let end = tail_start(base, len);
    law_placement_is_aligned(base, len);
    law_placement_splits_reservation(base, len);
    assert(HUGE == 2097152 && PAGE == 4096);
    assert(at % 4096 == 0) by {
        assert(at % 2097152 == 0);
    }
    lemma_round_up(base, PAGE as int);
    lemma_round_up(at, PAGE as int);
    lemma_round_up(at + len, PAGE as int);
    lemma_round_up(base + span_of(len), PAGE as int);
    lemma_round_up(end + tail_len(base, len), PAGE as int);
    let all = pages(base, span_of(len));
    let head = pages(base, head_len(base));
    if head_len(base) == 0 {
        assert(all.difference(head) =~= all);
    }
}

/// What the account is in a phase.
spec fn agrees(run: Run, s: Space) -> bool {
    let len = run.bytes.len() as int;
    let size = run.bytes.len() as usize;
    &&& !s.foreign
    &&& match run.phase {
        Phase::MapFile { base, .. } | Phase::Abandon { base, .. } => base % 4096 == 0 && s.held
            == pages(base as int, span_of(len)),
        Phase::TrimHead { fd, base, .. } => base % 4096 == 0 && s.held == pages(
            base as int,
            span_of(len),
        ) && s.mapped == Some((fd, aligned_start(base as int) as usize, size)),
        Phase::TrimTail { fd, base, .. } => base % 4096 == 0 && s.held == pages(
            base as int,
            span_of(len),
        ).difference(pages(base as int, head_len(base as int))) && s.mapped == Some(
            (fd, aligned_start(base as int) as usize, size),
        ),
        Phase::Look { fd, at, .. }
        | Phase::Discard { fd, at, .. }
        | Phase::Advise { fd, at, .. }
        | Phase::Collapse { fd, at, .. }
        | Phase::Shared { fd, at, .. } => s.held == pages(at as int, len) && s.mapped == Some(
            (fd, at, size),
        ),
        _ => s.held == Set::<int>::empty(),
    }
}

/// A possible reply keeps the account in agreement.
proof fn lemma_stays_in_agreement(run: Run, s: Space, reply: Reply)
    requires
        run.valid(),
        agrees(run, s),
        run.expects(reply),
        reply matches Reply::Reserved(base) ==> base % PAGE == 0,
    ensures
        agrees(run.next(reply), s.record(run, reply)),
{
    let len = run.bytes.len() as int;
    match run.phase {
        Phase::Reserve { .. } => {
            if let Reply::Reserved(base) = reply {
                assert(Set::<int>::empty().union(pages(base as int, span_of(len))) =~= pages(
                    base as int,
                    span_of(len),
                ));
            }
        },
        Phase::MapFile { base, .. } | Phase::TrimHead { base, .. } | Phase::TrimTail { base, .. } => {
            lemma_reservation(base as int, len);
        },
        Phase::Abandon { base, .. } => {
            let all = pages(base as int, span_of(len));
            assert(all.difference(all) =~= Set::empty());
        },
        Phase::Discard { at, .. } => {
            let all = pages(at as int, len);
            assert(all.difference(all) =~= Set::empty());
        },
        _ => {},
    }
}

proof fn lemma_always_in_agreement(run: Run, replies: Seq<Reply>)
    requires
        starts(run),
        possible(run, replies),
        page_aligned(replies),
    ensures
        agrees(after(run, replies), space(run, replies)),
        after(run, replies).valid(),
        after(run, replies).bytes == run.bytes,
        is_huge_aligned(after(run, replies).phase),
    decreases replies.len(),
{
    law_always_in_order(run, replies);
    if replies.len() > 0 {
        let before = replies.drop_last();
        assert(page_aligned(before)) by {
            assert forall|i: int| 0 <= i < before.len() implies (
            #[trigger] before[i] matches Reply::Reserved(base) ==> base % PAGE == 0) by {
                assert(before[i] == replies[i]);
            }
        }
        lemma_always_in_agreement(run, before);
        assert(replies[replies.len() - 1] == replies.last());
        lemma_stays_in_agreement(after(run, before), space(run, before), replies.last());
    }
}

/// What is handed out is a mapping of all bytes of the array, of the very file of
/// the region; its pages are all the addresses that the sharing still holds. A
/// refused sharing holds none.
pub proof fn law_shared_array_is_mapped_in_full(run: Run, replies: Seq<Reply>)
    requires
        starts(run),
        possible(run, replies),
        page_aligned(replies),
    ensures
        after(run, replies).phase matches Phase::Shared { fd, at, .. } ==> space(
            run,
            replies,
        ).mapped == Some((fd, at, run.bytes.len() as usize)) && space(run, replies).held == pages(
            at as int,
            run.bytes.len() as int,
        ) && at % 2097152 == 0,
        after(run, replies).phase is Refused ==> space(run, replies).held == Set::<int>::empty(),
{
    lemma_always_in_agreement(run, replies);
    assert(HUGE == 2097152);
}

/// Addresses are reserved for the array and one huge page more. The whole array is
/// mapped, at a multiple of 2 MiB, over addresses that are held; the whole mapping
/// is compared, and is what huge pages are asked for; and no address is ever
/// mapped over or released that the sharing does not hold.
pub proof fn law_every_address_call_is_in_place(run: Run, replies: Seq<Reply>)
    requires
        starts(run),
        possible(run, replies),
        page_aligned(replies),
    ensures
        !space(run, replies).foreign,
        ({
            let s = space(run, replies);
            match after(run, replies).pending() {
                Some(Action::Reserve { len }) => len == run.bytes.len() + 2097152 && s.held == Set::<
                    int,
                >::empty(),
                Some(Action::MapFile { at, len, .. }) => len == run.bytes.len() && at % 2097152 == 0
                    && pages(at as int, len as int).subset_of(s.held),
                Some(Action::Unmap { at, len }) => pages(at as int, len as int).subset_of(s.held),
                Some(Action::Look { at, len })
                | Some(Action::AdviseHuge { at, len })
                | Some(Action::Collapse { at, len }) => len == run.bytes.len() && (
                s.mapped matches Some((_, start, size)) && start == at && size == len),
                _ => true,
            }
        }),
{
    lemma_always_in_agreement(run, replies);
    assert(HUGE == 2097152);
    let len = run.bytes.len() as int;
    match after(run, replies).phase {
        Phase::MapFile { base, .. } | Phase::TrimHead { base, .. } | Phase::TrimTail { base, .. } => {
            lemma_reservation(base as int, len);
        },
        _ => {},
    }
}

} // verus!
