//! Where a mapping goes inside an oversized reservation, so that it starts on a
//! 2 MiB boundary and the kernel can back it with huge pages.

use vstd::prelude::*;

verus! {

/// The size, and the alignment, of a huge page.
pub const HUGE: usize = 2 * 1024 * 1024;

/// The size of an ordinary page.
pub const PAGE: usize = 4096;

/// `x` rounded up to a multiple of `unit`.
pub open spec fn round_up(x: int, unit: int) -> int {
    (x + unit - 1) / unit * unit
}

/// How many bytes of address space are reserved for a mapping of `len` bytes.
pub open spec fn span_of(len: int) -> int {
    len + HUGE
}

/// Where the mapping of `len` bytes goes in the reservation at `base`.
pub open spec fn aligned_start(base: int) -> int {
    round_up(base, HUGE as int)
}

/// The bytes before the mapping that are given back.
pub open spec fn head_len(base: int) -> int {
    aligned_start(base) - base
}

/// The first byte after the pages of the mapping.
pub open spec fn tail_start(base: int, len: int) -> int {
    round_up(aligned_start(base) + len, PAGE as int)
}

/// The bytes after the mapping that are given back.
pub open spec fn tail_len(base: int, len: int) -> int {
    if base + span_of(len) > tail_start(base, len) {
        base + span_of(len) - tail_start(base, len)
    } else {
        0
    }
}

/// Whether every address of the placement fits in `usize`.
pub open spec fn placement_fits(base: int, len: int) -> bool {
    &&& 0 <= base
    &&& 0 <= len
    &&& base + span_of(len) <= usize::MAX
    &&& aligned_start(base) + len + (PAGE - 1) <= usize::MAX
}

/// The place of a mapping in its reservation, and what is left over on either
/// side.
#[derive(Debug, Clone, Copy, PartialEq, Eq, Structural)]
pub struct Placement {
    /// Where the mapping starts.
    pub at: usize,
    /// How many bytes in front of the mapping are unused.
    pub head: usize,
    /// Where the unused bytes behind the mapping start.
    pub tail_at: usize,
    /// How many bytes behind the mapping are unused.
    pub tail: usize,
}

/// Rounding up reaches the next multiple and goes no further.
pub proof fn lemma_round_up(x: int, unit: int)
    requires
        unit > 0,
    ensures
        x <= round_up(x, unit) < x + unit,
        round_up(x, unit) % unit == 0,
        x % unit == 0 ==> round_up(x, unit) == x,
{
    let q = (x + unit - 1) / unit;
    assert(q * unit + (x + unit - 1) % unit == x + unit - 1 && 0 <= (x + unit - 1) % unit < unit)
        by (nonlinear_arith)
        requires
            unit > 0,
            q == (x + unit - 1) / unit,
    ;
    assert((q * unit) % unit == 0) by (nonlinear_arith)
        requires
            unit > 0,
    ;
    if x % unit == 0 {
        let k = x / unit;
        assert(x == k * unit) by (nonlinear_arith)
            requires
                unit > 0,
                x % unit == 0,
                k == x / unit,
        ;
        assert(q == k) by (nonlinear_arith)
            requires
                unit > 0,
                x == k * unit,
                x <= q * unit < x + unit,
        ;
    }
}

/// Whether the placement of a mapping of `len` bytes in a reservation at `base`
/// stays within the address range.
pub fn fits(base: usize, len: usize) -> (r: bool)
    ensures
        r == placement_fits(base as int, len as int),
{
    proof {
        lemma_round_up(base as int, HUGE as int);
    }
    match base.checked_add(HUGE - 1) {
        None => false,
        Some(up) => {
            let at = up / HUGE * HUGE;
            match len.checked_add(HUGE) {
                None => false,
                Some(span) => match at.checked_add(len) {
                    None => false,
                    Some(end) => base.checked_add(span).is_some() && end.checked_add(
                        PAGE - 1,
                    ).is_some(),
                },
            }
        },
    }
}

/// Places a mapping of `len` bytes in a reservation of `len + HUGE` bytes at
/// `base`: at the first multiple of 2 MiB, with the unused rest of the
/// reservation in front of it and behind its last page.
pub fn place(base: usize, len: usize) -> (r: Placement)
    requires
        placement_fits(base as int, len as int),
    ensures
        r.at == aligned_start(base as int),
        r.head == head_len(base as int),
        r.tail_at == tail_start(base as int, len as int),
        r.tail == tail_len(base as int, len as int),
{
    proof {
        lemma_round_up(base as int, HUGE as int);
        lemma_round_up(aligned_start(base as int) + len, PAGE as int);
    }
    let span = len + HUGE;
    let at = (base + (HUGE - 1)) / HUGE * HUGE;
    let head = at - base;
    let tail_at = (at + len + (PAGE - 1)) / PAGE * PAGE;
    let tail = if base + span > tail_at {
        base + span - tail_at
    } else {
        0
    };
    Placement { at, head, tail_at, tail }
}

/// The addresses of the pages that hold the `len` bytes at `start`.
pub open spec fn pages(start: int, len: int) -> Set<int> {
    Set::new(|a: int| start <= a < round_up(start + len, PAGE as int))
}

/// The mapping starts on a huge-page boundary inside its reservation.
pub proof fn law_placement_is_aligned(base: int, len: int)
    requires
        0 <= base,
        0 <= len,
    ensures
        aligned_start(base) % HUGE as int == 0,
        base <= aligned_start(base),
        aligned_start(base) + len <= base + span_of(len),
{
    lemma_round_up(base, HUGE as int);
}

/// Giving back the head and the tail of a page-aligned reservation leaves
/// exactly the pages of the mapping, and takes none of them.
pub proof fn law_placement_splits_reservation(base: int, len: int)
    requires
        0 <= base,
        0 <= len,
        base % PAGE as int == 0,
    ensures
        pages(base, span_of(len)).difference(pages(base, head_len(base))).difference(
            pages(tail_start(base, len), tail_len(base, len)),
        ) == pages(aligned_start(base), len),
        pages(base, head_len(base)).disjoint(pages(aligned_start(base), len)),
        pages(tail_start(base, len), tail_len(base, len)).disjoint(
            pages(aligned_start(base), len),
        ),
        tail_len(base, len) > 0,
{
    let at = aligned_start(base);
    let end = tail_start(base, len);
    lemma_round_up(base, HUGE as int);
    lemma_round_up(at + len, PAGE as int);
    assert(HUGE == 2097152);
    assert(at % 4096 == 0) by {
        assert(at % 2097152 == 0);
    }
    assert(at <= base + HUGE - PAGE) by {
        assert((at - base) % 4096 == 0);
        assert(at - base < 2097152);
    }
    lemma_round_up(at, PAGE as int);
    lemma_round_up(end + tail_len(base, len), PAGE as int);
    lemma_round_up(base + span_of(len), PAGE as int);
    assert(pages(base, span_of(len)).difference(pages(base, head_len(base))).difference(
        pages(end, tail_len(base, len)),
    ) =~= pages(at, len));
}

/// Pages are of 4096 bytes: those of the `len` bytes at `start` are the addresses
/// from `start` on, up to the end of the page in which the last byte lies.
pub proof fn law_pages_are_whole(start: int, len: int, a: int)
    requires
        len > 0,
    ensures
        pages(start, len).contains(a) <==> start <= a && a / 4096 <= (start + len - 1) / 4096,
{
}

/// Huge pages are of 2 MiB: a mapping goes to the first multiple of that at or
/// after the start of its reservation, which has room for it and for as much again
/// as one huge page.
pub proof fn law_mapping_starts_at_first_huge_page(base: int, len: int)
    requires
        0 <= base,
        0 <= len,
    ensures
        aligned_start(base) % 2097152 == 0,
        base <= aligned_start(base) < base + 2097152,
        span_of(len) == len + 2097152,
        head_len(base) == aligned_start(base) - base,
        base % 2097152 == 0 ==> head_len(base) == 0,
        aligned_start(base) + len <= base + span_of(len),
        tail_start(base, len) % 4096 == 0,
        aligned_start(base) + len <= tail_start(base, len) < aligned_start(base) + len + 4096,
        tail_start(base, len) <= base + span_of(len) ==> tail_start(base, len) + tail_len(base, len)
            == base + span_of(len),
        tail_start(base, len) > base + span_of(len) ==> tail_len(base, len) == 0,
{
    lemma_round_up(base, HUGE as int);
    lemma_round_up(aligned_start(base) + len, PAGE as int);
    assert(HUGE == 2097152);
}

/// Every reservation that ends a page before the end of the address range has a
/// place for its mapping, and one that goes beyond it has none. What decides is
/// whether the reservation ends within the range, and the last page of the mapping
/// can be rounded up to within it.
pub proof fn law_reservation_has_a_place(base: int, len: int)
    requires
        0 <= base,
        0 <= len,
    ensures
        base + len + 2097152 + 4095 <= usize::MAX ==> placement_fits(base, len),
        base + len + 2097152 > usize::MAX ==> !placement_fits(base, len),
        placement_fits(base, len) <==> base + len + 2097152 <= usize::MAX && aligned_start(base)
            + len + 4095 <= usize::MAX,
{
    lemma_round_up(base, HUGE as int);
    assert(HUGE == 2097152);
}

} // verus!
