//! Huge-page helpers shared by the large allocators.
//!
//! Two independent mechanisms can back a region with 2 MiB pages: the explicit
//! hugetlbfs pool and transparent huge pages. The allocators try the pool first
//! and fall back to transparent huge pages. This module holds what that needs:
//!
//! * `pool_can_fit`: whether the pool, as `/proc/meminfo` reports it, can back a
//!   whole region.
//! * `describe`: what a region actually ended up on, as `/proc/self/smaps`
//!   reports it.
//!
//! The texts of the two files are handed in; `None` stands for a file that
//! could not be read.

use vstd::prelude::*;
use vstd::slice::slice_subrange;

use crate::number::{parse_number, push_decimal};
use crate::text::{chars_of, find_from, rest_after, split_lines, stripped_kb, trimmed};

verus! {

use crate::number::{decimal, law_decimal_is_injective, number};
use crate::text::{
    after_prefix, ends_a_line, first_at, law_lines_append, lines, strip_kb, trim,
};

/// The characters of a text that may be missing.
pub open spec fn content(text: Option<&str>) -> Option<Seq<char>> {
    match text {
        Some(t) => Some(t@),
        None => None,
    }
}

/// What follows the field name in the last line that begins with it.
pub open spec fn last_field(all: Seq<Seq<char>>, name: Seq<char>) -> Option<Seq<char>>
    decreases all.len(),
{
    if all.len() == 0 {
        None
    } else {
        match after_prefix(all.last(), name) {
            Some(value) => Some(value),
            None => last_field(all.drop_last(), name),
        }
    }
}

/// The number in a field of the form `   2048 kB`.
pub open spec fn kilobytes(value: Seq<char>) -> Option<usize> {
    number(trim(strip_kb(trim(value))), 10)
}

/// The free pages of the pool: none where the field is missing or unreadable.
pub open spec fn free_pages(all: Seq<Seq<char>>) -> nat {
    match last_field(all, "HugePages_Free:"@) {
        Some(value) => number(trim(value), 10).unwrap_or(0) as nat,
        None => 0,
    }
}

/// The size of a pool page in KiB: 2048 where the field is missing or
/// unreadable.
pub open spec fn page_kilobytes(all: Seq<Seq<char>>) -> nat {
    match last_field(all, "Hugepagesize:"@) {
        Some(value) => kilobytes(value).unwrap_or(2048) as nat,
        None => 2048,
    }
}

/// The bytes that are free in the pool according to the text of
/// `/proc/meminfo`.
pub open spec fn pool_bytes(meminfo: Option<Seq<char>>) -> nat {
    match meminfo {
        Some(text) => free_pages(lines(text)) * page_kilobytes(lines(text)) * 1024,
        None => 0,
    }
}

/// Reads a field of the form `   2048 kB`.
fn read_kilobytes(value: &[char]) -> (r: Option<usize>)
    ensures
        r == kilobytes(value@),
{
    parse_number(trimmed(stripped_kb(trimmed(value))), 10)
}

/// Bytes currently free in the explicit hugetlbfs pool, or `None` where that
/// number is beyond `usize`.
pub fn checked_pool_free_bytes(meminfo: Option<&str>) -> (r: Option<usize>)
    ensures
        pool_bytes(content(meminfo)) <= usize::MAX ==> r == Some(
            pool_bytes(content(meminfo)) as usize,
        ),
        pool_bytes(content(meminfo)) > usize::MAX ==> r is None,
{
    match meminfo {
        None => Some(0),
        Some(text) => {
            let chars = chars_of(text);
            let all = split_lines(chars.as_slice());
            let ghost seen = lines(text@);
            let mut pages: usize = 0;
            let mut page_kb: usize = 2048;
            let mut i: usize = 0;
            while i < all.len()
                invariant
                    i <= all@.len(),
                    all@.len() == seen.len(),
                    forall|k: int| 0 <= k < all@.len() ==> (#[trigger] all@[k])@ == seen[k],
                    pages == free_pages(seen.take(i as int)),
                    page_kb == page_kilobytes(seen.take(i as int)),
                decreases all@.len() - i,
            {
                proof {
                    assert(seen.take(i + 1).drop_last() =~= seen.take(i as int));
                    assert(seen.take(i + 1).last() == all@[i as int]@);
                    lemma_meminfo_fields_differ(all@[i as int]@);
                }
                match rest_after(all[i], "HugePages_Free:") {
                    Some(value) => {
                        pages = parse_number(trimmed(value), 10).unwrap_or(0);
                    },
                    None => {
                        match rest_after(all[i], "Hugepagesize:") {
                            Some(value) => {
                                page_kb = read_kilobytes(value).unwrap_or(2048);
                            },
                            None => {},
                        }
                    },
                }
                i = i + 1;
            }
            assert(seen.take(i as int) =~= seen);
            let ghost product = pages * page_kb;
            match pages.checked_mul(page_kb) {
                None => {
                    assert(product * 1024 > usize::MAX);
                    None
                },
                Some(kb) => kb.checked_mul(1024),
            }
        },
    }
}

/// No line holds both fields of the pool.
proof fn lemma_meminfo_fields_differ(line: Seq<char>)
    ensures
        after_prefix(line, "HugePages_Free:"@) is None || after_prefix(line, "Hugepagesize:"@) is None,
{
    reveal_strlit("HugePages_Free:");
    reveal_strlit("Hugepagesize:");
    if after_prefix(line, "HugePages_Free:"@) is Some && after_prefix(line, "Hugepagesize:"@) is Some {
        let a = line.subrange(0, 15);
        let b = line.subrange(0, 13);
        assert(a[4] == 'P');
        assert(b[4] == 'p');
        assert(a[4] == line[4] && b[4] == line[4]);
    }
}

/// Bytes currently free in the explicit hugetlbfs pool (0 if none).
pub fn pool_free_bytes(meminfo: Option<&str>) -> (r: usize)
    requires
        pool_bytes(content(meminfo)) <= usize::MAX,
    ensures
        r == pool_bytes(content(meminfo)),
{
    match checked_pool_free_bytes(meminfo) {
        Some(bytes) => bytes,
        None => 0,
    }
}

/// True when the explicit pool can back a region of `bytes` in full.
pub fn pool_can_fit(meminfo: Option<&str>, bytes: usize) -> (r: bool)
    requires
        pool_bytes(content(meminfo)) <= usize::MAX,
    ensures
        r == (pool_bytes(content(meminfo)) >= bytes),
{
    pool_free_bytes(meminfo) >= bytes
}

/// The kernel page size, in KiB, from which on a mapping counts as one of the
/// explicit pool.
pub const HUGE_KILOBYTES: usize = 2048;

/// How a mapped region is backed, read from `/proc/self/smaps`.
#[derive(Debug, Clone, Copy, PartialEq, Eq, Structural)]
pub enum Backing {
    /// Explicit hugetlbfs pages (a kernel page size of 2 MiB or more).
    Hugetlb,
    /// Transparent huge pages cover this percentage of the region, rounded down
    /// but at least 1.
    Thp(u8),
    /// Ordinary pages only: 4 KiB, or the larger base page of a host whose base
    /// pages are not 4 KiB. No byte is on a huge page.
    FourK,
    /// Could not be determined (unreadable smaps, empty region).
    Unknown,
}

/// What the lines of smaps have told about the addresses from `lo` to `hi`.
pub struct Tally {
    /// Whether the current mapping overlaps the region.
    pub inside: bool,
    /// Bytes of the region that the mappings cover.
    pub overlap: nat,
    /// Bytes on transparent huge pages in the mappings that overlap.
    pub huge: nat,
    /// Whether one of those mappings has a kernel page size of 2 MiB or more.
    /// Smaller ones are base pages, whatever their size.
    pub large: bool,
}

/// The address range of a line that opens a mapping: two hexadecimal numbers
/// joined by a dash, then a space. Field lines begin with a capital letter.
/// An unreadable number counts as 0.
pub open spec fn mapping_range(line: Seq<char>) -> Option<(usize, usize)> {
    let space = first_at(line, ' ', 0);
    let first = line.subrange(0, space);
    let dash = first_at(first, '-', 0);
    if dash < first.len() && space < line.len() && !('A' <= line[0] <= 'Z') {
        Some(
            (
                number(first.subrange(0, dash), 16).unwrap_or(0),
                number(first.subrange(dash + 1, first.len() as int), 16).unwrap_or(0),
            ),
        )
    } else {
        None
    }
}

/// What one more line adds to a tally, or `None` where a count leaves `usize`.
pub open spec fn tally_line(t: Tally, line: Seq<char>, lo: usize, hi: usize) -> Option<Tally> {
    match mapping_range(line) {
        Some((start, end)) => if start < hi && end > lo {
            let from = if start < lo { lo } else { start };
            let to = if end > hi { hi } else { end };
            if from <= to && t.overlap + (to - from) <= usize::MAX {
                Some(Tally { inside: true, overlap: (t.overlap + (to - from)) as nat, ..t })
            } else {
                None
            }
        } else {
            Some(Tally { inside: false, ..t })
        },
        None => if !t.inside {
            Some(t)
        } else if let Some(value) = after_prefix(line, "AnonHugePages:"@) {
            let bytes = kilobytes(value).unwrap_or(0) * 1024;
            if t.huge + bytes <= usize::MAX {
                Some(Tally { huge: (t.huge + bytes) as nat, ..t })
            } else {
                None
            }
        } else if let Some(value) = after_prefix(line, "KernelPageSize:"@) {
            Some(Tally { large: t.large || kilobytes(value).unwrap_or(4) >= HUGE_KILOBYTES, ..t })
        } else {
            Some(t)
        },
    }
}

/// What all lines together tell, or `None` where a count leaves `usize`.
pub open spec fn tally(all: Seq<Seq<char>>, lo: usize, hi: usize) -> Option<Tally>
    decreases all.len(),
{
    if all.len() == 0 {
        Some(Tally { inside: false, overlap: 0, huge: 0, large: false })
    } else {
        match tally(all.drop_last(), lo, hi) {
            Some(t) => tally_line(t, all.last(), lo, hi),
            None => None,
        }
    }
}

/// The backing that a finished tally shows for a region of `len` bytes.
pub open spec fn judge(t: Tally, len: usize) -> Option<Backing> {
    let covered = if t.huge < len { t.huge } else { len as nat };
    if t.overlap == 0 {
        Some(Backing::Unknown)
    } else if t.large {
        Some(Backing::Hugetlb)
    } else if covered * 100 > usize::MAX {
        None
    } else if t.huge == 0 {
        Some(Backing::FourK)
    } else if covered * 100 / len as nat == 0 {
        Some(Backing::Thp(1))
    } else {
        Some(Backing::Thp((covered * 100 / len as nat) as u8))
    }
}

/// The backing of the `len` bytes at `ptr` according to the text of
/// `/proc/self/smaps`, or `None` where an address or a count leaves `usize`.
pub open spec fn backing_shown(smaps: Option<Seq<char>>, ptr: usize, len: usize) -> Option<
    Backing,
> {
    if len == 0 {
        Some(Backing::Unknown)
    } else {
        match smaps {
            None => Some(Backing::Unknown),
            Some(text) => if ptr + len > usize::MAX {
                None
            } else {
                match tally(lines(text), ptr, (ptr + len) as usize) {
                    Some(t) => judge(t, len),
                    None => None,
                }
            },
        }
    }
}

/// Reads the address range of a line that opens a mapping.
fn read_mapping_range(line: &[char]) -> (r: Option<(usize, usize)>)
    ensures
        r == mapping_range(line@),
{
    let space = find_from(line, ' ', 0);
    let first = slice_subrange(line, 0, space);
    let dash = find_from(first, '-', 0);
    if dash < first.len() && space < line.len() && !('A' <= line[0] && line[0] <= 'Z') {
        let start = parse_number(slice_subrange(first, 0, dash), 16).unwrap_or(0);
        let end = parse_number(slice_subrange(first, dash + 1, first.len()), 16).unwrap_or(0);
        Some((start, end))
    } else {
        None
    }
}

/// Once a count has left `usize`, no further line brings it back.
proof fn lemma_tally_stays_none(all: Seq<Seq<char>>, lo: usize, hi: usize, n: int)
    requires
        0 <= n <= all.len(),
        tally(all.take(n), lo, hi) is None,
    ensures
        tally(all, lo, hi) is None,
    decreases all.len() - n,
{
    if n == all.len() {
        assert(all.take(n) =~= all);
    } else {
        assert(all.take(n + 1).drop_last() =~= all.take(n));
        lemma_tally_stays_none(all, lo, hi, n + 1);
    }
}

/// The share of huge pages is a percentage.
proof fn lemma_percentage(covered: nat, len: nat)
    requires
        covered <= len,
        len > 0,
    ensures
        0 <= covered * 100 / len <= 100,
{
    assert(covered * 100 / len <= 100) by (nonlinear_arith)
        requires
            covered <= len,
            len > 0,
    ;
}

/// How the `len` bytes at `ptr` are backed, or `None` where an address or a
/// count in the text leaves `usize`.
pub fn checked_backing(smaps: Option<&str>, ptr: usize, len: usize) -> (r: Option<Backing>)
    ensures
        r == backing_shown(content(smaps), ptr, len),
{
    if len == 0 {
        return Some(Backing::Unknown);
    }
    let text = match smaps {
        None => {
            return Some(Backing::Unknown);
        },
        Some(text) => text,
    };
    let lo = ptr;
    let hi = match ptr.checked_add(len) {
        None => {
            return None;
        },
        Some(hi) => hi,
    };
    let chars = chars_of(text);
    let all = split_lines(chars.as_slice());
    let ghost seen = lines(text@);
    let mut inside: bool = false;
    let mut overlap: usize = 0;
    let mut huge: usize = 0;
    let mut large: bool = false;
    let mut i: usize = 0;
    while i < all.len()
        invariant
            content(smaps) == Some(text@),
            len > 0,
            lo == ptr,
            hi == ptr + len,
            seen == lines(text@),
            i <= all@.len(),
            all@.len() == seen.len(),
            forall|k: int| 0 <= k < all@.len() ==> (#[trigger] all@[k])@ == seen[k],
            tally(seen.take(i as int), lo, hi) == Some(
                Tally { inside, overlap: overlap as nat, huge: huge as nat, large },
            ),
        decreases all@.len() - i,
    {
        proof {
            assert(seen.take(i + 1).drop_last() =~= seen.take(i as int));
            assert(seen.take(i + 1).last() == all@[i as int]@);
            if tally(seen.take(i + 1), lo, hi) is None {
                lemma_tally_stays_none(seen, lo, hi, i + 1);
            }
        }
        let line = all[i];
        match read_mapping_range(line) {
            Some((start, end)) => {
                inside = start < hi && end > lo;
                if inside {
                    let from = if start < lo {
                        lo
                    } else {
                        start
                    };
                    let to = if end > hi {
                        hi
                    } else {
                        end
                    };
                    if from > to {
                        return None;
                    }
                    match overlap.checked_add(to - from) {
                        None => {
                            return None;
                        },
                        Some(sum) => {
                            overlap = sum;
                        },
                    }
                }
            },
            None => {
                if inside {
                    match rest_after(line, "AnonHugePages:") {
                        Some(value) => {
                            let kb = read_kilobytes(value).unwrap_or(0);
                            match kb.checked_mul(1024) {
                                None => {
                                    return None;
                                },
                                Some(bytes) => {
                                    match huge.checked_add(bytes) {
                                        None => {
                                            return None;
                                        },
                                        Some(sum) => {
                                            huge = sum;
                                        },
                                    }
                                },
                            }
                        },
                        None => {
                            match rest_after(line, "KernelPageSize:") {
                                Some(value) => {
                                    let kb = read_kilobytes(value).unwrap_or(4);
                                    if kb >= HUGE_KILOBYTES {
                                        large = true;
                                    }
                                },
                                None => {},
                            }
                        },
                    }
                }
            },
        }
        i = i + 1;
    }
    assert(seen.take(i as int) =~= seen);
    if overlap == 0 {
        return Some(Backing::Unknown);
    }
    if large {
        return Some(Backing::Hugetlb);
    }
    let covered = if huge < len {
        huge
    } else {
        len
    };
    match covered.checked_mul(100) {
        None => None,
        Some(hundredfold) => {
            proof {
                lemma_percentage(covered as nat, len as nat);
            }
            let percent = hundredfold / len;
            if huge == 0 {
                Some(Backing::FourK)
            } else if percent == 0 {
                Some(Backing::Thp(1))
            } else {
                Some(Backing::Thp(percent as u8))
            }
        },
    }
}

/// How the `len` bytes at `ptr` are backed.
pub fn backing(smaps: Option<&str>, ptr: usize, len: usize) -> (r: Backing)
    requires
        backing_shown(content(smaps), ptr, len) is Some,
    ensures
        backing_shown(content(smaps), ptr, len) == Some(r),
{
    match checked_backing(smaps, ptr, len) {
        Some(found) => found,
        None => Backing::Unknown,
    }
}

impl Backing {
    /// The short human form of a backing.
    pub open spec fn words(self) -> Seq<char> {
        match self {
            Backing::Hugetlb => "hugetlb"@,
            Backing::Thp(percent) => "thp "@ + decimal(percent as nat) + "%"@,
            Backing::FourK => "4k"@,
            Backing::Unknown => "unknown"@,
        }
    }

    /// Short human form for log lines.
    pub fn label(self) -> (r: String)
        ensures
            r@ == self.words(),
    {
        match self {
            Backing::Hugetlb => "hugetlb".to_owned(),
            Backing::Thp(percent) => {
                let mut r = "thp ".to_owned();
                push_decimal(&mut r, percent as u64);
                r.append("%");
                r
            },
            Backing::FourK => "4k".to_owned(),
            Backing::Unknown => "unknown".to_owned(),
        }
    }
}

/// Short human form of how the `len` bytes at `ptr` are backed.
pub fn describe(smaps: Option<&str>, ptr: usize, len: usize) -> (r: String)
    requires
        backing_shown(content(smaps), ptr, len) is Some,
    ensures
        r@ == backing_shown(content(smaps), ptr, len).unwrap().words(),
{
    backing(smaps, ptr, len).label()
}

/// The share of transparent huge pages is reported as a percentage: never as
/// nothing, and never as more than the whole region.
pub proof fn law_thp_is_a_percentage(smaps: Option<Seq<char>>, ptr: usize, len: usize)
    ensures
        backing_shown(smaps, ptr, len) matches Some(Backing::Thp(percent)) ==> 1 <= percent <= 100,
{
    if len > 0 && smaps is Some && ptr + len <= usize::MAX {
        if let Some(t) = tally(lines(smaps.unwrap()), ptr, (ptr + len) as usize) {
            let covered = if t.huge < len {
                t.huge
            } else {
                len as nat
            };
            lemma_percentage(covered, len as nat);
        }
    }
}

/// Ordinary pages are reported exactly where mappings cover some of the region,
/// none of them is of the pool, and no byte of them is on a transparent huge
/// page.
pub proof fn law_ordinary_means_no_huge_page(text: Seq<char>, ptr: usize, len: usize)
    requires
        len > 0,
        ptr + len <= usize::MAX,
    ensures
        backing_shown(Some(text), ptr, len) == Some(Backing::FourK) <==> (tally(
            lines(text),
            ptr,
            (ptr + len) as usize,
        ) matches Some(t) && t.overlap > 0 && t.huge == 0 && !t.large),
{
}

/// A region that fits in the pool leaves room in it for every smaller one, and
/// where there is no pool only the empty region fits.
pub proof fn law_pool_fit_is_monotone(meminfo: Option<Seq<char>>, smaller: usize, larger: usize)
    requires
        smaller <= larger,
    ensures
        pool_bytes(meminfo) >= larger ==> pool_bytes(meminfo) >= smaller,
        meminfo is None ==> (pool_bytes(meminfo) >= larger <==> larger == 0),
{
}

/// Different backings are reported in different words.
pub proof fn law_labels_are_distinct(a: Backing, b: Backing)
    requires
        a.words() == b.words(),
    ensures
        a == b,
{
    reveal_strlit("hugetlb");
    reveal_strlit("thp ");
    reveal_strlit("%");
    reveal_strlit("4k");
    reveal_strlit("unknown");
    assert(a.words()[0] == b.words()[0]);
    assert(a is Thp ==> a.words()[0] == 't');
    assert(b is Thp ==> b.words()[0] == 't');
    assert("hugetlb"@[0] == 'h' && "4k"@[0] == '4' && "unknown"@[0] == 'u');
    if let Backing::Thp(p) = a {
        if let Backing::Thp(q) = b {
            let x = decimal(p as nat);
            let y = decimal(q as nat);
            assert(a.words().len() == 4 + x.len() + 1);
            assert(x =~= a.words().subrange(4, 4 + x.len() as int));
            assert(y =~= b.words().subrange(4, 4 + y.len() as int));
            law_decimal_is_injective(p as nat, q as nat);
        }
    }
}

/// Whether the mapping that the last lines belong to overlaps the addresses from
/// `lo` to `hi`.
pub open spec fn ends_inside(all: Seq<Seq<char>>, lo: usize, hi: usize) -> bool
    decreases all.len(),
{
    if all.len() == 0 {
        false
    } else {
        match mapping_range(all.last()) {
            Some((start, end)) => start < hi && end > lo,
            None => ends_inside(all.drop_last(), lo, hi),
        }
    }
}

/// The lines of the mappings that overlap the addresses from `lo` to `hi`.
pub open spec fn overlapping_lines(all: Seq<Seq<char>>, lo: usize, hi: usize) -> Seq<Seq<char>>
    decreases all.len(),
{
    if all.len() == 0 {
        all
    } else if ends_inside(all, lo, hi) {
        overlapping_lines(all.drop_last(), lo, hi).push(all.last())
    } else {
        overlapping_lines(all.drop_last(), lo, hi)
    }
}

/// Whether two tallies say the same of a region.
pub open spec fn same_findings(a: Option<Tally>, b: Option<Tally>) -> bool {
    match (a, b) {
        (Some(s), Some(t)) => s.overlap == t.overlap && s.huge == t.huge && s.large == t.large,
        (None, None) => true,
        _ => false,
    }
}

/// The lines of the mappings that overlap tell all there is to tell.
proof fn lemma_overlapping_lines_suffice(all: Seq<Seq<char>>, lo: usize, hi: usize)
    ensures
        same_findings(tally(all, lo, hi), tally(overlapping_lines(all, lo, hi), lo, hi)),
        tally(all, lo, hi) matches Some(t) ==> t.inside == ends_inside(all, lo, hi),
        ends_inside(all, lo, hi) ==> ends_inside(overlapping_lines(all, lo, hi), lo, hi),
        tally(overlapping_lines(all, lo, hi), lo, hi) matches Some(t) ==> t.inside == ends_inside(
            overlapping_lines(all, lo, hi),
            lo,
            hi,
        ),
    decreases all.len(),
{
    if all.len() > 0 {
        let before = all.drop_last();
        lemma_overlapping_lines_suffice(before, lo, hi);
        if ends_inside(all, lo, hi) {
            let kept = overlapping_lines(before, lo, hi);
            assert(kept.push(all.last()).drop_last() =~= kept);
            assert(kept.push(all.last()).last() == all.last());
        }
    }
}

/// Only the mappings that overlap a region count for its backing: where two texts
/// have the same lines of such mappings, whatever else they hold, they show the
/// same backing.
pub proof fn law_only_overlapping_mappings_count(
    one: Seq<char>,
    two: Seq<char>,
    ptr: usize,
    len: usize,
)
    requires
        ptr + len <= usize::MAX ==> overlapping_lines(lines(one), ptr, (ptr + len) as usize)
            == overlapping_lines(lines(two), ptr, (ptr + len) as usize),
    ensures
        backing_shown(Some(one), ptr, len) == backing_shown(Some(two), ptr, len),
{
    if ptr + len <= usize::MAX {
        lemma_overlapping_lines_suffice(lines(one), ptr, (ptr + len) as usize);
        lemma_overlapping_lines_suffice(lines(two), ptr, (ptr + len) as usize);
    }
}

/// Whether `block` is one mapping with its fields, outside the `len` bytes at
/// `ptr`.
pub open spec fn is_mapping_outside(block: Seq<Seq<char>>, ptr: usize, len: usize) -> bool {
    &&& block.len() > 0
    &&& mapping_range(block[0]) matches Some((start, end)) && (start >= ptr + len || end <= ptr)
    &&& forall|i: int| 1 <= i < block.len() ==> (#[trigger] mapping_range(block[i])) is None
}

/// A mapping outside leaves no line behind.
proof fn lemma_mapping_outside(
    a: Seq<Seq<char>>,
    block: Seq<Seq<char>>,
    n: int,
    ptr: usize,
    len: usize,
)
    requires
        ptr + len <= usize::MAX,
        is_mapping_outside(block, ptr, len),
        1 <= n <= block.len(),
    ensures
        overlapping_lines(a + block.take(n), ptr, (ptr + len) as usize) == overlapping_lines(
            a,
            ptr,
            (ptr + len) as usize,
        ),
        !ends_inside(a + block.take(n), ptr, (ptr + len) as usize),
    decreases n,
{
    let now = a + block.take(n);
    assert(now.last() == block[n - 1]);
    assert(now.drop_last() =~= a + block.take(n - 1));
    if n == 1 {
        assert(a + block.take(0) =~= a);
    } else {
        lemma_mapping_outside(a, block, n - 1, ptr, len);
    }
}

/// What follows a mapping outside counts as if the mapping were not there.
proof fn lemma_after_mapping_outside(
    a: Seq<Seq<char>>,
    block: Seq<Seq<char>>,
    b: Seq<Seq<char>>,
    ptr: usize,
    len: usize,
)
    requires
        ptr + len <= usize::MAX,
        is_mapping_outside(block, ptr, len),
        b.len() > 0 ==> mapping_range(b[0]) is Some,
    ensures
        overlapping_lines(a + block + b, ptr, (ptr + len) as usize) == overlapping_lines(
            a + b,
            ptr,
            (ptr + len) as usize,
        ),
        b.len() > 0 ==> ends_inside(a + block + b, ptr, (ptr + len) as usize) == ends_inside(
            a + b,
            ptr,
            (ptr + len) as usize,
        ),
    decreases b.len(),
{
    if b.len() == 0 {
        assert(a + block + b =~= a + block.take(block.len() as int));
        assert(a + b =~= a);
        lemma_mapping_outside(a, block, block.len() as int, ptr, len);
    } else {
        let before = b.drop_last();
        if before.len() > 0 {
            assert(before[0] == b[0]);
        }
        lemma_after_mapping_outside(a, block, before, ptr, len);
        assert((a + block + b).drop_last() =~= a + block + before);
        assert((a + b).drop_last() =~= a + before);
        assert((a + block + b).last() == b.last());
        assert((a + b).last() == b.last());
    }
}

/// A whole mapping outside the region, with its fields, changes nothing in the
/// backing of the region: not in front of a mapping, nor at the end.
pub proof fn law_mapping_outside_changes_nothing(
    a: Seq<char>,
    block: Seq<char>,
    b: Seq<char>,
    ptr: usize,
    len: usize,
)
    requires
        ends_a_line(a),
        is_mapping_outside(lines(block), ptr, len),
        b.len() > 0 ==> ends_a_line(block) && mapping_range(lines(b)[0]) is Some,
    ensures
        backing_shown(Some(a + block + b), ptr, len) == backing_shown(Some(a + b), ptr, len),
{
    law_lines_append(a, b);
    law_lines_append(a, block);
    if b.len() > 0 {
        assert((a + block).last() == (if block.len() > 0 {
            block
        } else {
            a
        }).last());
        law_lines_append(a + block, b);
    } else {
        assert(a + block + b =~= a + block);
        assert(lines(a + block) + lines(b) =~= lines(a + block));
    }
    if ptr + len <= usize::MAX {
        lemma_after_mapping_outside(lines(a), lines(block), lines(b), ptr, len);
    }
    law_only_overlapping_mappings_count(a + block + b, a + b, ptr, len);
}

} // verus!
