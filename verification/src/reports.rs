//! What the kernel's status files are read to mean.
//!
//! The laws speak of texts as the kernel writes them, line by line: a report is
//! written down from its numbers, and what is read from it are those numbers.

use vstd::prelude::*;
use vstd::arithmetic::power::pow;

use crate::hugepage::Backing;

verus! {

use crate::hugepage::{
    backing_shown, content, free_pages, kilobytes, last_field, mapping_range, page_kilobytes,
    pool_bytes, tally, tally_line, Tally,
};
use crate::number::{
    decimal, digit_value, hex, is_written_digit, law_decimal_is_read_back, law_hex_is_read_back,
    lemma_hex_digits, number,
};
use crate::shared_weights::bracketed;
use crate::text::{
    after_prefix, are_lines, first_at, is_line, is_white, law_lines_of_text,
    law_trim_drops_white_ends_only, law_units_are_stripped, lemma_first_at_is, lines, strip_kb,
    text_of, trim, trim_back, trim_front,
};

/// The whole of a text is what is read.
pub proof fn law_text_is_read_in_full(text: &str)
    ensures
        content(Some(text)) == Some(text@),
        content(None) is None,
{
}

/// Whether a line begins with a name.
pub open spec fn opens(line: Seq<char>, name: Seq<char>) -> bool {
    name.len() <= line.len() && forall|i: int| 0 <= i < name.len() ==> #[trigger] line[i] == name[i]
}

/// Whether all of `s` is spaces and tabs.
pub open spec fn is_blank(s: Seq<char>) -> bool {
    forall|i: int| 0 <= i < s.len() ==> (#[trigger] s[i] == ' ' || s[i] == '\t')
}

/// Whether there is a decimal digit in `s`.
pub open spec fn has_digit(s: Seq<char>) -> bool {
    exists|i: int| 0 <= i < s.len() && '0' <= #[trigger] s[i] <= '9'
}

/// A line begins with a name exactly where something, or nothing, follows it.
proof fn lemma_opens(line: Seq<char>, name: Seq<char>)
    ensures
        opens(line, name) <==> after_prefix(line, name) is Some,
        opens(line, name) ==> after_prefix(line, name) == Some(
            line.subrange(name.len() as int, line.len() as int),
        ),
{
    if opens(line, name) {
        assert(line.subrange(0, name.len() as int) =~= name);
    }
    if after_prefix(line, name) is Some {
        assert forall|i: int| 0 <= i < name.len() implies #[trigger] line[i] == name[i] by {
            assert(line.subrange(0, name.len() as int)[i] == name[i]);
        }
    }
}

/// A name and what follows it make a line that begins with the name.
proof fn lemma_named(name: Seq<char>, value: Seq<char>)
    ensures
        opens(name + value, name),
        after_prefix(name + value, name) == Some(value),
{
    lemma_opens(name + value, name);
    assert((name + value).subrange(name.len() as int, (name + value).len() as int) =~= value);
}

/// Blanks around a text are trimmed.
proof fn lemma_trim_blanks(pad: Seq<char>, core: Seq<char>, end: Seq<char>)
    requires
        is_blank(pad),
        is_blank(end),
        core.len() > 0,
        !is_white(core[0]),
        !is_white(core.last()),
    ensures
        trim(pad + core + end) == core,
    decreases pad.len() + end.len(),
{
    if end.len() > 0 {
        let s = pad + core + end.drop_last();
        assert(s.push(end.last()) =~= pad + core + end);
        assert(end[end.len() - 1] == ' ' || end[end.len() - 1] == '\t');
        law_trim_drops_white_ends_only(s, end.last());
        assert forall|i: int| 0 <= i < end.drop_last().len() implies (
        #[trigger] end.drop_last()[i] == ' ' || end.drop_last()[i] == '\t') by {
            assert(end[i] == ' ' || end[i] == '\t');
        }
        lemma_trim_blanks(pad, core, end.drop_last());
    } else if pad.len() > 0 {
        let rest = pad.drop_first();
        let s = rest + core + end;
        assert(seq![pad[0]] + s =~= pad + core + end);
        law_trim_drops_white_ends_only(s, pad[0]);
        assert forall|i: int| 0 <= i < rest.len() implies (#[trigger] rest[i] == ' ' || rest[i]
            == '\t') by {
            assert(pad[i + 1] == ' ' || pad[i + 1] == '\t');
        }
        lemma_trim_blanks(rest, core, end);
    } else {
        assert(pad + core + end =~= core);
        law_trim_drops_white_ends_only(core, ' ');
    }
}

/// A plain number is read between blanks.
pub proof fn law_count_is_read(pad: Seq<char>, n: nat, end: Seq<char>)
    requires
        is_blank(pad),
        is_blank(end),
        n <= usize::MAX,
    ensures
        number(trim(pad + decimal(n) + end), 10) == Some(n as usize),
{
    law_decimal_is_read_back(n);
    let d = decimal(n);
    assert('0' <= d[0] <= '9' && '0' <= d[d.len() - 1] <= '9');
    lemma_trim_blanks(pad, d, end);
}

/// An amount is read with its unit and without.
pub proof fn law_amount_is_read(pad: Seq<char>, n: nat, gap: Seq<char>, end: Seq<char>)
    requires
        is_blank(pad),
        is_blank(gap),
        is_blank(end),
        n <= usize::MAX,
    ensures
        kilobytes(pad + decimal(n) + gap + "kB"@ + end) == Some(n as usize),
        kilobytes(pad + decimal(n) + end) == Some(n as usize),
{
    reveal_strlit("kB");
    law_decimal_is_read_back(n);
    let d = decimal(n);
    assert('0' <= d[0] <= '9' && '0' <= d[d.len() - 1] <= '9');
    let core = d + gap + "kB"@;
    assert(core.last() == 'B');
    assert(core[0] == d[0]);
    assert(pad + core + end =~= pad + d + gap + "kB"@ + end);
    lemma_trim_blanks(pad, core, end);
    let bare = d + gap;
    law_units_are_stripped(bare);
    law_units_are_stripped(d);
    assert(bare.last() != 'B') by {
        if gap.len() > 0 {
            assert(bare.last() == gap[gap.len() - 1]);
        } else {
            assert(bare.last() == d[d.len() - 1]);
        }
    }
    if bare.len() >= 2 {
        assert(bare.subrange(bare.len() - 2, bare.len() as int)[1] == bare.last());
    }
    if d.len() >= 2 {
        assert(d.subrange(d.len() - 2, d.len() as int)[1] == d.last());
    }
    assert(Seq::<char>::empty() + d + gap =~= bare);
    lemma_trim_blanks(Seq::empty(), d, gap);
    assert(Seq::<char>::empty() + d + Seq::<char>::empty() =~= d);
    lemma_trim_blanks(Seq::empty(), d, Seq::empty());
    lemma_trim_blanks(pad, d, end);
}

/// So many units, one behind the other.
pub open spec fn units(n: nat) -> Seq<char>
    decreases n,
{
    if n == 0 {
        Seq::empty()
    } else {
        units((n - 1) as nat) + "kB"@
    }
}

proof fn lemma_units_are_stripped(s: Seq<char>, n: nat)
    requires
        !(s.len() >= 2 && s[s.len() - 2] == 'k' && s[s.len() - 1] == 'B'),
    ensures
        strip_kb(s + units(n)) == s,
        n > 0 ==> units(n).len() > 0 && units(n).last() == 'B',
    decreases n,
{
    reveal_strlit("kB");
    if n == 0 {
        law_units_are_stripped(s);
        assert(s + units(n) =~= s);
        if s.len() >= 2 && s.subrange(s.len() - 2, s.len() as int) == "kB"@ {
            assert(s.subrange(s.len() - 2, s.len() as int)[0] == s[s.len() - 2]);
            assert(s.subrange(s.len() - 2, s.len() as int)[1] == s[s.len() - 1]);
        }
    } else {
        lemma_units_are_stripped(s, (n - 1) as nat);
        law_units_are_stripped(s + units((n - 1) as nat));
        assert(s + units(n) =~= s + units((n - 1) as nat) + "kB"@);
    }
}

/// An amount is the number that is spelled between the blanks and in front of the
/// units, whatever is spelled there and however often the unit is repeated; it is
/// none where that is no number.
pub proof fn law_amount_is_what_is_spelled(
    pad: Seq<char>,
    core: Seq<char>,
    gap: Seq<char>,
    n: nat,
    end: Seq<char>,
)
    requires
        is_blank(pad),
        is_blank(gap),
        is_blank(end),
        core.len() > 0,
        !is_white(core[0]),
        !is_white(core.last()),
        !(core.len() >= 2 && core[core.len() - 2] == 'k' && core[core.len() - 1] == 'B'),
    ensures
        kilobytes(pad + core + gap + units(n) + end) == number(core, 10),
{
    let bare = core + gap;
    let whole = bare + units(n);
    let none = Seq::<char>::empty();
    assert(bare.len() >= 2 && bare[bare.len() - 2] == 'k' && bare[bare.len() - 1] == 'B'
        ==> false) by {
        if gap.len() > 0 {
            assert(bare[bare.len() - 1] == gap[gap.len() - 1]);
        } else {
            assert(bare =~= core);
        }
    }
    lemma_units_are_stripped(bare, n);
    lemma_units_are_stripped(core, 0);
    assert(core + units(0) =~= core);
    assert(none + core + gap =~= bare);
    lemma_trim_blanks(none, core, gap);
    assert(none + core + none =~= core);
    lemma_trim_blanks(none, core, none);
    if n > 0 {
        assert(whole.last() == units(n).last());
        assert(whole[0] == core[0]);
        assert(pad + core + gap + units(n) + end =~= pad + whole + end);
        lemma_trim_blanks(pad, whole, end);
    } else {
        assert forall|i: int| 0 <= i < (gap + end).len() implies (#[trigger] (gap + end)[i] == ' '
            || (gap + end)[i] == '\t') by {
            if i < gap.len() {
                assert((gap + end)[i] == gap[i]);
            } else {
                assert((gap + end)[i] == end[i - gap.len()]);
            }
        }
        assert(pad + core + gap + units(n) + end =~= pad + core + (gap + end));
        lemma_trim_blanks(pad, core, gap + end);
    }
}

proof fn lemma_trim_front_within(s: Seq<char>)
    ensures
        forall|i: int|
            0 <= i < trim_front(s).len() ==> s.contains(#[trigger] trim_front(s)[i]),
    decreases s.len(),
{
    if s.len() > 0 && is_white(s[0]) {
        let rest = s.subrange(1, s.len() as int);
        lemma_trim_front_within(rest);
        assert forall|i: int| 0 <= i < trim_front(s).len() implies s.contains(
            #[trigger] trim_front(s)[i],
        ) by {
            assert(rest.contains(trim_front(rest)[i]));
            let k = choose|k: int| 0 <= k < rest.len() && rest[k] == trim_front(rest)[i];
            assert(s[k + 1] == rest[k]);
        }
    }
}

proof fn lemma_trim_back_within(s: Seq<char>)
    ensures
        forall|i: int| 0 <= i < trim_back(s).len() ==> s.contains(#[trigger] trim_back(s)[i]),
    decreases s.len(),
{
    if s.len() > 0 && is_white(s.last()) {
        let rest = s.subrange(0, s.len() - 1);
        lemma_trim_back_within(rest);
        assert forall|i: int| 0 <= i < trim_back(s).len() implies s.contains(
            #[trigger] trim_back(s)[i],
        ) by {
            assert(rest.contains(trim_back(rest)[i]));
            let k = choose|k: int| 0 <= k < rest.len() && rest[k] == trim_back(rest)[i];
            assert(s[k] == rest[k]);
        }
    }
}

proof fn lemma_strip_within(s: Seq<char>)
    ensures
        forall|i: int| 0 <= i < strip_kb(s).len() ==> s.contains(#[trigger] strip_kb(s)[i]),
    decreases s.len(),
{
    if s.len() >= 2 && s[s.len() - 2] == 'k' && s[s.len() - 1] == 'B' {
        let rest = s.subrange(0, s.len() - 2);
        lemma_strip_within(rest);
        assert forall|i: int| 0 <= i < strip_kb(s).len() implies s.contains(
            #[trigger] strip_kb(s)[i],
        ) by {
            assert(rest.contains(strip_kb(rest)[i]));
            let k = choose|k: int| 0 <= k < rest.len() && rest[k] == strip_kb(rest)[i];
            assert(s[k] == rest[k]);
        }
    }
}

/// Where there is no digit, none is left after trimming.
proof fn lemma_trim_adds_no_digit(s: Seq<char>)
    requires
        !has_digit(s),
    ensures
        !has_digit(trim(s)),
        !has_digit(strip_kb(s)),
{
    let front = trim_front(s);
    lemma_trim_front_within(s);
    lemma_trim_back_within(front);
    lemma_strip_within(s);
    if has_digit(trim(s)) {
        let i = choose|i: int| 0 <= i < trim(s).len() && '0' <= #[trigger] trim(s)[i] <= '9';
        assert(front.contains(trim(s)[i]));
        let j = choose|j: int| 0 <= j < front.len() && front[j] == trim(s)[i];
        assert(s.contains(front[j]));
        let k = choose|k: int| 0 <= k < s.len() && s[k] == front[j];
        assert('0' <= s[k] <= '9');
    }
    if has_digit(strip_kb(s)) {
        let i = choose|i: int|
            0 <= i < strip_kb(s).len() && '0' <= #[trigger] strip_kb(s)[i] <= '9';
        assert(s.contains(strip_kb(s)[i]));
        let k = choose|k: int| 0 <= k < s.len() && s[k] == strip_kb(s)[i];
        assert('0' <= s[k] <= '9');
    }
}

proof fn lemma_no_digit_no_number(s: Seq<char>)
    requires
        !has_digit(s),
    ensures
        number(s, 10) is None,
{
    if s.len() > 0 && s[0] == '+' {
        if s.len() > 1 {
            let rest = s.subrange(1, s.len() as int);
            assert(rest[0] == s[1]);
            assert(digit_value(rest[0], 10) is None);
        }
    } else if s.len() > 0 {
        assert(!('0' <= s[0] <= '9'));
        assert(digit_value(s[0], 10) is None);
    }
}

/// Where there is no digit, no number is read.
pub proof fn law_no_digit_no_amount(s: Seq<char>)
    requires
        !has_digit(s),
    ensures
        number(trim(s), 10) is None,
        kilobytes(s) is None,
{
    lemma_trim_adds_no_digit(s);
    lemma_no_digit_no_number(trim(s));
    lemma_trim_adds_no_digit(trim(s));
    lemma_trim_adds_no_digit(strip_kb(trim(s)));
    lemma_no_digit_no_number(trim(strip_kb(trim(s))));
}

/// The last line that begins with a name is the one that counts.
proof fn lemma_last_field_is(all: Seq<Seq<char>>, name: Seq<char>, at: int)
    requires
        0 <= at < all.len(),
        opens(all[at], name),
        forall|j: int| at < j < all.len() ==> !opens(#[trigger] all[j], name),
    ensures
        last_field(all, name) == after_prefix(all[at], name),
    decreases all.len(),
{
    lemma_opens(all.last(), name);
    if at < all.len() - 1 {
        assert(!opens(all[all.len() - 1], name));
        assert forall|j: int| at < j < all.drop_last().len() implies !opens(
            #[trigger] all.drop_last()[j],
            name,
        ) by {
            assert(!opens(all[j], name));
        }
        lemma_last_field_is(all.drop_last(), name, at);
    }
}

proof fn lemma_last_field_none(all: Seq<Seq<char>>, name: Seq<char>)
    requires
        forall|j: int| 0 <= j < all.len() ==> !opens(#[trigger] all[j], name),
    ensures
        last_field(all, name) is None,
    decreases all.len(),
{
    if all.len() > 0 {
        lemma_opens(all.last(), name);
        assert(!opens(all[all.len() - 1], name));
        assert forall|j: int| 0 <= j < all.drop_last().len() implies !opens(
            #[trigger] all.drop_last()[j],
            name,
        ) by {
            assert(!opens(all[j], name));
        }
        lemma_last_field_none(all.drop_last(), name);
    }
}

proof fn lemma_last_field_skips(
    a: Seq<Seq<char>>,
    line: Seq<char>,
    b: Seq<Seq<char>>,
    name: Seq<char>,
)
    requires
        !opens(line, name),
    ensures
        last_field(a + seq![line] + b, name) == last_field(a + b, name),
    decreases b.len(),
{
    lemma_opens(line, name);
    let with = a + seq![line] + b;
    if b.len() == 0 {
        assert(with.last() == line);
        assert(with.drop_last() =~= a);
        assert(a + b =~= a);
    } else {
        assert(with.last() == b.last() && (a + b).last() == b.last());
        assert(with.drop_last() =~= a + seq![line] + b.drop_last());
        assert((a + b).drop_last() =~= a + b.drop_last());
        lemma_last_field_skips(a, line, b.drop_last(), name);
    }
}

/// Whether line `at` is the last one that begins with `name`, and `value` follows
/// it there.
pub open spec fn is_last_field(
    all: Seq<Seq<char>>,
    at: int,
    name: Seq<char>,
    value: Seq<char>,
) -> bool {
    &&& 0 <= at < all.len()
    &&& all[at] == name + value
    &&& forall|j: int| at < j < all.len() ==> !opens(#[trigger] all[j], name)
}

/// Whether no line begins with `name`.
pub open spec fn has_no_field(all: Seq<Seq<char>>, name: Seq<char>) -> bool {
    forall|j: int| 0 <= j < all.len() ==> !opens(#[trigger] all[j], name)
}

/// The free bytes of the pool are the pages that the report gives as free, times
/// the size that it gives for a page, wherever among however many lines the two
/// fields stand, and in whichever order. Of a field that is repeated, the last
/// one counts.
pub proof fn law_pool_is_read(
    all: Seq<Seq<char>>,
    free: int,
    pad: Seq<char>,
    n: nat,
    end: Seq<char>,
    size: int,
    pad2: Seq<char>,
    k: nat,
    gap: Seq<char>,
    end2: Seq<char>,
)
    requires
        are_lines(all),
        is_blank(pad) && is_blank(end) && is_blank(pad2) && is_blank(gap) && is_blank(end2),
        n <= usize::MAX,
        k <= usize::MAX,
        is_last_field(all, free, "HugePages_Free:"@, pad + decimal(n) + end),
        is_last_field(
            all,
            size,
            "Hugepagesize:"@,
            pad2 + decimal(k) + gap + "kB"@ + end2,
        ),
    ensures
        pool_bytes(Some(text_of(all))) == n * k * 1024,
{
    law_lines_of_text(all);
    law_count_is_read(pad, n, end);
    law_amount_is_read(pad2, k, gap, end2);
    lemma_named("HugePages_Free:"@, pad + decimal(n) + end);
    lemma_named("Hugepagesize:"@, pad2 + decimal(k) + gap + "kB"@ + end2);
    lemma_last_field_is(all, "HugePages_Free:"@, free);
    lemma_last_field_is(all, "Hugepagesize:"@, size);
    assert(free_pages(all) == n);
    assert(page_kilobytes(all) == k);
}

/// Whatever follows the names of the two fields: the pool is the number of the one
/// times the amount of the other, with 0 and 2048 where they are none.
pub proof fn law_pool_is_number_times_amount(
    all: Seq<Seq<char>>,
    free: int,
    v: Seq<char>,
    size: int,
    w: Seq<char>,
)
    requires
        are_lines(all),
        is_last_field(all, free, "HugePages_Free:"@, v),
        is_last_field(all, size, "Hugepagesize:"@, w),
    ensures
        pool_bytes(Some(text_of(all))) == number(trim(v), 10).unwrap_or(0) as nat * kilobytes(
            w,
        ).unwrap_or(2048) as nat * 1024,
{
    law_lines_of_text(all);
    lemma_named("HugePages_Free:"@, v);
    lemma_named("Hugepagesize:"@, w);
    lemma_last_field_is(all, "HugePages_Free:"@, free);
    lemma_last_field_is(all, "Hugepagesize:"@, size);
}

/// Only the lines of a text count, not how they are ended.
pub proof fn law_only_lines_count(one: Seq<char>, two: Seq<char>, ptr: usize, len: usize)
    requires
        lines(one) == lines(two),
    ensures
        pool_bytes(Some(one)) == pool_bytes(Some(two)),
        backing_shown(Some(one), ptr, len) == backing_shown(Some(two), ptr, len),
{
}

/// The line that gives the free pages, as the kernel writes it.
pub open spec fn free_line(n: nat) -> Seq<char> {
    "HugePages_Free: "@ + decimal(n)
}

/// The line that gives the size of a page, as the kernel writes it.
pub open spec fn size_line(k: nat) -> Seq<char> {
    "Hugepagesize: "@ + decimal(k) + " kB"@
}

proof fn lemma_free_line(n: nat)
    ensures
        is_line(free_line(n)),
        free_line(n) == "HugePages_Free:"@ + (seq![' '] + decimal(n) + Seq::empty()),
        !opens(free_line(n), "Hugepagesize:"@),
{
    reveal_strlit("HugePages_Free: ");
    reveal_strlit("HugePages_Free:");
    reveal_strlit("Hugepagesize:");
    law_decimal_is_read_back(n);
    let line = free_line(n);
    assert(line.last() == decimal(n)[decimal(n).len() - 1]);
    assert forall|i: int| 0 <= i < line.len() implies #[trigger] line[i] != '\n' by {
        if i >= 16 {
            assert(line[i] == decimal(n)[i - 16]);
        }
    }
    assert(line =~= "HugePages_Free:"@ + (seq![' '] + decimal(n) + Seq::empty()));
    assert(line[4] == 'P' && "Hugepagesize:"@[4] == 'p');
}

proof fn lemma_size_line(k: nat)
    ensures
        is_line(size_line(k)),
        size_line(k) == "Hugepagesize:"@ + (seq![' '] + decimal(k) + seq![' '] + "kB"@
            + Seq::empty()),
        !opens(size_line(k), "HugePages_Free:"@),
{
    reveal_strlit("Hugepagesize: ");
    reveal_strlit("Hugepagesize:");
    reveal_strlit("HugePages_Free:");
    reveal_strlit(" kB");
    reveal_strlit("kB");
    law_decimal_is_read_back(k);
    let line = size_line(k);
    assert(line.last() == 'B');
    assert forall|i: int| 0 <= i < line.len() implies #[trigger] line[i] != '\n' by {
        if 14 <= i < 14 + decimal(k).len() {
            assert(line[i] == decimal(k)[i - 14]);
        }
    }
    assert(line =~= "Hugepagesize:"@ + (seq![' '] + decimal(k) + seq![' '] + "kB"@
        + Seq::empty()));
    assert(line[4] == 'p' && "HugePages_Free:"@[4] == 'P');
}

/// The pool, as it is read from a report in which the number of free pages stands
/// before the size of a page, with any other lines around them.
pub proof fn law_pool_is_found_among_other_lines(
    x: Seq<Seq<char>>,
    n: nat,
    y: Seq<Seq<char>>,
    k: nat,
    z: Seq<Seq<char>>,
)
    requires
        are_lines(x) && are_lines(y) && are_lines(z),
        n <= usize::MAX,
        k <= usize::MAX,
        has_no_field(y, "HugePages_Free:"@) && has_no_field(z, "HugePages_Free:"@),
        has_no_field(z, "Hugepagesize:"@),
    ensures
        pool_bytes(
            Some(
                text_of(x) + (free_line(n) + seq!['\n']) + text_of(y) + (size_line(k) + seq!['\n'])
                    + text_of(z),
            ),
        ) == n * k * 1024,
{
    lemma_free_line(n);
    lemma_size_line(k);
    let free = free_line(n);
    let size = size_line(k);
    let all = x + seq![free] + y + seq![size] + z;
    let f = x.len() as int;
    let g = f + 1 + y.len();
    assert forall|j: int| 0 <= j < all.len() implies is_line(#[trigger] all[j]) by {
        if j < f {
            assert(all[j] == x[j]);
        } else if f < j < g {
            assert(all[j] == y[j - f - 1]);
        } else if j > g {
            assert(all[j] == z[j - g - 1]);
        }
    }
    assert forall|j: int| f < j < all.len() implies !opens(#[trigger] all[j], "HugePages_Free:"@) by {
        if j < g {
            assert(all[j] == y[j - f - 1]);
        } else if j > g {
            assert(all[j] == z[j - g - 1]);
        }
    }
    assert forall|j: int| g < j < all.len() implies !opens(#[trigger] all[j], "Hugepagesize:"@) by {
        assert(all[j] == z[j - g - 1]);
    }
    law_pool_is_read(
        all,
        f,
        seq![' '],
        n,
        Seq::empty(),
        g,
        seq![' '],
        k,
        seq![' '],
        Seq::empty(),
    );
    lemma_text_of_append(x, seq![free]);
    lemma_text_of_append(x + seq![free], y);
    lemma_text_of_append(x + seq![free] + y, seq![size]);
    lemma_text_of_append(x + seq![free] + y + seq![size], z);
    lemma_text_of_one(free);
    lemma_text_of_one(size);
}

proof fn lemma_text_of_one(line: Seq<char>)
    ensures
        text_of(seq![line]) == line + seq!['\n'],
{
    assert(seq![line].drop_last() =~= Seq::empty());
    assert(text_of(Seq::empty()) + line + seq!['\n'] =~= line + seq!['\n']);
}

proof fn lemma_text_of_append(x: Seq<Seq<char>>, y: Seq<Seq<char>>)
    ensures
        text_of(x + y) == text_of(x) + text_of(y),
    decreases y.len(),
{
    if y.len() == 0 {
        assert(x + y =~= x);
        assert(text_of(x) + text_of(y) =~= text_of(x));
    } else {
        assert((x + y).drop_last() =~= x + y.drop_last());
        assert((x + y).last() == y.last());
        lemma_text_of_append(x, y.drop_last());
        assert(text_of(x + y) =~= text_of(x) + text_of(y));
    }
}

/// Without a size, a page of the pool has 2048 KiB; without a number of free
/// pages, none is free. A value without a digit counts as a missing one.
pub proof fn law_pool_without_a_field(
    all: Seq<Seq<char>>,
    free: int,
    pad: Seq<char>,
    n: nat,
    end: Seq<char>,
    at: int,
    value: Seq<char>,
)
    requires
        are_lines(all),
        is_blank(pad) && is_blank(end),
        n <= usize::MAX,
        !has_digit(value),
    ensures
        is_last_field(all, free, "HugePages_Free:"@, pad + decimal(n) + end) && (has_no_field(
            all,
            "Hugepagesize:"@,
        ) || is_last_field(all, at, "Hugepagesize:"@, value)) ==> pool_bytes(Some(text_of(all)))
            == n * 2048 * 1024,
        has_no_field(all, "HugePages_Free:"@) || is_last_field(all, at, "HugePages_Free:"@, value)
            ==> pool_bytes(Some(text_of(all))) == 0,
        pool_bytes(None) == 0,
{
    law_lines_of_text(all);
    law_count_is_read(pad, n, end);
    law_no_digit_no_amount(value);
    lemma_named("HugePages_Free:"@, pad + decimal(n) + end);
    lemma_named("HugePages_Free:"@, value);
    lemma_named("Hugepagesize:"@, value);
    if is_last_field(all, free, "HugePages_Free:"@, pad + decimal(n) + end) {
        lemma_last_field_is(all, "HugePages_Free:"@, free);
        assert(free_pages(all) == n);
    }
    if has_no_field(all, "Hugepagesize:"@) {
        lemma_last_field_none(all, "Hugepagesize:"@);
    }
    if is_last_field(all, at, "Hugepagesize:"@, value) {
        lemma_last_field_is(all, "Hugepagesize:"@, at);
    }
    if has_no_field(all, "HugePages_Free:"@) {
        lemma_last_field_none(all, "HugePages_Free:"@);
    }
    if is_last_field(all, at, "HugePages_Free:"@, value) {
        lemma_last_field_is(all, "HugePages_Free:"@, at);
    }
    if has_no_field(all, "HugePages_Free:"@) || is_last_field(
        all,
        at,
        "HugePages_Free:"@,
        value,
    ) {
        assert(free_pages(all) == 0);
        let k = page_kilobytes(all);
        assert(0 * k == 0);
    }
}

/// A line that begins with neither field changes nothing in the pool, wherever it
/// stands.
pub proof fn law_other_line_changes_no_pool(
    a: Seq<Seq<char>>,
    line: Seq<char>,
    b: Seq<Seq<char>>,
)
    requires
        are_lines(a) && are_lines(b) && is_line(line),
        !opens(line, "HugePages_Free:"@),
        !opens(line, "Hugepagesize:"@),
    ensures
        pool_bytes(Some(text_of(a + seq![line] + b))) == pool_bytes(Some(text_of(a + b))),
{
    let with = a + seq![line] + b;
    assert forall|j: int| 0 <= j < with.len() implies is_line(#[trigger] with[j]) by {
        if j < a.len() {
            assert(with[j] == a[j]);
        } else if j > a.len() {
            assert(with[j] == b[j - a.len() - 1]);
        }
    }
    assert forall|j: int| 0 <= j < (a + b).len() implies is_line(#[trigger] (a + b)[j]) by {
        if j < a.len() {
            assert((a + b)[j] == a[j]);
        } else {
            assert((a + b)[j] == b[j - a.len()]);
        }
    }
    law_lines_of_text(with);
    law_lines_of_text(a + b);
    lemma_last_field_skips(a, line, b, "HugePages_Free:"@);
    lemma_last_field_skips(a, line, b, "Hugepagesize:"@);
}

/// A line opens a mapping where its first word, which a space ends, has a dash in
/// it, and it does not begin with a capital letter: the two addresses stand before
/// and after the first dash. One that is no hexadecimal number counts as 0.
pub proof fn law_header_is_read(a: Seq<char>, b: Seq<char>, rest: Seq<char>)
    requires
        forall|i: int| 0 <= i < a.len() ==> #[trigger] a[i] != ' ' && a[i] != '-',
        forall|i: int| 0 <= i < b.len() ==> #[trigger] b[i] != ' ',
        a.len() > 0 ==> !('A' <= a[0] <= 'Z'),
    ensures
        mapping_range(a + seq!['-'] + b + seq![' '] + rest) == Some(
            (number(a, 16).unwrap_or(0), number(b, 16).unwrap_or(0)),
        ),
{
    let line = a + seq!['-'] + b + seq![' '] + rest;
    let first = a + seq!['-'] + b;
    assert forall|i: int| 0 <= i < first.len() implies #[trigger] line[i] != ' ' by {
        if i < a.len() {
            assert(line[i] == a[i]);
        } else if i > a.len() {
            assert(line[i] == b[i - a.len() - 1]);
        }
    }
    lemma_first_at_is(line, ' ', 0, first.len() as int);
    assert(line.subrange(0, first.len() as int) =~= first);
    assert forall|i: int| 0 <= i < a.len() implies #[trigger] first[i] != '-' by {
        assert(first[i] == a[i]);
    }
    lemma_first_at_is(first, '-', 0, a.len() as int);
    assert(first.subrange(0, a.len() as int) =~= a);
    assert(first.subrange(a.len() as int + 1, first.len() as int) =~= b);
    if a.len() > 0 {
        assert(line[0] == a[0]);
    }
}

/// No other line opens a mapping: not one that begins with a capital letter, nor
/// one without a space, nor one without a dash in its first word.
pub proof fn law_other_line_is_no_header(line: Seq<char>, word: Seq<char>, rest: Seq<char>)
    ensures
        line.len() > 0 && 'A' <= line[0] <= 'Z' ==> mapping_range(line) is None,
        (forall|i: int| 0 <= i < line.len() ==> #[trigger] line[i] != ' ') ==> mapping_range(
            line,
        ) is None,
        (forall|i: int| 0 <= i < word.len() ==> #[trigger] word[i] != ' ' && word[i] != '-')
            ==> mapping_range(word + seq![' '] + rest) is None,
{
    if forall|i: int| 0 <= i < line.len() ==> #[trigger] line[i] != ' ' {
        lemma_first_at_is(line, ' ', 0, line.len() as int);
    }
    if forall|i: int| 0 <= i < word.len() ==> #[trigger] word[i] != ' ' && word[i] != '-' {
        let s = word + seq![' '] + rest;
        assert forall|i: int| 0 <= i < word.len() implies #[trigger] s[i] != ' ' by {
            assert(s[i] == word[i]);
        }
        lemma_first_at_is(s, ' ', 0, word.len() as int);
        assert(s.subrange(0, word.len() as int) =~= word);
        lemma_first_at_is(word, '-', 0, word.len() as int);
    }
}

/// A field of a mapping, as a line of smaps gives it.
pub enum Field {
    /// What of the mapping is on transparent huge pages, in KiB.
    Huge { pad: Seq<char>, kb: nat, gap: Seq<char> },
    /// The kernel's page size for the mapping, in KiB.
    Page { pad: Seq<char>, kb: nat, gap: Seq<char> },
    /// Anything else, or one of these without a number.
    Other { line: Seq<char> },
}

/// Whether a line begins with a name and a number follows somewhere.
pub open spec fn gives(line: Seq<char>, name: Seq<char>) -> bool {
    opens(line, name) && has_digit(line.subrange(name.len() as int, line.len() as int))
}

impl Field {
    /// The line that gives the field.
    pub open spec fn line(self) -> Seq<char> {
        match self {
            Field::Huge { pad, kb, gap } => "AnonHugePages:"@ + (pad + decimal(kb) + gap + "kB"@
                + Seq::empty()),
            Field::Page { pad, kb, gap } => "KernelPageSize:"@ + (pad + decimal(kb) + gap + "kB"@
                + Seq::empty()),
            Field::Other { line } => line,
        }
    }

    /// Whether the field can be written so.
    pub open spec fn is_written(self) -> bool {
        match self {
            Field::Huge { pad, kb, gap } | Field::Page { pad, kb, gap } => is_blank(pad)
                && is_blank(gap) && kb <= usize::MAX,
            Field::Other { line } => {
                &&& is_line(line)
                &&& line.len() > 0 && 'A' <= line[0] <= 'Z'
                &&& !gives(line, "AnonHugePages:"@)
                &&& !gives(line, "KernelPageSize:"@)
            },
        }
    }
}

/// A mapping of a process, as smaps gives it.
pub struct Mapping {
    /// The first address.
    pub start: usize,
    /// The address behind the last one.
    pub end: usize,
    /// How many digits the addresses are written with.
    pub width: nat,
    /// What stands behind the addresses.
    pub rest: Seq<char>,
    /// The fields.
    pub fields: Seq<Field>,
}

impl Mapping {
    /// The line that opens the mapping.
    pub open spec fn header(self) -> Seq<char> {
        hex(self.start as nat, self.width) + seq!['-'] + hex(self.end as nat, self.width) + seq![
            ' ',
        ] + self.rest
    }

    /// Whether the mapping can be written so.
    pub open spec fn is_written(self) -> bool {
        &&& self.start < self.end < pow(16, self.width)
        &&& self.width > 0
        &&& is_line(self.rest)
        &&& forall|i: int| 0 <= i < self.fields.len() ==> (#[trigger] self.fields[i]).is_written()
    }

    /// How many bytes of the mapping lie from `lo` up to `hi`.
    pub open spec fn covers(self, lo: int, hi: int) -> int {
        let from = if self.start < lo {
            lo
        } else {
            self.start as int
        };
        let to = if self.end > hi {
            hi
        } else {
            self.end as int
        };
        if from < to {
            to - from
        } else {
            0
        }
    }
}

/// The bytes on transparent huge pages that the fields give.
pub open spec fn huge_bytes(fields: Seq<Field>) -> int
    decreases fields.len(),
{
    if fields.len() == 0 {
        0
    } else {
        huge_bytes(fields.drop_last()) + match fields.last() {
            Field::Huge { kb, .. } => kb * 1024,
            _ => 0,
        }
    }
}

/// Whether the fields give a page size of 2 MiB or more.
pub open spec fn is_pooled(fields: Seq<Field>) -> bool {
    exists|i: int|
        0 <= i < fields.len() && (#[trigger] fields[i] matches Field::Page { kb, .. } && kb >= 2048)
}

/// The lines of smaps.
pub open spec fn smaps_lines(all: Seq<Mapping>) -> Seq<Seq<char>>
    decreases all.len(),
{
    if all.len() == 0 {
        Seq::empty()
    } else {
        smaps_lines(all.drop_last()) + seq![all.last().header()] + field_lines(all.last().fields)
    }
}

/// The lines of the fields of one mapping.
pub open spec fn field_lines(fields: Seq<Field>) -> Seq<Seq<char>> {
    Seq::new(fields.len(), |i: int| fields[i].line())
}

/// How many bytes from `lo` up to `hi` the mappings cover.
pub open spec fn covered(all: Seq<Mapping>, lo: int, hi: int) -> int
    decreases all.len(),
{
    if all.len() == 0 {
        0
    } else {
        covered(all.drop_last(), lo, hi) + all.last().covers(lo, hi)
    }
}

/// How many bytes on transparent huge pages are in the mappings that cover some
/// of the addresses from `lo` up to `hi`.
pub open spec fn huge_in(all: Seq<Mapping>, lo: int, hi: int) -> int
    decreases all.len(),
{
    if all.len() == 0 {
        0
    } else {
        huge_in(all.drop_last(), lo, hi) + if all.last().covers(lo, hi) > 0 {
            huge_bytes(all.last().fields)
        } else {
            0
        }
    }
}

/// Whether one of the mappings that cover some of the addresses from `lo` up to
/// `hi` is of the pool.
pub open spec fn pool_in(all: Seq<Mapping>, lo: int, hi: int) -> bool {
    exists|i: int|
        0 <= i < all.len() && (#[trigger] all[i]).covers(lo, hi) > 0 && is_pooled(all[i].fields)
}

/// Whether smaps can be written so.
pub open spec fn are_written(all: Seq<Mapping>) -> bool {
    forall|i: int| 0 <= i < all.len() ==> (#[trigger] all[i]).is_written()
}

/// The header of a mapping gives its addresses.
proof fn lemma_header(m: Mapping)
    requires
        m.is_written(),
    ensures
        mapping_range(m.header()) == Some((m.start, m.end)),
        is_line(m.header()),
{
    let a = hex(m.start as nat, m.width);
    let b = hex(m.end as nat, m.width);
    lemma_hex_digits(m.start as nat, m.width);
    lemma_hex_digits(m.end as nat, m.width);
    law_hex_is_read_back(m.start as nat, m.width);
    law_hex_is_read_back(m.end as nat, m.width);
    assert forall|i: int| 0 <= i < a.len() implies #[trigger] a[i] != ' ' && a[i] != '-' && a[i]
        != '\n' && !('A' <= a[i] <= 'Z') by {
        assert(is_written_digit(a[i]));
    }
    assert forall|i: int| 0 <= i < b.len() implies #[trigger] b[i] != ' ' && b[i] != '\n' by {
        assert(is_written_digit(b[i]));
    }
    law_header_is_read(a, b, m.rest);
    let line = m.header();
    let n = a.len() + 1 + b.len() + 1;
    assert forall|i: int| 0 <= i < line.len() implies #[trigger] line[i] != '\n' by {
        if i < a.len() {
            assert(line[i] == a[i]);
        } else if a.len() < i < n - 1 {
            assert(line[i] == b[i - a.len() - 1]);
        } else if i >= n {
            assert(line[i] == m.rest[i - n]);
        }
    }
    if m.rest.len() > 0 {
        assert(line.last() == m.rest.last());
    } else {
        assert(line.last() == ' ');
    }
}

/// A field is a line, and opens no mapping.
proof fn lemma_field_line(f: Field)
    requires
        f.is_written(),
    ensures
        is_line(f.line()),
        mapping_range(f.line()) is None,
{
    reveal_strlit("AnonHugePages:");
    reveal_strlit("KernelPageSize:");
    reveal_strlit("kB");
    let line = f.line();
    match f {
        Field::Huge { pad, kb, gap } | Field::Page { pad, kb, gap } => {
            law_decimal_is_read_back(kb);
            let name = if f is Huge {
                "AnonHugePages:"@
            } else {
                "KernelPageSize:"@
            };
            let value = pad + decimal(kb) + gap + "kB"@ + Seq::empty();
            assert(line == name + value);
            assert forall|i: int| 0 <= i < value.len() implies #[trigger] value[i] != '\n' by {
                if i < pad.len() {
                    assert(value[i] == pad[i]);
                } else if i < pad.len() + decimal(kb).len() {
                    assert(value[i] == decimal(kb)[i - pad.len()]);
                } else if i < pad.len() + decimal(kb).len() + gap.len() {
                    assert(value[i] == gap[i - pad.len() - decimal(kb).len()]);
                }
            }
            assert forall|i: int| 0 <= i < line.len() implies #[trigger] line[i] != '\n' by {
                if i >= name.len() {
                    assert(line[i] == value[i - name.len()]);
                }
            }
            assert(value.last() == 'B');
            assert(line.last() == value.last());
            assert(line[0] == name[0]);
        },
        Field::Other { .. } => {},
    }
    law_other_line_is_no_header(line, line, line);
}

/// What one field adds to a tally.
proof fn lemma_field_adds(t: Tally, f: Field, lo: usize, hi: usize)
    requires
        f.is_written(),
        t.huge <= usize::MAX,
    ensures
        !t.inside ==> tally_line(t, f.line(), lo, hi) == Some(t),
        t.inside ==> match f {
            Field::Huge { kb, .. } => tally_line(t, f.line(), lo, hi) == if t.huge + kb * 1024
                <= usize::MAX {
                Some(Tally { huge: (t.huge + kb * 1024) as nat, ..t })
            } else {
                None
            },
            Field::Page { kb, .. } => tally_line(t, f.line(), lo, hi) == Some(
                Tally { large: t.large || kb >= 2048, ..t },
            ),
            Field::Other { .. } => tally_line(t, f.line(), lo, hi) == Some(t),
        },
{
    lemma_field_line(f);
    reveal_strlit("AnonHugePages:");
    reveal_strlit("KernelPageSize:");
    let line = f.line();
    lemma_opens(line, "AnonHugePages:"@);
    lemma_opens(line, "KernelPageSize:"@);
    match f {
        Field::Huge { pad, kb, gap } => {
            law_amount_is_read(pad, kb, gap, Seq::empty());
            lemma_named("AnonHugePages:"@, pad + decimal(kb) + gap + "kB"@ + Seq::empty());
        },
        Field::Page { pad, kb, gap } => {
            law_amount_is_read(pad, kb, gap, Seq::empty());
            lemma_named("KernelPageSize:"@, pad + decimal(kb) + gap + "kB"@ + Seq::empty());
            assert(line[0] == 'K' && "AnonHugePages:"@[0] == 'A');
        },
        Field::Other { .. } => {
            if opens(line, "AnonHugePages:"@) {
                law_no_digit_no_amount(
                    line.subrange("AnonHugePages:"@.len() as int, line.len() as int),
                );
            }
            if opens(line, "KernelPageSize:"@) {
                law_no_digit_no_amount(
                    line.subrange("KernelPageSize:"@.len() as int, line.len() as int),
                );
            }
        },
    }
}

proof fn lemma_huge_bytes(fields: Seq<Field>)
    ensures
        huge_bytes(fields) >= 0,
    decreases fields.len(),
{
    if fields.len() > 0 {
        lemma_huge_bytes(fields.drop_last());
    }
}

/// What the fields of one mapping add to a tally.
proof fn lemma_fields_add(before: Seq<Seq<char>>, fields: Seq<Field>, lo: usize, hi: usize)
    requires
        forall|i: int| 0 <= i < fields.len() ==> (#[trigger] fields[i]).is_written(),
    ensures
        tally(before + field_lines(fields), lo, hi) == match tally(before, lo, hi) {
            None => None,
            Some(t) => if !t.inside {
                Some(t)
            } else if t.huge + huge_bytes(fields) > usize::MAX {
                None
            } else {
                Some(
                    Tally {
                        huge: (t.huge + huge_bytes(fields)) as nat,
                        large: t.large || is_pooled(fields),
                        ..t
                    },
                )
            },
        },
    decreases fields.len(),
{
    lemma_huge_bytes(fields);
    lemma_tally_bounded(before, lo, hi);
    let now = before + field_lines(fields);
    if fields.len() == 0 {
        assert(now =~= before);
    } else {
        let less = fields.drop_last();
        assert forall|i: int| 0 <= i < less.len() implies (#[trigger] less[i]).is_written() by {
            assert(fields[i].is_written());
        }
        lemma_huge_bytes(less);
        lemma_fields_add(before, less, lo, hi);
        assert(now.drop_last() =~= before + field_lines(less));
        assert(now.last() == fields.last().line());
        assert(fields[fields.len() - 1].is_written());
        if let Some(t) = tally(before + field_lines(less), lo, hi) {
            lemma_tally_bounded(before + field_lines(less), lo, hi);
            lemma_field_adds(t, fields.last(), lo, hi);
        }
        lemma_pooled(fields);
    }
}

proof fn lemma_pooled(fields: Seq<Field>)
    requires
        fields.len() > 0,
    ensures
        is_pooled(fields) <==> is_pooled(fields.drop_last()) || (
        fields.last() matches Field::Page { kb, .. } && kb >= 2048),
{
    let less = fields.drop_last();
    if is_pooled(less) {
        let i = choose|i: int|
            0 <= i < less.len() && (#[trigger] less[i] matches Field::Page { kb, .. } && kb >= 2048);
        assert(fields[i] == less[i]);
    }
    if is_pooled(fields) {
        let i = choose|i: int|
            0 <= i < fields.len() && (#[trigger] fields[i] matches Field::Page { kb, .. } && kb
                >= 2048);
        if i < less.len() {
            assert(less[i] == fields[i]);
        }
    }
    if fields.last() matches Field::Page { kb, .. } && kb >= 2048 {
        assert(fields[fields.len() - 1] == fields.last());
    }
}

/// No count of a tally is beyond `usize`.
proof fn lemma_tally_bounded(all: Seq<Seq<char>>, lo: usize, hi: usize)
    ensures
        tally(all, lo, hi) matches Some(t) ==> t.huge <= usize::MAX && t.overlap <= usize::MAX,
    decreases all.len(),
{
    if all.len() > 0 {
        lemma_tally_bounded(all.drop_last(), lo, hi);
    }
}

proof fn lemma_totals(all: Seq<Mapping>, lo: int, hi: int)
    ensures
        covered(all, lo, hi) >= 0,
        huge_in(all, lo, hi) >= 0,
        all.len() > 0 ==> (pool_in(all, lo, hi) <==> pool_in(all.drop_last(), lo, hi) || (
        all.last().covers(lo, hi) > 0 && is_pooled(all.last().fields))),
    decreases all.len(),
{
    if all.len() > 0 {
        let less = all.drop_last();
        lemma_totals(less, lo, hi);
        lemma_huge_bytes(all.last().fields);
        if pool_in(less, lo, hi) {
            let i = choose|i: int|
                0 <= i < less.len() && (#[trigger] less[i]).covers(lo, hi) > 0 && is_pooled(
                    less[i].fields,
                );
            assert(all[i] == less[i]);
        }
        if pool_in(all, lo, hi) {
            let i = choose|i: int|
                0 <= i < all.len() && (#[trigger] all[i]).covers(lo, hi) > 0 && is_pooled(
                    all[i].fields,
                );
            if i < less.len() {
                assert(less[i] == all[i]);
            }
        }
        assert(all[all.len() - 1] == all.last());
    }
}

/// The tally of smaps is what its mappings come to.
proof fn lemma_mappings_add(all: Seq<Mapping>, lo: usize, hi: usize)
    requires
        are_written(all),
        lo < hi,
    ensures
        covered(all, lo as int, hi as int) > usize::MAX || huge_in(all, lo as int, hi as int)
            > usize::MAX ==> tally(smaps_lines(all), lo, hi) is None,
        covered(all, lo as int, hi as int) <= usize::MAX && huge_in(all, lo as int, hi as int)
            <= usize::MAX ==> (tally(smaps_lines(all), lo, hi) matches Some(t) && t.overlap
            == covered(all, lo as int, hi as int) && t.huge == huge_in(all, lo as int, hi as int)
            && t.large == pool_in(all, lo as int, hi as int)),
    decreases all.len(),
{
    lemma_totals(all, lo as int, hi as int);
    if all.len() > 0 {
        let less = all.drop_last();
        let m = all.last();
        assert forall|i: int| 0 <= i < less.len() implies (#[trigger] less[i]).is_written() by {
            assert(all[i].is_written());
        }
        assert(all[all.len() - 1].is_written());
        lemma_totals(less, lo as int, hi as int);
        lemma_mappings_add(less, lo, hi);
        lemma_header(m);
        lemma_huge_bytes(m.fields);
        let front = smaps_lines(less) + seq![m.header()];
        assert(front.drop_last() =~= smaps_lines(less));
        assert(front.last() == m.header());
        lemma_tally_bounded(front, lo, hi);
        lemma_tally_bounded(smaps_lines(less), lo, hi);
        lemma_fields_add(front, m.fields, lo, hi);
    }
}

proof fn lemma_smaps_are_lines(all: Seq<Mapping>)
    requires
        are_written(all),
    ensures
        are_lines(smaps_lines(all)),
    decreases all.len(),
{
    if all.len() > 0 {
        let less = all.drop_last();
        let m = all.last();
        assert forall|i: int| 0 <= i < less.len() implies (#[trigger] less[i]).is_written() by {
            assert(all[i].is_written());
        }
        assert(all[all.len() - 1].is_written());
        lemma_smaps_are_lines(less);
        lemma_header(m);
        let front = smaps_lines(less);
        let now = smaps_lines(all);
        assert forall|j: int| 0 <= j < now.len() implies is_line(#[trigger] now[j]) by {
            if j < front.len() {
                assert(now[j] == front[j]);
            } else if j > front.len() {
                let k = j - front.len() - 1;
                assert(now[j] == m.fields[k].line());
                lemma_field_line(m.fields[k]);
            }
        }
    }
}

/// The backing that is read from smaps is the one that the mappings have which
/// cover some of the region:
///
/// * where none does, or the region is empty, it is unknown;
/// * where one of them has a page size of 2 MiB or more, it is the pool;
/// * where no byte of them is on transparent huge pages, it is ordinary pages;
/// * else it is the share of the region that their transparent huge pages come to,
///   at most all of it, in whole percents, and one where it is less.
///
/// Nothing is told where a count is beyond `usize`.
pub proof fn law_backing_is_read(all: Seq<Mapping>, ptr: usize, len: usize)
    requires
        are_written(all),
        len > 0,
        ptr + len <= usize::MAX,
    ensures
        ({
            let shown = backing_shown(Some(text_of(smaps_lines(all))), ptr, len);
            let cover = covered(all, ptr as int, ptr + len);
            let huge = huge_in(all, ptr as int, ptr + len);
            let part = if huge < len {
                huge
            } else {
                len as int
            };
            let counted = cover <= usize::MAX && huge <= usize::MAX;
            &&& !counted ==> shown is None
            &&& counted && cover == 0 ==> shown == Some(Backing::Unknown)
            &&& counted && cover > 0 && pool_in(all, ptr as int, ptr + len) ==> shown == Some(
                Backing::Hugetlb,
            )
            &&& counted && cover > 0 && !pool_in(all, ptr as int, ptr + len) && huge == 0
                ==> shown == Some(Backing::FourK)
            &&& counted && cover > 0 && !pool_in(all, ptr as int, ptr + len) && huge > 0 && part
                * 100 > usize::MAX ==> shown is None
            &&& counted && cover > 0 && !pool_in(all, ptr as int, ptr + len) && huge > 0 && part
                * 100 <= usize::MAX ==> (shown matches Some(Backing::Thp(percent)) && 1 <= percent
                <= 100 && (percent * len <= part * 100 || percent == 1) && part * 100 < (percent
                + 1) * len)
        }),
{
    lemma_smaps_are_lines(all);
    law_lines_of_text(smaps_lines(all));
    lemma_mappings_add(all, ptr, (ptr + len) as usize);
    lemma_totals(all, ptr as int, ptr + len);
    let huge = huge_in(all, ptr as int, ptr + len);
    let part = if huge < len {
        huge
    } else {
        len as int
    };
    let l = len as int;
    let q = part * 100 / l;
    assert(q * l <= part * 100 < (q + 1) * l && 0 <= q <= 100) by (nonlinear_arith)
        requires
            q == part * 100 / l,
            l > 0,
            0 <= part <= l,
    ;
    if q == 0 {
        assert((q + 1) * l == l) by (nonlinear_arith)
            requires
                q == 0,
        ;
    }
}

/// Where there is nothing to look at, the backing is unknown.
pub proof fn law_backing_of_nothing(smaps: Option<Seq<char>>, ptr: usize, len: usize)
    ensures
        backing_shown(smaps, ptr, 0) == Some(Backing::Unknown),
        backing_shown(None, ptr, len) == Some(Backing::Unknown),
{
}

proof fn lemma_tally_skips(
    a: Seq<Seq<char>>,
    line: Seq<char>,
    b: Seq<Seq<char>>,
    lo: usize,
    hi: usize,
)
    requires
        line.len() > 0 && 'A' <= line[0] <= 'Z',
        !opens(line, "AnonHugePages:"@),
        !opens(line, "KernelPageSize:"@),
    ensures
        tally(a + seq![line] + b, lo, hi) == tally(a + b, lo, hi),
    decreases b.len(),
{
    law_other_line_is_no_header(line, line, line);
    lemma_opens(line, "AnonHugePages:"@);
    lemma_opens(line, "KernelPageSize:"@);
    let with = a + seq![line] + b;
    if b.len() == 0 {
        assert(with.last() == line);
        assert(with.drop_last() =~= a);
        assert(a + b =~= a);
    } else {
        assert(with.last() == b.last() && (a + b).last() == b.last());
        assert(with.drop_last() =~= a + seq![line] + b.drop_last());
        assert((a + b).drop_last() =~= a + b.drop_last());
        lemma_tally_skips(a, line, b.drop_last(), lo, hi);
    }
}

/// Taking away a field other than the two that count, or putting another such one
/// in its place, leaves every backing as it is, whatever the mapping.
pub proof fn law_other_field_changes_no_backing(
    a: Seq<Seq<char>>,
    line: Seq<char>,
    other: Seq<char>,
    b: Seq<Seq<char>>,
    ptr: usize,
    len: usize,
)
    requires
        are_lines(a) && are_lines(b) && is_line(line) && is_line(other),
        line.len() > 0 && 'A' <= line[0] <= 'Z',
        other.len() > 0 && 'A' <= other[0] <= 'Z',
        !opens(line, "AnonHugePages:"@) && !opens(line, "KernelPageSize:"@),
        !opens(other, "AnonHugePages:"@) && !opens(other, "KernelPageSize:"@),
    ensures
        backing_shown(Some(text_of(a + seq![line] + b)), ptr, len) == backing_shown(
            Some(text_of(a + b)),
            ptr,
            len,
        ),
        backing_shown(Some(text_of(a + seq![line] + b)), ptr, len) == backing_shown(
            Some(text_of(a + seq![other] + b)),
            ptr,
            len,
        ),
{
    assert forall|l: Seq<char>| is_line(l) implies are_lines(#[trigger] (a + seq![l] + b)) by {
        let with = a + seq![l] + b;
        assert forall|j: int| 0 <= j < with.len() implies is_line(#[trigger] with[j]) by {
            if j < a.len() {
                assert(with[j] == a[j]);
            } else if j > a.len() {
                assert(with[j] == b[j - a.len() - 1]);
            }
        }
    }
    assert forall|j: int| 0 <= j < (a + b).len() implies is_line(#[trigger] (a + b)[j]) by {
        if j < a.len() {
            assert((a + b)[j] == a[j]);
        } else {
            assert((a + b)[j] == b[j - a.len()]);
        }
    }
    law_lines_of_text(a + seq![line] + b);
    law_lines_of_text(a + seq![other] + b);
    law_lines_of_text(a + b);
    if ptr + len <= usize::MAX {
        lemma_tally_skips(a, line, b, ptr, (ptr + len) as usize);
        lemma_tally_skips(a, other, b, ptr, (ptr + len) as usize);
    }
}

/// Whether two lines say the same of a mapping: they open it at the same addresses;
/// or they give the same amount of huge pages, or page sizes on the same side of
/// 2 MiB.
pub open spec fn say_the_same(one: Seq<char>, two: Seq<char>) -> bool {
    ||| mapping_range(one) is Some && mapping_range(one) == mapping_range(two)
    ||| exists|v: Seq<char>, w: Seq<char>|
        #![trigger kilobytes(v), kilobytes(w)]
        one == "AnonHugePages:"@ + v && two == "AnonHugePages:"@ + w && kilobytes(v).unwrap_or(0)
            == kilobytes(w).unwrap_or(0)
    ||| exists|v: Seq<char>, w: Seq<char>|
        #![trigger kilobytes(v), kilobytes(w)]
        one == "KernelPageSize:"@ + v && two == "KernelPageSize:"@ + w && (kilobytes(v).unwrap_or(4)
            >= 2048 <==> kilobytes(w).unwrap_or(4) >= 2048)
}

proof fn lemma_say_the_same(t: Tally, one: Seq<char>, two: Seq<char>, lo: usize, hi: usize)
    requires
        say_the_same(one, two),
    ensures
        tally_line(t, one, lo, hi) == tally_line(t, two, lo, hi),
{
    reveal_strlit("AnonHugePages:");
    reveal_strlit("KernelPageSize:");
    if !(mapping_range(one) is Some && mapping_range(one) == mapping_range(two)) {
        law_other_line_is_no_header(one, one, one);
        law_other_line_is_no_header(two, two, two);
        lemma_opens(one, "AnonHugePages:"@);
        lemma_opens(two, "AnonHugePages:"@);
        if one[0] == 'A' {
            let (v, w) = choose|v: Seq<char>, w: Seq<char>|
                #![trigger kilobytes(v), kilobytes(w)]
                one == "AnonHugePages:"@ + v && two == "AnonHugePages:"@ + w && kilobytes(
                    v,
                ).unwrap_or(0) == kilobytes(w).unwrap_or(0);
            assert("KernelPageSize:"@[0] == 'K');
            lemma_named("AnonHugePages:"@, v);
            lemma_named("AnonHugePages:"@, w);
        } else {
            let (v, w) = choose|v: Seq<char>, w: Seq<char>|
                #![trigger kilobytes(v), kilobytes(w)]
                one == "KernelPageSize:"@ + v && two == "KernelPageSize:"@ + w && (kilobytes(
                    v,
                ).unwrap_or(4) >= 2048 <==> kilobytes(w).unwrap_or(4) >= 2048);
            assert("AnonHugePages:"@[0] == 'A');
            assert(one[0] == 'K' && two[0] == 'K');
            lemma_named("KernelPageSize:"@, v);
            lemma_named("KernelPageSize:"@, w);
        }
    }
}

proof fn lemma_tally_of_the_same(
    a: Seq<Seq<char>>,
    one: Seq<char>,
    two: Seq<char>,
    b: Seq<Seq<char>>,
    lo: usize,
    hi: usize,
)
    requires
        say_the_same(one, two),
    ensures
        tally(a + seq![one] + b, lo, hi) == tally(a + seq![two] + b, lo, hi),
    decreases b.len(),
{
    let x = a + seq![one] + b;
    let y = a + seq![two] + b;
    if b.len() == 0 {
        assert(x.last() == one && y.last() == two);
        assert(x.drop_last() =~= a);
        assert(y.drop_last() =~= a);
        if let Some(t) = tally(a, lo, hi) {
            lemma_say_the_same(t, one, two, lo, hi);
        }
    } else {
        assert(x.last() == b.last() && y.last() == b.last());
        assert(x.drop_last() =~= a + seq![one] + b.drop_last());
        assert(y.drop_last() =~= a + seq![two] + b.drop_last());
        lemma_tally_of_the_same(a, one, two, b.drop_last(), lo, hi);
    }
}

/// Lines that say the same can stand for each other, however they are written, in
/// any text and for any region.
pub proof fn law_same_reading_same_backing(
    a: Seq<Seq<char>>,
    one: Seq<char>,
    two: Seq<char>,
    b: Seq<Seq<char>>,
    ptr: usize,
    len: usize,
)
    requires
        are_lines(a) && are_lines(b) && is_line(one) && is_line(two),
        say_the_same(one, two),
    ensures
        backing_shown(Some(text_of(a + seq![one] + b)), ptr, len) == backing_shown(
            Some(text_of(a + seq![two] + b)),
            ptr,
            len,
        ),
{
    assert forall|l: Seq<char>| is_line(l) implies are_lines(#[trigger] (a + seq![l] + b)) by {
        let with = a + seq![l] + b;
        assert forall|j: int| 0 <= j < with.len() implies is_line(#[trigger] with[j]) by {
            if j < a.len() {
                assert(with[j] == a[j]);
            } else if j > a.len() {
                assert(with[j] == b[j - a.len() - 1]);
            }
        }
    }
    law_lines_of_text(a + seq![one] + b);
    law_lines_of_text(a + seq![two] + b);
    if ptr + len <= usize::MAX {
        lemma_tally_of_the_same(a, one, two, b, ptr, (ptr + len) as usize);
    }
}

/// The words for a share of huge pages give the percentage, which can be read back
/// from them; the other words are fixed.
pub proof fn law_words_tell_the_backing(percent: u8)
    ensures
        Backing::Thp(percent).words().take(4) == "thp "@,
        Backing::Thp(percent).words().last() == '%',
        number(
            Backing::Thp(percent).words().subrange(4, Backing::Thp(percent).words().len() - 1),
            10,
        ) == Some(percent as usize),
        Backing::Hugetlb.words() == "hugetlb"@,
        Backing::FourK.words() == "4k"@,
        Backing::Unknown.words() == "unknown"@,
{
    reveal_strlit("thp ");
    reveal_strlit("%");
    let w = Backing::Thp(percent).words();
    let d = decimal(percent as nat);
    law_decimal_is_read_back(percent as nat);
    assert(w.take(4) =~= "thp "@);
    assert(w.subrange(4, w.len() - 1) =~= d);
}

/// The policy is what follows the first opening bracket, up to the next bracket of
/// either sort or to the end; without an opening bracket it is not available.
pub proof fn law_policy_is_read(before: Seq<char>, word: Seq<char>, rest: Seq<char>)
    requires
        forall|i: int| 0 <= i < before.len() ==> #[trigger] before[i] != '[',
        forall|i: int| 0 <= i < word.len() ==> #[trigger] word[i] != '[' && word[i] != ']',
        rest.len() == 0 || rest[0] == ']' || rest[0] == '[',
    ensures
        bracketed(Some(before + seq!['['] + word + rest)) == word,
        bracketed(Some(before)) == "n/a"@,
        bracketed(None) == "n/a"@,
{
    let s = before + seq!['['] + word + rest;
    let open = before.len() as int;
    let stop = open + 1 + word.len();
    assert forall|i: int| 0 <= i < open implies #[trigger] s[i] != '[' by {
        assert(s[i] == before[i]);
    }
    lemma_first_at_is(s, '[', 0, open);
    lemma_first_at_is(before, '[', 0, open);
    assert forall|i: int| open < i < stop implies #[trigger] s[i] != '[' && s[i] != ']' by {
        assert(s[i] == word[i - open - 1]);
    }
    crate::text::lemma_first_at_bounds(s, '[', open + 1);
    crate::text::lemma_first_at_bounds(s, ']', open + 1);
    let next = first_at(s, '[', open + 1);
    let close = first_at(s, ']', open + 1);
    assert(next >= stop) by {
        if next < stop {
            assert(s[next] == '[');
        }
    }
    assert(close >= stop) by {
        if close < stop {
            assert(s[close] == ']');
        }
    }
    if rest.len() > 0 {
        assert(s[stop] == rest[0]);
        if rest[0] == '[' {
            lemma_first_at_is(s, '[', open + 1, stop);
        } else {
            lemma_first_at_is(s, ']', open + 1, stop);
        }
    }
    assert(s.subrange(open + 1, stop) =~= word);
}

} // verus!
