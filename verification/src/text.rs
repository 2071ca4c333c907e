//! Text of the kernel's status files, as sequences of characters: lines,
//! trimming, numbers read and numbers written.

use vstd::prelude::*;
use vstd::slice::slice_subrange;

verus! {

/// The characters with the Unicode property `White_Space`.
pub open spec fn is_white(c: char) -> bool {
    ||| '\u{9}' <= c <= '\u{d}'
    ||| c == ' '
    ||| c == '\u{85}'
    ||| c == '\u{a0}'
    ||| c == '\u{1680}'
    ||| '\u{2000}' <= c <= '\u{200a}'
    ||| c == '\u{2028}'
    ||| c == '\u{2029}'
    ||| c == '\u{202f}'
    ||| c == '\u{205f}'
    ||| c == '\u{3000}'
}

/// Whether `c` is white space.
pub fn white(c: char) -> (r: bool)
    ensures
        r == is_white(c),
{
    ('\u{9}' <= c && c <= '\u{d}') || c == ' ' || c == '\u{85}' || c == '\u{a0}' || c == '\u{1680}'
        || ('\u{2000}' <= c && c <= '\u{200a}') || c == '\u{2028}' || c == '\u{2029}' || c
        == '\u{202f}' || c == '\u{205f}' || c == '\u{3000}'
}

/// The first position at or after `from` that holds `c`, or the length of `s`
/// where there is none.
pub open spec fn first_at(s: Seq<char>, c: char, from: int) -> int
    decreases s.len() - from,
{
    if from >= s.len() {
        s.len() as int
    } else if s[from] == c {
        from
    } else {
        first_at(s, c, from + 1)
    }
}

/// `first_at` stays within the text, and stops at the first match.
pub proof fn lemma_first_at_bounds(s: Seq<char>, c: char, from: int)
    requires
        0 <= from <= s.len(),
    ensures
        from <= first_at(s, c, from) <= s.len(),
        first_at(s, c, from) < s.len() ==> s[first_at(s, c, from)] == c,
        forall|k: int| from <= k < first_at(s, c, from) ==> s[k] != c,
    decreases s.len() - from,
{
    if from < s.len() && s[from] != c {
        lemma_first_at_bounds(s, c, from + 1);
    }
}

/// Finds `c` in `s` at or after `from`.
pub fn find_from(s: &[char], c: char, from: usize) -> (r: usize)
    requires
        from <= s@.len(),
    ensures
        r == first_at(s@, c, from as int),
        from <= r <= s@.len(),
        r < s@.len() ==> s@[r as int] == c,
        forall|k: int| from <= k < r ==> s@[k] != c,
{
    let mut i: usize = from;
    while i < s.len() && s[i] != c
        invariant
            from <= i <= s@.len(),
            first_at(s@, c, from as int) == first_at(s@, c, i as int),
            forall|k: int| from <= k < i ==> s@[k] != c,
        decreases s@.len() - i,
    {
        i = i + 1;
    }
    i
}

/// The characters of a string, one by one.
pub fn chars_of(text: &str) -> (r: Vec<char>)
    ensures
        r@ == text@,
{
    let mut r: Vec<char> = Vec::new();
    for c in it: text.chars()
        invariant
            it.seq() == text@,
            r@ == text@.take(it.index()),
    {
        r.push(c);
    }
    r
}

/// The line that starts at `from` and whose terminator, if it has one, stands
/// at `end`: a carriage return right before a newline belongs to the
/// terminator.
pub open spec fn line_between(s: Seq<char>, from: int, end: int) -> Seq<char> {
    if end < s.len() && end > from && s[end - 1] == '\r' {
        s.subrange(from, end - 1)
    } else {
        s.subrange(from, end)
    }
}

/// The lines of `s` from position `from` on. The last line needs no
/// terminator, and a terminator at the very end opens no further line.
pub open spec fn lines_from(s: Seq<char>, from: int) -> Seq<Seq<char>>
    decreases s.len() - from + 1,
{
    if from < 0 || from >= s.len() {
        Seq::empty()
    } else {
        proof {
            lemma_first_at_bounds(s, '\n', from);
        }
        let end = first_at(s, '\n', from);
        seq![line_between(s, from, end)] + lines_from(s, end + 1)
    }
}

/// The lines of a text.
pub open spec fn lines(s: Seq<char>) -> Seq<Seq<char>> {
    lines_from(s, 0)
}

/// Splits a text into its lines.
pub fn split_lines(s: &[char]) -> (r: Vec<&[char]>)
    ensures
        r@.len() == lines(s@).len(),
        forall|i: int| 0 <= i < r@.len() ==> (#[trigger] r@[i])@ == lines(s@)[i],
{
    let mut r: Vec<&[char]> = Vec::new();
    let mut from: usize = 0;
    let ghost mut done: Seq<Seq<char>> = Seq::empty();
    while from < s.len()
        invariant
            from <= s@.len(),
            lines(s@) == done + lines_from(s@, from as int),
            r@.len() == done.len(),
            forall|i: int| 0 <= i < r@.len() ==> (#[trigger] r@[i])@ == done[i],
        decreases s@.len() - from,
    {
        let end = find_from(s, '\n', from);
        let line = if end < s.len() && end > from && s[end - 1] == '\r' {
            slice_subrange(s, from, end - 1)
        } else {
            slice_subrange(s, from, end)
        };
        r.push(line);
        let ghost before = done;
        proof {
            done = done.push(line@);
            assert(before + (seq![line@] + lines_from(s@, end + 1)) =~= done + lines_from(
                s@,
                end + 1,
            ));
        }
        if end == s.len() {
            proof {
                assert(lines_from(s@, end + 1) =~= Seq::<Seq<char>>::empty());
                assert(done + Seq::<Seq<char>>::empty() =~= done);
            }
            return r;
        }
        from = end + 1;
    }
    r
}

/// Whether what is put behind `s` starts a new line.
pub open spec fn ends_a_line(s: Seq<char>) -> bool {
    s.len() == 0 || s.last() == '\n'
}

/// What stands in front of a text does not move its characters against each
/// other.
proof fn lemma_first_at_shift(x: Seq<char>, y: Seq<char>, c: char, k: int)
    requires
        0 <= k <= y.len(),
    ensures
        first_at(x + y, c, x.len() + k) == x.len() + first_at(y, c, k),
    decreases y.len() - k,
{
    if k < y.len() {
        assert((x + y)[x.len() + k] == y[k]);
        if y[k] != c {
            lemma_first_at_shift(x, y, c, k + 1);
        }
    }
}

/// Where `c` ends `x`, it is found within `x`, whatever follows.
proof fn lemma_first_at_within(x: Seq<char>, y: Seq<char>, c: char, from: int)
    requires
        0 <= from < x.len(),
        x.last() == c,
    ensures
        first_at(x + y, c, from) == first_at(x, c, from),
        first_at(x, c, from) < x.len(),
    decreases x.len() - from,
{
    assert((x + y)[from] == x[from]);
    if x[from] != c {
        lemma_first_at_within(x, y, c, from + 1);
    }
}

/// The lines of what follows `x` are those of `y`, from the same position on.
proof fn lemma_lines_shift(x: Seq<char>, y: Seq<char>, k: int)
    requires
        0 <= k,
    ensures
        lines_from(x + y, x.len() + k) == lines_from(y, k),
    decreases y.len() - k + 1,
{
    if k < y.len() {
        let e = first_at(y, '\n', k);
        lemma_first_at_bounds(y, '\n', k);
        lemma_first_at_shift(x, y, '\n', k);
        assert((x + y).subrange(x.len() + k, x.len() + e) =~= y.subrange(k, e));
        if e > k {
            assert((x + y)[x.len() + e - 1] == y[e - 1]);
            assert((x + y).subrange(x.len() + k, x.len() + e - 1) =~= y.subrange(k, e - 1));
        }
        lemma_lines_shift(x, y, e + 1);
    }
}

/// The lines of `x` from a position on stay what they are when `y` follows.
proof fn lemma_lines_append(x: Seq<char>, y: Seq<char>, from: int)
    requires
        0 <= from <= x.len(),
        ends_a_line(x),
    ensures
        lines_from(x + y, from) == lines_from(x, from) + lines(y),
    decreases x.len() - from,
{
    if from == x.len() {
        lemma_lines_shift(x, y, 0);
        assert(lines_from(x, from) + lines(y) =~= lines(y));
    } else {
        let e = first_at(x, '\n', from);
        lemma_first_at_bounds(x, '\n', from);
        lemma_first_at_within(x, y, '\n', from);
        assert((x + y).subrange(from, e) =~= x.subrange(from, e));
        if e > from {
            assert((x + y)[e - 1] == x[e - 1]);
            assert((x + y).subrange(from, e - 1) =~= x.subrange(from, e - 1));
        }
        lemma_lines_append(x, y, e + 1);
        let line = line_between(x, from, e);
        assert(seq![line] + (lines_from(x, e + 1) + lines(y)) =~= (seq![line] + lines_from(
            x,
            e + 1,
        )) + lines(y));
    }
}

/// Where a text starts on a new line behind another, the lines of both together
/// are those of the one followed by those of the other.
pub proof fn law_lines_append(x: Seq<char>, y: Seq<char>)
    requires
        ends_a_line(x),
    ensures
        lines(x + y) == lines(x) + lines(y),
{
    lemma_lines_append(x, y, 0);
}

/// `s` without the white space at its front.
pub open spec fn trim_front(s: Seq<char>) -> Seq<char>
    decreases s.len(),
{
    if s.len() > 0 && is_white(s[0]) {
        trim_front(s.subrange(1, s.len() as int))
    } else {
        s
    }
}

/// `s` without the white space at its back.
pub open spec fn trim_back(s: Seq<char>) -> Seq<char>
    decreases s.len(),
{
    if s.len() > 0 && is_white(s.last()) {
        trim_back(s.subrange(0, s.len() - 1))
    } else {
        s
    }
}

/// `s` without the white space at its ends.
pub open spec fn trim(s: Seq<char>) -> Seq<char> {
    trim_back(trim_front(s))
}

/// Trims white space at both ends.
pub fn trimmed(s: &[char]) -> (r: &[char])
    ensures
        r@ == trim(s@),
{
    let mut r: &[char] = s;
    while r.len() > 0 && white(r[0])
        invariant
            trim_front(s@) == trim_front(r@),
        decreases r@.len(),
    {
        r = slice_subrange(r, 1, r.len());
    }
    let ghost front = r@;
    while r.len() > 0 && white(r[r.len() - 1])
        invariant
            trim_back(front) == trim_back(r@),
        decreases r@.len(),
    {
        r = slice_subrange(r, 0, r.len() - 1);
    }
    r
}

/// `s` without any `kB` at its end, however often it is repeated.
pub open spec fn strip_kb(s: Seq<char>) -> Seq<char>
    decreases s.len(),
{
    if s.len() >= 2 && s[s.len() - 2] == 'k' && s[s.len() - 1] == 'B' {
        strip_kb(s.subrange(0, s.len() - 2))
    } else {
        s
    }
}

/// Strips every trailing `kB`.
pub fn stripped_kb(s: &[char]) -> (r: &[char])
    ensures
        r@ == strip_kb(s@),
{
    let mut r: &[char] = s;
    while r.len() >= 2 && r[r.len() - 2] == 'k' && r[r.len() - 1] == 'B'
        invariant
            strip_kb(s@) == strip_kb(r@),
        decreases r@.len(),
    {
        r = slice_subrange(r, 0, r.len() - 2);
    }
    r
}

/// Whether `s` begins with `prefix`.
pub open spec fn begins_with(s: Seq<char>, prefix: Seq<char>) -> bool {
    s.len() >= prefix.len() && s.subrange(0, prefix.len() as int) == prefix
}

/// Whether `s` begins with the characters of `prefix`.
pub fn begins(s: &[char], prefix: &[char]) -> (r: bool)
    ensures
        r == begins_with(s@, prefix@),
{
    if s.len() < prefix.len() {
        return false;
    }
    let mut i: usize = 0;
    while i < prefix.len()
        invariant
            i <= prefix@.len() <= s@.len(),
            forall|k: int| 0 <= k < i ==> s@[k] == prefix@[k],
        decreases prefix@.len() - i,
    {
        if s[i] != prefix[i] {
            assert(s@.subrange(0, prefix@.len() as int)[i as int] != prefix@[i as int]);
            return false;
        }
        i = i + 1;
    }
    assert(s@.subrange(0, prefix@.len() as int) =~= prefix@);
    true
}

/// What follows `prefix` in `s`, where `s` begins with it.
pub open spec fn after_prefix(s: Seq<char>, prefix: Seq<char>) -> Option<Seq<char>> {
    if begins_with(s, prefix) {
        Some(s.subrange(prefix.len() as int, s.len() as int))
    } else {
        None
    }
}

/// What follows the characters of `prefix` in `s`.
pub fn rest_after<'a>(s: &'a [char], prefix: &str) -> (r: Option<&'a [char]>)
    ensures
        r is Some == after_prefix(s@, prefix@) is Some,
        r matches Some(t) ==> after_prefix(s@, prefix@) == Some(t@),
{
    let p = chars_of(prefix);
    if begins(s, p.as_slice()) {
        Some(slice_subrange(s, p.len(), s.len()))
    } else {
        None
    }
}

/// The text that is made of the given lines, each of them ended by a newline.
pub open spec fn text_of(all: Seq<Seq<char>>) -> Seq<char>
    decreases all.len(),
{
    if all.len() == 0 {
        Seq::empty()
    } else {
        text_of(all.drop_last()) + all.last() + seq!['\n']
    }
}

/// Whether `s` can be a line of a text: it holds no newline, and does not end in
/// a carriage return.
pub open spec fn is_line(s: Seq<char>) -> bool {
    &&& forall|i: int| 0 <= i < s.len() ==> #[trigger] s[i] != '\n'
    &&& s.len() > 0 ==> s.last() != '\r'
}

/// Whether every one of the given can be a line.
pub open spec fn are_lines(all: Seq<Seq<char>>) -> bool {
    forall|i: int| 0 <= i < all.len() ==> is_line(#[trigger] all[i])
}

/// A text that is made of whole lines starts a new one.
proof fn lemma_text_ends_a_line(all: Seq<Seq<char>>)
    ensures
        ends_a_line(text_of(all)),
{
    if all.len() > 0 {
        assert(text_of(all).last() == '\n');
    }
}

/// Without a newline, all is one line.
proof fn lemma_first_at_none(s: Seq<char>, c: char, from: int)
    requires
        0 <= from <= s.len(),
        forall|i: int| from <= i < s.len() ==> #[trigger] s[i] != c,
    ensures
        first_at(s, c, from) == s.len(),
    decreases s.len() - from,
{
    if from < s.len() {
        lemma_first_at_none(s, c, from + 1);
    }
}

/// The first of its kind is found where it stands.
pub proof fn lemma_first_at_is(s: Seq<char>, c: char, from: int, at: int)
    requires
        0 <= from <= at <= s.len(),
        at < s.len() ==> s[at] == c,
        forall|i: int| from <= i < at ==> #[trigger] s[i] != c,
    ensures
        first_at(s, c, from) == at,
    decreases at - from,
{
    if from < at {
        lemma_first_at_is(s, c, from + 1, at);
    }
}

/// The one line of a text that ends with its only newline.
proof fn lemma_one_line(line: Seq<char>)
    requires
        is_line(line),
    ensures
        lines(line + seq!['\n']) == seq![line],
{
    let s = line + seq!['\n'];
    lemma_first_at_is(s, '\n', 0, line.len() as int);
    assert(s.subrange(0, line.len() as int) =~= line);
    if line.len() > 0 {
        assert(s[line.len() - 1] == line.last());
    }
    assert(lines_from(s, s.len() as int) =~= Seq::empty());
    assert(seq![line] + Seq::empty() =~= seq![line]);
}

/// The lines of a text are those that it is made of, however many there are and
/// whatever they hold.
pub proof fn law_lines_of_text(all: Seq<Seq<char>>)
    requires
        are_lines(all),
    ensures
        lines(text_of(all)) == all,
    decreases all.len(),
{
    if all.len() > 0 {
        let before = all.drop_last();
        assert forall|i: int| 0 <= i < before.len() implies is_line(#[trigger] before[i]) by {
            assert(before[i] == all[i]);
        }
        assert(is_line(all[all.len() - 1]));
        law_lines_of_text(before);
        lemma_text_ends_a_line(before);
        lemma_one_line(all.last());
        law_lines_append(text_of(before), all.last() + seq!['\n']);
        assert(text_of(all) =~= text_of(before) + (all.last() + seq!['\n']));
        assert(before + seq![all.last()] =~= all);
    }
}

/// What follows the last newline is a line as well, and is kept as it is.
pub proof fn law_last_line_needs_no_newline(all: Seq<Seq<char>>, last: Seq<char>)
    requires
        are_lines(all),
        last.len() > 0,
        forall|i: int| 0 <= i < last.len() ==> #[trigger] last[i] != '\n',
    ensures
        lines(text_of(all) + last) == all.push(last),
{
    law_lines_of_text(all);
    lemma_text_ends_a_line(all);
    law_lines_append(text_of(all), last);
    lemma_first_at_none(last, '\n', 0);
    assert(last.subrange(0, last.len() as int) =~= last);
    assert(lines_from(last, last.len() as int + 1) =~= Seq::empty());
    assert(lines(last) =~= seq![last]);
    assert(all + seq![last] =~= all.push(last));
}

/// A carriage return in front of a newline belongs to the end of the line.
pub proof fn law_carriage_return_ends_a_line(all: Seq<Seq<char>>, line: Seq<char>, rest: Seq<char>)
    requires
        are_lines(all),
        is_line(line),
    ensures
        lines(text_of(all) + line + seq!['\r', '\n'] + rest) == lines(
            text_of(all) + line + seq!['\n'] + rest,
        ),
{
    let x = text_of(all);
    let crlf = line + seq!['\r', '\n'];
    let lf = line + seq!['\n'];
    lemma_text_ends_a_line(all);
    lemma_one_line(line);
    lemma_first_at_is(crlf, '\n', 0, line.len() as int + 1);
    assert(crlf.subrange(0, line.len() as int) =~= line);
    assert(crlf[line.len() as int] == '\r');
    assert(lines_from(crlf, crlf.len() as int) =~= Seq::empty());
    assert(lines(crlf) =~= seq![line]);
    assert(crlf.last() == '\n' && lf.last() == '\n');
    assert((x + crlf).last() == '\n' && (x + lf).last() == '\n');
    law_lines_append(x, crlf);
    law_lines_append(x, lf);
    law_lines_append(x + crlf, rest);
    law_lines_append(x + lf, rest);
    assert(x + line + seq!['\r', '\n'] + rest =~= (x + crlf) + rest);
    assert(x + line + seq!['\n'] + rest =~= (x + lf) + rest);
}

/// White space at the back does not hinder the front from being trimmed.
proof fn lemma_trim_front_push(s: Seq<char>, c: char)
    requires
        is_white(c),
    ensures
        trim_back(trim_front(s.push(c))) == trim_back(trim_front(s)),
    decreases s.len(),
{
    if s.len() == 0 {
        assert(s.push(c).subrange(1, 1) =~= s);
    } else if is_white(s[0]) {
        let rest = s.subrange(1, s.len() as int);
        assert(s.push(c).subrange(1, s.len() as int + 1) =~= rest.push(c));
        lemma_trim_front_push(rest, c);
    } else {
        assert(s.push(c).subrange(0, s.len() as int) =~= s);
    }
}

/// White space at either end makes no difference to what is left after trimming;
/// what has none at its ends is left as it is.
pub proof fn law_trim_drops_white_ends_only(s: Seq<char>, c: char)
    requires
        is_white(c),
    ensures
        trim(seq![c] + s) == trim(s),
        trim(s.push(c)) == trim(s),
        s.len() == 0 || (!is_white(s[0]) && !is_white(s.last())) ==> trim(s) == s,
{
    assert((seq![c] + s).subrange(1, s.len() as int + 1) =~= s);
    lemma_trim_front_push(s, c);
}

/// A unit at the end is stripped, however often it stands there; what ends
/// otherwise is left as it is.
pub proof fn law_units_are_stripped(s: Seq<char>)
    ensures
        strip_kb(s + "kB"@) == strip_kb(s),
        !(s.len() >= 2 && s.subrange(s.len() - 2, s.len() as int) == "kB"@) ==> strip_kb(s) == s,
{
    reveal_strlit("kB");
    let t = s + "kB"@;
    assert(t.subrange(0, t.len() - 2) =~= s);
    if s.len() >= 2 && s[s.len() - 2] == 'k' && s[s.len() - 1] == 'B' {
        assert(s.subrange(s.len() - 2, s.len() as int) =~= "kB"@);
    }
}

} // verus!
