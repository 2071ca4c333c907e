//! The names of shared objects: a content hash over a sparse sample, and the
//! paths that are built from it.

use std::collections::hash_map::DefaultHasher;
use std::hash::Hasher;
use vstd::prelude::*;
use vstd::slice::slice_subrange;
use vstd::std_specs::hash::DefaultHasherAdditionalSpecFns;

use crate::number::{push_decimal, push_hex};
use crate::text::{chars_of, find_from};

verus! {

use crate::number::{
    decimal, face_value, hex, is_written_digit, law_decimal_is_injective, law_decimal_is_read_back,
    law_hex_digits_have_their_place, law_hex_is_injective, lemma_decimal_digits, lemma_hex_digits,
    number,
};

/// The bytes of `n`, the least significant one first.
pub open spec fn little_endian(n: usize) -> Seq<u8> {
    Seq::new(
        (usize::BITS / 8) as nat,
        |i: int| ((n as int / vstd::arithmetic::power::pow(256, i as nat)) % 256) as u8,
    )
}

/// The bytes of `n` in memory.
pub open spec fn native_bytes(n: usize) -> Seq<u8> {
    match vstd::endian::endianness() {
        vstd::endian::Endian::Little => little_endian(n),
        vstd::endian::Endian::Big => little_endian(n).reverse(),
    }
}

/// Calls `usize::to_ne_bytes`. What is taken on trust is what it is documented
/// to return: the memory representation of the number, in the byte order of the
/// machine.
#[verifier::external_body]
fn usize_bytes(n: usize) -> (r: Vec<u8>)
    ensures
        r@ == native_bytes(n),
{
    n.to_ne_bytes().to_vec()
}

/// How far apart the sampled lines of a hash are.
pub const STRIDE: usize = 4096;

/// How long a sampled line is.
pub const LINE: usize = 64;

/// The sampled line at `from`.
pub open spec fn sample_line(bytes: Seq<u8>, from: int) -> Seq<u8> {
    bytes.subrange(from, if from + LINE < bytes.len() { from + LINE } else { bytes.len() as int })
}

/// How many lines are sampled of `len` bytes.
pub open spec fn sample_count(len: nat) -> nat {
    ((len + STRIDE - 1) / STRIDE as int) as nat
}

/// What is hashed of an array: its length, then one line of 64 bytes in every
/// 64.
pub open spec fn sample(bytes: Seq<u8>) -> Seq<Seq<u8>> {
    seq![native_bytes(bytes.len() as usize)] + Seq::new(
        sample_count(bytes.len()),
        |k: int| sample_line(bytes, k * STRIDE),
    )
}

/// The content hash of an array.
pub open spec fn hash_of(bytes: Seq<u8>) -> u64 {
    DefaultHasher::spec_finish(sample(bytes))
}

/// Deterministic content hash used only to name the object, over a sparse
/// sample (one 64-byte line in every 64). Correctness never rests on the name,
/// since every byte is compared before an object is used.
pub fn content_hash(bytes: &[u8]) -> (r: u64)
    ensures
        r == hash_of(bytes@),
{
    let mut h = DefaultHasher::new();
    h.write(usize_bytes(bytes.len()).as_slice());
    let len = bytes.len();
    let mut from: usize = 0;
    let ghost mut k: int = 0;
    assert(h@ =~= sample(bytes@).take(1));
    while from < len
        invariant
            len == bytes@.len(),
            0 <= k,
            from == k * STRIDE || (from == len && (k - 1) * STRIDE < len <= k * STRIDE),
            k <= sample_count(bytes@.len()),
            from == len ==> k == sample_count(bytes@.len()),
            h@ == sample(bytes@).take(k + 1),
        decreases len - from,
    {
        let to = if len - from > LINE {
            from + LINE
        } else {
            len
        };
        let line = slice_subrange(bytes, from, to);
        h.write(line);
        proof {
            assert(k < sample_count(bytes@.len()));
            assert(line@ =~= sample_line(bytes@, k * STRIDE));
            assert(sample(bytes@).take(k + 1).push(line@) =~= sample(bytes@).take(k + 2));
            k = k + 1;
        }
        from = if len - from > STRIDE {
            from + STRIDE
        } else {
            len
        };
    }
    assert(sample(bytes@).take(k + 1) =~= sample(bytes@));
    h.finish()
}

/// The content hash depends on the length and on the sampled lines only: arrays
/// that differ elsewhere alone have the same hash.
pub proof fn law_hash_depends_on_sample_only(a: Seq<u8>, b: Seq<u8>)
    requires
        a.len() == b.len(),
        forall|i: int| 0 <= i < a.len() && i % 4096 < 64 ==> #[trigger] a[i] == b[i],
    ensures
        hash_of(a) == hash_of(b),
{
    assert forall|k: int| 0 <= k < sample_count(a.len()) implies #[trigger] sample_line(
        a,
        k * STRIDE,
    ) == sample_line(b, k * STRIDE) by {
        let from = k * STRIDE;
        assert forall|i: int| 0 <= i < sample_line(a, from).len() implies sample_line(a, from)[i]
            == sample_line(b, from)[i] by {
            assert((from + i) % 4096 < 64);
            assert(a[from + i] == b[from + i]);
        }
        assert(sample_line(a, from) =~= sample_line(b, from));
    }
    assert(sample(a) =~= sample(b));
}

/// The directory of the shared objects.
pub const DIRECTORY: &'static str = "/dev/shm/";

/// What the name of every shared object begins with.
pub const PREFIX: &'static str = "coda-w1-";

/// The path of the object that shares an array of `len` bytes with the given
/// content hash. `tag` separates the different arrays of one net.
pub open spec fn object_path(tag: Seq<char>, hash: u64, len: nat) -> Seq<char> {
    DIRECTORY@ + PREFIX@ + tag + "-"@ + hex(hash as nat, 16) + "-"@ + decimal(len)
}

/// The path under which an object is prepared before it is published.
pub open spec fn temporary_path(path: Seq<char>, pid: u32) -> Seq<char> {
    path + ".tmp"@ + decimal(pid as nat)
}

/// Whether `s` holds a NUL, which no path can.
pub open spec fn has_nul(s: Seq<char>) -> bool {
    exists|i: int| 0 <= i < s.len() && #[trigger] s[i] == '\0'
}

/// Whether a string holds a NUL.
pub fn contains_nul(s: &str) -> (r: bool)
    ensures
        r == has_nul(s@),
{
    let chars = chars_of(s);
    let at = find_from(chars.as_slice(), '\0', 0);
    if at < chars.len() {
        assert(s@[at as int] == '\0');
        true
    } else {
        false
    }
}

/// Builds the path of a shared object.
pub fn object_name(tag: &str, hash: u64, len: usize) -> (r: String)
    ensures
        r@ == object_path(tag@, hash, len as nat),
{
    let mut r = DIRECTORY.to_owned();
    r.append(PREFIX);
    r.append(tag);
    r.append("-");
    push_hex(&mut r, hash, 16);
    r.append("-");
    push_decimal(&mut r, len as u64);
    r
}

/// Builds the path under which an object is prepared.
pub fn temporary_name(path: &str, pid: u32) -> (r: String)
    ensures
        r@ == temporary_path(path@, pid),
{
    let mut r = path.to_owned();
    r.append(".tmp");
    push_decimal(&mut r, pid as u64);
    r
}

/// A path is fit for the system exactly where the tag is.
pub proof fn lemma_path_nul(tag: Seq<char>, hash: u64, len: nat)
    ensures
        has_nul(object_path(tag, hash, len)) == has_nul(tag),
{
    reveal_strlit("/dev/shm/");
    reveal_strlit("coda-w1-");
    reveal_strlit("-");
    lemma_hex_digits(hash as nat, 16);
    lemma_decimal_digits(len);
    let front = DIRECTORY@ + PREFIX@;
    let back = "-"@ + hex(hash as nat, 16) + "-"@ + decimal(len);
    let path = object_path(tag, hash, len);
    assert(path =~= front + tag + back);
    assert forall|i: int| 0 <= i < front.len() implies #[trigger] front[i] != '\0' by {}
    assert forall|i: int| 0 <= i < back.len() implies #[trigger] back[i] != '\0' by {}
    if has_nul(tag) {
        let i = choose|i: int| 0 <= i < tag.len() && #[trigger] tag[i] == '\0';
        assert(path[front.len() + i] == '\0');
    }
    if has_nul(path) {
        let i = choose|i: int| 0 <= i < path.len() && #[trigger] path[i] == '\0';
        if i < front.len() {
            assert(front[i] == path[i]);
        } else if i < front.len() + tag.len() {
            assert(tag[i - front.len()] == '\0');
        } else {
            assert(back[i - front.len() - tag.len()] == path[i]);
        }
    }
}

/// A temporary path is fit for the system where the path of its object is.
pub proof fn lemma_temporary_nul(path: Seq<char>, pid: u32)
    ensures
        has_nul(temporary_path(path, pid)) == has_nul(path),
{
    reveal_strlit(".tmp");
    lemma_decimal_digits(pid as nat);
    let back = ".tmp"@ + decimal(pid as nat);
    let whole = temporary_path(path, pid);
    assert(whole =~= path + back);
    assert forall|i: int| 0 <= i < back.len() implies #[trigger] back[i] != '\0' by {}
    if has_nul(path) {
        let i = choose|i: int| 0 <= i < path.len() && #[trigger] path[i] == '\0';
        assert(whole[i] == '\0');
    }
    if has_nul(whole) {
        let i = choose|i: int| 0 <= i < whole.len() && #[trigger] whole[i] == '\0';
        if i < path.len() {
            assert(path[i] == '\0');
        } else {
            assert(back[i - path.len()] == whole[i]);
        }
    }
}

/// The position of the last dash splits a text only one way.
proof fn lemma_split_at_last_dash(a: Seq<char>, x: Seq<char>, b: Seq<char>, y: Seq<char>)
    requires
        a + "-"@ + x == b + "-"@ + y,
        forall|i: int| 0 <= i < x.len() ==> is_written_digit(#[trigger] x[i]),
        forall|i: int| 0 <= i < y.len() ==> is_written_digit(#[trigger] y[i]),
    ensures
        a == b,
        x == y,
{
    reveal_strlit("-");
    let s = a + "-"@ + x;
    let t = b + "-"@ + y;
    assert(s.len() == a.len() + 1 + x.len());
    assert(t.len() == b.len() + 1 + y.len());
    assert(s[a.len() as int] == '-');
    assert(t[b.len() as int] == '-');
    if a.len() < b.len() {
        let k = b.len() - a.len() - 1;
        assert(s[a.len() + 1 + k] == x[k]);
    } else if b.len() < a.len() {
        let k = a.len() - b.len() - 1;
        assert(t[b.len() + 1 + k] == y[k]);
    }
    assert(a =~= s.subrange(0, a.len() as int));
    assert(b =~= t.subrange(0, b.len() as int));
    assert(x =~= s.subrange(a.len() as int + 1, s.len() as int));
    assert(y =~= t.subrange(b.len() as int + 1, t.len() as int));
}

/// Two arrays share an object name only where their tags, their content hashes
/// and their lengths are the same.
pub proof fn law_object_path_is_injective(
    tag1: Seq<char>,
    hash1: u64,
    len1: nat,
    tag2: Seq<char>,
    hash2: u64,
    len2: nat,
)
    requires
        object_path(tag1, hash1, len1) == object_path(tag2, hash2, len2),
    ensures
        tag1 == tag2,
        hash1 == hash2,
        len1 == len2,
{
    lemma_hex_digits(hash1 as nat, 16);
    lemma_hex_digits(hash2 as nat, 16);
    lemma_decimal_digits(len1);
    lemma_decimal_digits(len2);
    let front = DIRECTORY@ + PREFIX@;
    let a = front + tag1;
    let b = front + tag2;
    let h1 = hex(hash1 as nat, 16);
    let h2 = hex(hash2 as nat, 16);
    lemma_split_at_last_dash(a + "-"@ + h1, decimal(len1), b + "-"@ + h2, decimal(len2));
    lemma_split_at_last_dash(a, h1, b, h2);
    law_decimal_is_injective(len1, len2);
    law_hex_is_injective(hash1, hash2);
    assert(tag1 =~= a.subrange(front.len() as int, a.len() as int));
    assert(tag2 =~= b.subrange(front.len() as int, b.len() as int));
}

/// The number that has the given digits in base 256 is only one.
proof fn lemma_bytes_are_injective(n: nat, m: nat, width: nat)
    requires
        n < vstd::arithmetic::power::pow(256, width),
        m < vstd::arithmetic::power::pow(256, width),
        forall|i: int|
            0 <= i < width ==> (n as int / #[trigger] vstd::arithmetic::power::pow(256, i as nat))
                % 256 == (m as int / vstd::arithmetic::power::pow(256, i as nat)) % 256,
    ensures
        n == m,
    decreases width,
{
    reveal(vstd::arithmetic::power::pow);
    vstd::arithmetic::power::lemma_pow0(256);
    if width > 0 {
        let zero: int = 0;
        assert((n as int / vstd::arithmetic::power::pow(256, zero as nat)) % 256 == (m as int
            / vstd::arithmetic::power::pow(256, zero as nat)) % 256);
        assert(n as int / 1 == n && m as int / 1 == m);
        assert forall|i: int| 0 <= i < width - 1 implies ((n / 256) as int
            / #[trigger] vstd::arithmetic::power::pow(256, i as nat)) % 256 == ((m / 256) as int
            / vstd::arithmetic::power::pow(256, i as nat)) % 256 by {
            let p = vstd::arithmetic::power::pow(256, i as nat);
            let q = vstd::arithmetic::power::pow(256, (i + 1) as nat);
            vstd::arithmetic::power::lemma_pow_positive(256, i as nat);
            assert(q == 256 * p);
            vstd::arithmetic::div_mod::lemma_div_denominator(n as int, 256, p);
            vstd::arithmetic::div_mod::lemma_div_denominator(m as int, 256, p);
            assert((n as int / q) % 256 == (m as int / q) % 256);
        }
        assert(vstd::arithmetic::power::pow(256, width) == 256 * vstd::arithmetic::power::pow(
            256,
            (width - 1) as nat,
        ));
        lemma_bytes_are_injective(n / 256, m / 256, (width - 1) as nat);
    }
}

/// Different lengths have different bytes.
proof fn lemma_native_bytes_are_injective(n: usize, m: usize)
    requires
        native_bytes(n) == native_bytes(m),
    ensures
        n == m,
{
    let a = little_endian(n);
    let b = little_endian(m);
    assert(a =~= a.reverse().reverse());
    assert(b =~= b.reverse().reverse());
    assert(a == b);
    let width = (usize::BITS / 8) as nat;
    assert(width == 4 || width == 8);
    assert(vstd::arithmetic::power::pow(256, 4) == 0x1_0000_0000) by {
        reveal_with_fuel(vstd::arithmetic::power::pow, 5);
    }
    assert(vstd::arithmetic::power::pow(256, 8) == 0x1_0000_0000_0000_0000) by {
        reveal_with_fuel(vstd::arithmetic::power::pow, 9);
    }
    assert forall|i: int| 0 <= i < width implies (n as int
        / #[trigger] vstd::arithmetic::power::pow(256, i as nat)) % 256 == (m as int
        / vstd::arithmetic::power::pow(256, i as nat)) % 256 by {
        assert(a[i] == b[i]);
    }
    lemma_bytes_are_injective(n as nat, m as nat, width);
}

/// What is hashed of an array is its length and, in order, the first 64 bytes of
/// every 4096, however long it is. It tells arrays apart that differ in their length
/// or in one of these bytes, and no others.
pub proof fn law_hash_is_of_length_and_sample(a: Seq<u8>, b: Seq<u8>)
    requires
        a.len() <= usize::MAX,
        b.len() <= usize::MAX,
    ensures
        hash_of(a) == DefaultHasher::spec_finish(sample(a)),
        sample(a).len() == 1 + (a.len() + 4095) / 4096,
        sample(a)[0] == native_bytes(a.len() as usize),
        forall|k: int|
            0 <= k && 4096 * k < a.len() ==> #[trigger] sample(a)[k + 1] == a.subrange(
                4096 * k,
                if 4096 * k + 64 < a.len() {
                    4096 * k + 64
                } else {
                    a.len() as int
                },
            ),
        sample(a) == sample(b) <==> a.len() == b.len() && (forall|i: int|
            0 <= i < a.len() && i % 4096 < 64 ==> #[trigger] a[i] == b[i]),
{
    if sample(a) == sample(b) {
        assert(sample(a)[0] == native_bytes(a.len() as usize));
        assert(sample(b)[0] == native_bytes(b.len() as usize));
        lemma_native_bytes_are_injective(a.len() as usize, b.len() as usize);
        assert forall|i: int| 0 <= i < a.len() && i % 4096 < 64 implies #[trigger] a[i] == b[i] by {
            let k = i / 4096;
            let j = i % 4096;
            assert(i == k * 4096 + j);
            assert(k < sample_count(a.len()));
            assert(sample(a)[k + 1] == sample_line(a, k * STRIDE));
            assert(sample(b)[k + 1] == sample_line(b, k * STRIDE));
            assert(sample_line(a, k * STRIDE)[j] == a[i]);
            assert(sample_line(b, k * STRIDE)[j] == b[i]);
        }
    }
    if a.len() == b.len() && (forall|i: int|
        0 <= i < a.len() && i % 4096 < 64 ==> #[trigger] a[i] == b[i]) {
        assert forall|k: int| 0 <= k < sample_count(a.len()) implies #[trigger] sample_line(
            a,
            k * STRIDE,
        ) == sample_line(b, k * STRIDE) by {
            let from = k * STRIDE;
            assert forall|i: int|
                0 <= i < sample_line(a, from).len() implies sample_line(a, from)[i] == sample_line(
                b,
                from,
            )[i] by {
                assert((from + i) % 4096 < 64);
                assert(a[from + i] == b[from + i]);
            }
            assert(sample_line(a, from) =~= sample_line(b, from));
        }
        assert(sample(a) =~= sample(b));
    }
}

/// The path of an object lies in the directory of shared memory, under the common
/// prefix, and gives the tag, the hash in sixteen hexadecimal digits and the length
/// in decimal, which can be read back from it.
pub proof fn law_object_path_tells_the_array(tag: Seq<char>, hash: u64, len: nat)
    ensures
        ({
            let path = object_path(tag, hash, len);
            let t = tag.len() as int;
            &&& path.len() > 35 + t
            &&& path.take(17) == "/dev/shm/coda-w1-"@
            &&& path.subrange(17, 17 + t) == tag
            &&& path[17 + t] == '-'
            &&& forall|i: int|
                0 <= i < 16 ==> face_value(#[trigger] path[33 + t - i]) == (hash as int
                    / vstd::arithmetic::power::pow(16, i as nat)) % 16
            &&& path[34 + t] == '-'
            &&& len <= usize::MAX ==> number(path.skip(35 + t), 10) == Some(len as usize)
        }),
{
    reveal_strlit("/dev/shm/");
    reveal_strlit("coda-w1-");
    reveal_strlit("/dev/shm/coda-w1-");
    reveal_strlit("-");
    lemma_hex_digits(hash as nat, 16);
    law_decimal_is_read_back(len);
    let path = object_path(tag, hash, len);
    let h = hex(hash as nat, 16);
    let t = tag.len() as int;
    assert(path.take(17) =~= "/dev/shm/coda-w1-"@);
    assert(path.subrange(17, 17 + t) =~= tag);
    assert(path.skip(35 + t) =~= decimal(len));
    assert forall|i: int| 0 <= i < 16 implies face_value(#[trigger] path[33 + t - i]) == (
    hash as int / vstd::arithmetic::power::pow(16, i as nat)) % 16 by {
        law_hex_digits_have_their_place(hash as nat, 16, i);
        assert(path[33 + t - i] == h[15 - i]);
    }
}

/// The path under which an object is prepared is the object's own, with the number
/// of the process behind it, which can be read back from it.
pub proof fn law_temporary_path_tells_the_process(path: Seq<char>, pid: u32)
    ensures
        temporary_path(path, pid).len() > path.len() + 4,
        temporary_path(path, pid).take(path.len() as int) == path,
        temporary_path(path, pid).subrange(path.len() as int, path.len() as int + 4) == ".tmp"@,
        number(temporary_path(path, pid).skip(path.len() as int + 4), 10) == Some(pid as usize),
        forall|i: int|
            path.len() + 4 <= i < temporary_path(path, pid).len() ==> '0'
                <= #[trigger] temporary_path(path, pid)[i] <= '9',
{
    reveal_strlit(".tmp");
    law_decimal_is_read_back(pid as nat);
    let whole = temporary_path(path, pid);
    let d = decimal(pid as nat);
    assert(whole.take(path.len() as int) =~= path);
    assert(whole.subrange(path.len() as int, path.len() as int + 4) =~= ".tmp"@);
    assert(whole.skip(path.len() as int + 4) =~= d);
    assert forall|i: int| path.len() + 4 <= i < whole.len() implies '0' <= #[trigger] whole[i]
        <= '9' by {
        assert(whole[i] == d[i - path.len() - 4]);
    }
}

/// No two processes prepare an object under the same path, and no process prepares
/// two objects under the same path.
pub proof fn law_temporary_path_is_injective(
    path1: Seq<char>,
    pid1: u32,
    path2: Seq<char>,
    pid2: u32,
)
    requires
        temporary_path(path1, pid1) == temporary_path(path2, pid2),
    ensures
        path1 == path2,
        pid1 == pid2,
{
    reveal_strlit(".tmp");
    law_temporary_path_tells_the_process(path1, pid1);
    law_temporary_path_tells_the_process(path2, pid2);
    let whole = temporary_path(path1, pid1);
    let n1 = path1.len() as int;
    let n2 = path2.len() as int;
    assert(whole[n1 + 3] == 'p') by {
        assert(whole.subrange(n1, n1 + 4)[3] == 'p');
    }
    assert(whole[n2 + 3] == 'p') by {
        assert(whole.subrange(n2, n2 + 4)[3] == 'p');
    }
    assert(n1 == n2);
}

} // verus!
