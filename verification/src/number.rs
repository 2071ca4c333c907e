//! Numbers read from text and written as text.

use vstd::prelude::*;
use vstd::slice::slice_subrange;

verus! {

/// The value of `c` as a digit in the given base, which is 10 or 16.
pub open spec fn digit_value(c: char, radix: nat) -> Option<nat> {
    if '0' <= c <= '9' {
        Some((c as int - '0' as int) as nat)
    } else if radix == 16 && 'a' <= c <= 'f' {
        Some((c as int - 'a' as int + 10) as nat)
    } else if radix == 16 && 'A' <= c <= 'F' {
        Some((c as int - 'A' as int + 10) as nat)
    } else {
        None
    }
}

/// Whether every character of `s` is a digit.
pub open spec fn all_digits(s: Seq<char>, radix: nat) -> bool {
    forall|i: int| 0 <= i < s.len() ==> (#[trigger] digit_value(s[i], radix)) is Some
}

/// The number that a run of digits stands for, most significant digit first.
pub open spec fn value_of(s: Seq<char>, radix: nat) -> nat
    decreases s.len(),
{
    if s.len() == 0 {
        0
    } else {
        value_of(s.drop_last(), radix) * radix + digit_value(s.last(), radix).unwrap_or(0)
    }
}

/// The number that `s` spells: one or more digits, with one plus sign allowed
/// in front, of a value that `usize` can hold.
pub open spec fn number(s: Seq<char>, radix: nat) -> Option<usize> {
    let digits = if s.len() > 0 && s[0] == '+' {
        s.subrange(1, s.len() as int)
    } else {
        s
    };
    if digits.len() > 0 && all_digits(digits, radix) && value_of(digits, radix) <= usize::MAX {
        Some(value_of(digits, radix) as usize)
    } else {
        None
    }
}

/// More digits make no number smaller.
proof fn lemma_value_grows(s: Seq<char>, radix: nat, n: int)
    requires
        0 <= n <= s.len(),
        radix >= 1,
    ensures
        value_of(s.take(n), radix) <= value_of(s, radix),
    decreases s.len(),
{
    if n == s.len() {
        assert(s.take(n) =~= s);
    } else {
        lemma_value_grows(s.drop_last(), radix, n);
        assert(s.drop_last().take(n) =~= s.take(n));
        let v = value_of(s.drop_last(), radix);
        assert(v <= v * radix) by (nonlinear_arith)
            requires
                radix >= 1,
        ;
    }
}

/// The digit that `c` is.
fn digit(c: char, radix: usize) -> (r: Option<usize>)
    ensures
        r is Some == digit_value(c, radix as nat) is Some,
        r matches Some(d) ==> digit_value(c, radix as nat) == Some(d as nat) && d < 16,
{
    if '0' <= c && c <= '9' {
        Some((c as u32 - '0' as u32) as usize)
    } else if radix == 16 && 'a' <= c && c <= 'f' {
        Some((c as u32 - 'a' as u32 + 10) as usize)
    } else if radix == 16 && 'A' <= c && c <= 'F' {
        Some((c as u32 - 'A' as u32 + 10) as usize)
    } else {
        None
    }
}

/// Reads a number in base 10 or 16.
pub fn parse_number(s: &[char], radix: usize) -> (r: Option<usize>)
    requires
        radix == 10 || radix == 16,
    ensures
        r == number(s@, radix as nat),
{
    let digits = if s.len() > 0 && s[0] == '+' {
        slice_subrange(s, 1, s.len())
    } else {
        s
    };
    if digits.len() == 0 {
        return None;
    }
    let mut value: usize = 0;
    let mut i: usize = 0;
    while i < digits.len()
        invariant
            radix == 10 || radix == 16,
            i <= digits@.len(),
            all_digits(digits@.take(i as int), radix as nat),
            value == value_of(digits@.take(i as int), radix as nat),
            digits@ == if s@.len() > 0 && s@[0] == '+' {
                s@.subrange(1, s@.len() as int)
            } else {
                s@
            },
        decreases digits@.len() - i,
    {
        let ghost next = digits@.take(i + 1);
        proof {
            assert(next.drop_last() =~= digits@.take(i as int));
            assert(next.last() == digits@[i as int]);
            lemma_value_grows(digits@, radix as nat, i + 1);
        }
        match digit(digits[i], radix) {
            None => {
                assert(digit_value(digits@[i as int], radix as nat) is None);
                return None;
            },
            Some(d) => {
                match value.checked_mul(radix) {
                    None => {
                        return None;
                    },
                    Some(shifted) => {
                        match shifted.checked_add(d) {
                            None => {
                                return None;
                            },
                            Some(sum) => {
                                value = sum;
                            },
                        }
                    },
                }
                assert forall|k: int| 0 <= k < next.len() implies (#[trigger] digit_value(
                    next[k],
                    radix as nat,
                )) is Some by {
                    if k < i {
                        assert(next[k] == digits@.take(i as int)[k]);
                    }
                }
            },
        }
        i = i + 1;
    }
    assert(digits@.take(i as int) =~= digits@);
    Some(value)
}

/// The character of a hexadecimal digit, letters in lower case.
pub open spec fn digit_char(d: nat) -> char {
    if d < 10 {
        ('0' as int + d) as char
    } else {
        ('a' as int + (d - 10)) as char
    }
}

/// Appends a hexadecimal digit to a string.
fn push_digit(out: &mut String, d: u64)
    requires
        d < 16,
    ensures
        final(out)@ == old(out)@.push(digit_char(d as nat)),
{
    proof {
        reveal_strlit("0");
        reveal_strlit("1");
        reveal_strlit("2");
        reveal_strlit("3");
        reveal_strlit("4");
        reveal_strlit("5");
        reveal_strlit("6");
        reveal_strlit("7");
        reveal_strlit("8");
        reveal_strlit("9");
        reveal_strlit("a");
        reveal_strlit("b");
        reveal_strlit("c");
        reveal_strlit("d");
        reveal_strlit("e");
        reveal_strlit("f");
    }
    let ghost before = out@;
    let one = match d {
        0 => "0",
        1 => "1",
        2 => "2",
        3 => "3",
        4 => "4",
        5 => "5",
        6 => "6",
        7 => "7",
        8 => "8",
        9 => "9",
        10 => "a",
        11 => "b",
        12 => "c",
        13 => "d",
        14 => "e",
        _ => "f",
    };
    out.append(one);
    assert(one@ =~= seq![digit_char(d as nat)]);
    assert(before + one@ =~= before.push(digit_char(d as nat)));
}

/// A number in base 10, without leading zeros.
pub open spec fn decimal(n: nat) -> Seq<char>
    decreases n,
{
    if n < 10 {
        seq![digit_char(n)]
    } else {
        decimal(n / 10).push(digit_char(n % 10))
    }
}

/// A number in base 10, with a minus sign where it is negative.
pub open spec fn signed_decimal(i: int) -> Seq<char> {
    if i < 0 {
        seq!['-'] + decimal((-i) as nat)
    } else {
        decimal(i as nat)
    }
}

/// A number in base 16, with exactly `width` digits.
pub open spec fn hex(n: nat, width: nat) -> Seq<char>
    decreases width,
{
    if width == 0 {
        Seq::empty()
    } else {
        hex(n / 16, (width - 1) as nat).push(digit_char(n % 16))
    }
}

/// Appends a number in base 10.
pub fn push_decimal(out: &mut String, n: u64)
    ensures
        final(out)@ == old(out)@ + decimal(n as nat),
    decreases n,
{
    let ghost before = out@;
    if n < 10 {
        push_digit(out, n);
        assert(before.push(digit_char(n as nat)) =~= before + decimal(n as nat));
    } else {
        push_decimal(out, n / 10);
        push_digit(out, n % 10);
        assert((before + decimal(n as nat / 10)).push(digit_char(n as nat % 10)) =~= before
            + decimal(n as nat));
    }
}

/// Appends a number in base 10 that may be negative.
pub fn push_signed(out: &mut String, i: i64)
    ensures
        final(out)@ == old(out)@ + signed_decimal(i as int),
{
    let ghost before = out@;
    if i < 0 {
        proof {
            reveal_strlit("-");
        }
        out.append("-");
        let magnitude: u64 = (-(i + 1)) as u64 + 1;
        push_decimal(out, magnitude);
        assert(before + "-"@ + decimal(magnitude as nat) =~= before + signed_decimal(i as int)) by {
            assert("-"@ =~= seq!['-']);
        }
    } else {
        push_decimal(out, i as u64);
    }
}

/// Appends a number in base 16 with exactly `width` digits.
pub fn push_hex(out: &mut String, n: u64, width: usize)
    ensures
        final(out)@ == old(out)@ + hex(n as nat, width as nat),
    decreases width,
{
    let ghost before = out@;
    if width == 0 {
        assert(before + hex(n as nat, 0) =~= before);
    } else {
        push_hex(out, n / 16, width - 1);
        push_digit(out, n % 16);
        assert((before + hex(n as nat / 16, (width - 1) as nat)).push(digit_char(n as nat % 16))
            =~= before + hex(n as nat, width as nat));
    }
}

/// Whether `c` is a digit as numbers are written here.
pub open spec fn is_written_digit(c: char) -> bool {
    '0' <= c <= '9' || 'a' <= c <= 'f'
}

/// Different digits are different characters, and all are digits.
proof fn lemma_digit_char(a: nat, b: nat)
    requires
        a < 16,
        b < 16,
    ensures
        is_written_digit(digit_char(a)),
        digit_char(a) == digit_char(b) ==> a == b,
{
}

/// A number in base 10 is one or more digits.
pub proof fn lemma_decimal_digits(n: nat)
    ensures
        decimal(n).len() > 0,
        forall|i: int| 0 <= i < decimal(n).len() ==> is_written_digit(#[trigger] decimal(n)[i]),
    decreases n,
{
    if n < 10 {
        lemma_digit_char(n, n);
    } else {
        lemma_decimal_digits(n / 10);
        lemma_digit_char(n % 10, n % 10);
    }
}

/// A number in base 16 has the given width, in digits.
pub proof fn lemma_hex_digits(n: nat, width: nat)
    ensures
        hex(n, width).len() == width,
        forall|i: int| 0 <= i < width ==> is_written_digit(#[trigger] hex(n, width)[i]),
    decreases width,
{
    if width > 0 {
        lemma_hex_digits(n / 16, (width - 1) as nat);
        lemma_digit_char(n % 16, n % 16);
    }
}

/// Different numbers are written differently in base 10.
pub proof fn law_decimal_is_injective(a: nat, b: nat)
    requires
        decimal(a) == decimal(b),
    ensures
        a == b,
    decreases a,
{
    lemma_decimal_digits(a / 10);
    lemma_decimal_digits(b / 10);
    lemma_digit_char(a % 10, b % 10);
    let x = decimal(a);
    let y = decimal(b);
    assert(x.last() == y.last());
    if a < 10 && b < 10 {
        lemma_digit_char(a, b);
    } else {
        assert(x.len() == y.len());
        if a >= 10 && b >= 10 {
            assert(x.drop_last() =~= decimal(a / 10));
            assert(y.drop_last() =~= decimal(b / 10));
            law_decimal_is_injective(a / 10, b / 10);
        }
    }
}

/// Different 64-bit numbers are written differently in sixteen hexadecimal
/// digits.
pub proof fn law_hex_is_injective(a: u64, b: u64)
    requires
        hex(a as nat, 16) == hex(b as nat, 16),
    ensures
        a == b,
{
    assert(vstd::arithmetic::power::pow(16, 16) == 0x1_0000_0000_0000_0000) by {
        reveal_with_fuel(vstd::arithmetic::power::pow, 17);
    }
    lemma_hex_is_injective(a as nat, b as nat, 16);
}

proof fn lemma_hex_is_injective(a: nat, b: nat, width: nat)
    requires
        hex(a, width) == hex(b, width),
        a < vstd::arithmetic::power::pow(16, width),
        b < vstd::arithmetic::power::pow(16, width),
    ensures
        a == b,
    decreases width,
{
    reveal(vstd::arithmetic::power::pow);
    if width > 0 {
        let x = hex(a, width);
        let y = hex(b, width);
        lemma_digit_char(a % 16, b % 16);
        assert(x.last() == y.last());
        assert(x.drop_last() =~= hex(a / 16, (width - 1) as nat));
        assert(y.drop_last() =~= hex(b / 16, (width - 1) as nat));
        assert(vstd::arithmetic::power::pow(16, width) == 16 * vstd::arithmetic::power::pow(
            16,
            (width - 1) as nat,
        ));
        lemma_hex_is_injective(a / 16, b / 16, (width - 1) as nat);
    }
}

/// What a character counts as a digit; sixteen where it is none.
pub open spec fn face_value(c: char) -> int {
    if '0' <= c <= '9' {
        c as int - 48
    } else if 'a' <= c <= 'f' {
        c as int - 97 + 10
    } else if 'A' <= c <= 'F' {
        c as int - 65 + 10
    } else {
        16
    }
}

/// One character is a number where it is a digit.
pub proof fn law_number_of_one_digit(c: char, radix: nat)
    requires
        radix == 10 || radix == 16,
    ensures
        number(Seq::empty(), radix) is None,
        face_value(c) < radix ==> number(seq![c], radix) == Some(face_value(c) as usize),
        face_value(c) >= radix ==> number(seq![c], radix) is None,
{
    let s = seq![c];
    if s[0] != '+' {
        assert(s.drop_last() =~= Seq::empty());
        assert(value_of(s.drop_last(), radix) == 0);
        assert(digit_value(s[0], radix) is Some <==> face_value(c) < radix);
        if face_value(c) < radix {
            assert(value_of(s, radix) == face_value(c)) by {
                assert(s.last() == c);
                assert(0 * radix == 0);
            }
        }
    }
}

/// One more character multiplies a number by the base and adds a digit, where it
/// is a digit and the result is within `usize`; no other text becomes a number by
/// what follows it.
pub proof fn law_number_of_more_digits(s: Seq<char>, c: char, radix: nat)
    requires
        radix == 10 || radix == 16,
        s.len() > 0,
        s != seq!['+'],
    ensures
        number(s, radix) matches Some(v) ==> if face_value(c) < radix && v * radix + face_value(c)
            <= usize::MAX {
            number(s.push(c), radix) == Some((v * radix + face_value(c)) as usize)
        } else {
            number(s.push(c), radix) is None
        },
        number(s, radix) is None ==> number(s.push(c), radix) is None,
{
    let t = s.push(c);
    let a = if s[0] == '+' {
        s.subrange(1, s.len() as int)
    } else {
        s
    };
    let b = if t[0] == '+' {
        t.subrange(1, t.len() as int)
    } else {
        t
    };
    if s[0] == '+' && s.len() == 1 {
        assert(s =~= seq!['+']);
    }
    assert(b =~= a.push(c));
    assert(b.drop_last() =~= a);
    assert(b.last() == c);
    assert(digit_value(c, radix) is Some <==> face_value(c) < radix);
    if all_digits(b, radix) {
        assert(digit_value(b[b.len() - 1], radix) is Some);
        assert forall|i: int| 0 <= i < a.len() implies (#[trigger] digit_value(a[i], radix)) is Some by {
            assert(digit_value(b[i], radix) is Some);
        }
    }
    if all_digits(a, radix) && face_value(c) < radix {
        assert forall|i: int| 0 <= i < b.len() implies (#[trigger] digit_value(b[i], radix)) is Some by {
            if i < a.len() {
                assert(digit_value(a[i], radix) is Some);
            }
        }
    }
    assert(b.take(a.len() as int) =~= a);
    lemma_value_grows(b, radix, a.len() as int);
}

/// One plus sign in front makes no difference to a number.
pub proof fn law_plus_sign_is_allowed(s: Seq<char>, radix: nat)
    requires
        radix == 10 || radix == 16,
    ensures
        s.len() > 0 && s[0] != '+' ==> number(seq!['+'] + s, radix) == number(s, radix),
        s.len() == 0 || s[0] == '+' ==> number(seq!['+'] + s, radix) is None,
{
    let t = seq!['+'] + s;
    assert(t.subrange(1, t.len() as int) =~= s);
    if s.len() > 0 && s[0] == '+' {
        assert(digit_value(s[0], radix) is None);
    }
}

/// What is written in base 10 is read back as the same number: it is made of the
/// digits `0` to `9`, and begins with a zero only where it is the zero.
pub proof fn law_decimal_is_read_back(n: nat)
    ensures
        forall|i: int| 0 <= i < decimal(n).len() ==> '0' <= #[trigger] decimal(n)[i] <= '9',
        decimal(n).len() > 0,
        decimal(n)[0] == '0' ==> n == 0 && decimal(n).len() == 1,
        n <= usize::MAX ==> number(decimal(n), 10) == Some(n as usize),
        n > usize::MAX ==> number(decimal(n), 10) is None,
    decreases n,
{
    let d = decimal(n);
    if n < 10 {
        assert(d =~= seq![digit_char(n)]);
        law_number_of_one_digit(digit_char(n), 10);
    } else {
        law_decimal_is_read_back(n / 10);
        let front = decimal(n / 10);
        let c = digit_char(n % 10);
        assert(front != seq!['+']) by {
            if front == seq!['+'] {
                assert(front[0] == '+');
            }
        }
        law_number_of_more_digits(front, c, 10);
        assert(d[0] == front[0]);
        assert(n / 10 * 10 + n % 10 == n);
    }
}

/// A digit in base 16 stands for its power of sixteen, the last one for the ones;
/// letters are in lower case.
pub proof fn law_hex_digits_have_their_place(n: nat, width: nat, i: int)
    requires
        0 <= i < width,
    ensures
        hex(n, width).len() == width,
        face_value(hex(n, width)[width - 1 - i]) == (n as int / vstd::arithmetic::power::pow(
            16,
            i as nat,
        )) % 16,
        '0' <= hex(n, width)[width - 1 - i] <= '9' || 'a' <= hex(n, width)[width - 1 - i] <= 'f',
    decreases width,
{
    let front = hex(n / 16, (width - 1) as nat);
    lemma_hex_digits(n, width);
    lemma_hex_digits(n / 16, (width - 1) as nat);
    if i == 0 {
        vstd::arithmetic::power::lemma_pow0(16);
        assert(n as int / 1 == n);
        assert(hex(n, width)[width - 1] == digit_char(n % 16));
        assert((n % 16) as int == n as int % 16);
    } else {
        law_hex_digits_have_their_place(n / 16, (width - 1) as nat, i - 1);
        assert(hex(n, width)[width - 1 - i] == front[width - 1 - i]);
        vstd::arithmetic::power::lemma_pow_positive(16, (i - 1) as nat);
        reveal(vstd::arithmetic::power::pow);
        assert(vstd::arithmetic::power::pow(16, i as nat) == 16 * vstd::arithmetic::power::pow(
            16,
            (i - 1) as nat,
        ));
        vstd::arithmetic::div_mod::lemma_div_denominator(
            n as int,
            16,
            vstd::arithmetic::power::pow(16, (i - 1) as nat),
        );
    }
}

/// What is written in base 16, in enough digits, is read back as the same number.
pub proof fn law_hex_is_read_back(n: nat, width: nat)
    requires
        width > 0,
        n < vstd::arithmetic::power::pow(16, width),
        n <= usize::MAX,
    ensures
        number(hex(n, width), 16) == Some(n as usize),
    decreases width,
{
    reveal(vstd::arithmetic::power::pow);
    let front = hex(n / 16, (width - 1) as nat);
    let c = digit_char(n % 16);
    lemma_hex_digits(n / 16, (width - 1) as nat);
    assert(vstd::arithmetic::power::pow(16, width) == 16 * vstd::arithmetic::power::pow(
        16,
        (width - 1) as nat,
    ));
    if width == 1 {
        vstd::arithmetic::power::lemma_pow0(16);
        assert(n < 16);
        assert(hex(n, width) =~= seq![c]);
        law_number_of_one_digit(c, 16);
    } else {
        law_hex_is_read_back(n / 16, (width - 1) as nat);
        assert(front != seq!['+']) by {
            if front == seq!['+'] {
                assert(is_written_digit(front[0]));
                assert(front[0] == '+');
            }
        }
        law_number_of_more_digits(front, c, 16);
        assert(n / 16 * 16 + n % 16 == n);
    }
}

/// A negative number has a minus sign in front of its magnitude; another has no
/// sign.
pub proof fn law_sign_is_written(i: int)
    ensures
        i >= 0 ==> signed_decimal(i) == decimal(i as nat),
        i < 0 ==> signed_decimal(i)[0] == '-' && signed_decimal(i).skip(1) == decimal((-i) as nat),
{
    if i < 0 {
        assert(signed_decimal(i).skip(1) =~= decimal((-i) as nat));
    }
}

} // verus!
