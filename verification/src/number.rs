//! Numbers as text: how a number is read from a string and written into one.

use vstd::prelude::*;
use crate::text::chars_of;

verus! {

// ---------------------------------------------------------------------------------------------
// Reading
// ---------------------------------------------------------------------------------------------

/// The value of a digit, letters of either case counting from ten; 36 for any other character.
pub open spec fn digit_value(c: char) -> nat {
    if '0' <= c <= '9' {
        (c as u32 - '0' as u32) as nat
    } else if 'a' <= c <= 'z' {
        (c as u32 - 'a' as u32 + 10) as nat
    } else if 'A' <= c <= 'Z' {
        (c as u32 - 'A' as u32 + 10) as nat
    } else {
        36
    }
}

/// Whether `s` is one digit or more, all of them digits of the base.
pub open spec fn is_numeral(s: Seq<char>, base: nat) -> bool {
    s.len() > 0 && forall|i: int| 0 <= i < s.len() ==> digit_value(#[trigger] s[i]) < base
}

/// The number that the digits of `s` stand for, the most significant one first.
pub open spec fn numeral_value(s: Seq<char>, base: nat) -> nat
    decreases s.len(),
{
    if s.len() == 0 {
        0
    } else {
        numeral_value(s.drop_last(), base) * base + digit_value(s.last())
    }
}

/// `s` without the one plus sign that it may start with.
pub open spec fn without_plus(s: Seq<char>) -> Seq<char> {
    if s.len() > 0 && s[0] == '+' {
        s.drop_first()
    } else {
        s
    }
}

/// The number that `s` stands for in the base: digits, with or without a plus sign before them,
/// of a value that is at most `max`.
pub open spec fn unsigned_value(s: Seq<char>, base: nat, max: nat) -> Option<nat> {
    let d = without_plus(s);
    if is_numeral(d, base) && numeral_value(d, base) <= max {
        Some(numeral_value(d, base))
    } else {
        None
    }
}

/// The 64-bit signed number that `s` stands for in base ten: digits, with or without one sign
/// before them.
pub open spec fn signed_value(s: Seq<char>) -> Option<int> {
    if s.len() > 0 && s[0] == '-' {
        let d = s.drop_first();
        if is_numeral(d, 10) && numeral_value(d, 10) <= 0x8000_0000_0000_0000 {
            Some(-numeral_value(d, 10))
        } else {
            None
        }
    } else {
        match unsigned_value(s, 10, 0x7fff_ffff_ffff_ffff) {
            Some(n) => Some(n as int),
            None => None,
        }
    }
}

/// The value of a digit, 36 for a character that is none.
fn digit(c: char) -> (r: u64)
    ensures
        r == digit_value(c),
        r <= 36,
{
    let u: u32 = c as u32;
    if 48 <= u && u <= 57 {
        (u - 48) as u64
    } else if 97 <= u && u <= 122 {
        (u - 97 + 10) as u64
    } else if 65 <= u && u <= 90 {
        (u - 65 + 10) as u64
    } else {
        36
    }
}

proof fn lemma_numeral_grows(s: Seq<char>, k: int, base: nat)
    requires
        0 <= k <= s.len(),
        base >= 1,
    ensures
        numeral_value(s.take(k), base) <= numeral_value(s, base),
    decreases s.len(),
{
    if k < s.len() {
        lemma_numeral_grows(s.drop_last(), k, base);
        assert(s.drop_last().take(k) =~= s.take(k));
        let v = numeral_value(s.drop_last(), base);
        assert(v * base >= v) by (nonlinear_arith)
            requires
                base >= 1,
                v >= 0,
        ;
    } else {
        assert(s.take(k) =~= s);
    }
}

/// The value of the digits of `v` from `from` on, if all of them are digits of the base, there is
/// one at least, and the value is at most `max`.
fn read_numeral(v: &Vec<char>, from: usize, base: u64, max: u64) -> (r: Option<u64>)
    requires
        from <= v@.len(),
        1 <= base <= 36,
    ensures
        match r {
            Some(n) => is_numeral(v@.skip(from as int), base as nat) && n == numeral_value(
                v@.skip(from as int),
                base as nat,
            ) && n <= max,
            None => !(is_numeral(v@.skip(from as int), base as nat) && numeral_value(
                v@.skip(from as int),
                base as nat,
            ) <= max),
        },
{
    let ghost s = v@.skip(from as int);
    if from == v.len() {
        return None;
    }
    let mut i: usize = from;
    let mut n: u64 = 0;
    assert(s.take(0) =~= Seq::<char>::empty());
    while i < v.len()
        invariant
            from <= i <= v@.len(),
            1 <= base <= 36,
            s == v@.skip(from as int),
            n == numeral_value(s.take(i - from), base as nat),
            n <= max,
            forall|j: int| 0 <= j < i - from ==> digit_value(#[trigger] s[j]) < base,
        decreases v@.len() - i,
    {
        let d = digit(v[i]);
        let ghost k = i - from;
        assert(s[k] == v@[i as int]);
        if d >= base {
            return None;
        }
        proof {
            assert(s.take(k + 1).drop_last() =~= s.take(k));
            assert(s.take(k + 1).last() == s[k]);
            assert(numeral_value(s.take(k + 1), base as nat) == n * base + d);
            lemma_numeral_grows(s, k + 1, base as nat);
        }
        if d > max || n > (max - d) / base {
            proof {
                assert(n * base + d > max) by (nonlinear_arith)
                    requires
                        d > max || n > (max - d) / (base as int),
                        base >= 1,
                        n >= 0,
                ;
            }
            return None;
        }
        proof {
            assert(n * base + d <= max) by (nonlinear_arith)
                requires
                    d <= max,
                    n <= (max - d) / (base as int),
                    base >= 1,
            ;
        }
        n = n * base + d;
        i += 1;
    }
    assert(s.take(i - from) =~= s);
    Some(n)
}

/// Reads an unsigned number of at most `max` in the base.
pub fn parse_unsigned(s: &str, base: u64, max: u64) -> (r: Option<u64>)
    requires
        1 <= base <= 36,
    ensures
        match r {
            Some(n) => unsigned_value(s@, base as nat, max as nat) == Some(n as nat),
            None => unsigned_value(s@, base as nat, max as nat) is None,
        },
{
    let v = chars_of(s);
    proof {
        assert(v@.skip(0) =~= v@);
        assert(v@.len() > 0 ==> v@.skip(1) =~= v@.drop_first());
    }
    if v.len() > 0 && v[0] == '+' {
        read_numeral(&v, 1, base, max)
    } else {
        read_numeral(&v, 0, base, max)
    }
}

/// Reads a signed number in base ten.
pub fn parse_signed(s: &str) -> (r: Option<i64>)
    ensures
        match r {
            Some(n) => signed_value(s@) == Some(n as int),
            None => signed_value(s@) is None,
        },
{
    let v = chars_of(s);
    proof {
        assert(v@.len() > 0 ==> v@.skip(1) =~= v@.drop_first());
    }
    if v.len() > 0 && v[0] == '-' {
        match read_numeral(&v, 1, 10, 0x8000_0000_0000_0000) {
            Some(n) => if n == 0x8000_0000_0000_0000 {
                Some(i64::MIN)
            } else {
                Some(-(n as i64))
            },
            None => None,
        }
    } else {
        match parse_unsigned(s, 10, 0x7fff_ffff_ffff_ffff) {
            Some(n) => Some(n as i64),
            None => None,
        }
    }
}

// ---------------------------------------------------------------------------------------------
// Writing
// ---------------------------------------------------------------------------------------------

/// The digit of a value below sixteen, letters in lower case.
pub open spec fn digit_char(d: nat) -> char
    recommends
        d < 16,
{
    if d < 10 {
        (d + 48) as char
    } else {
        (d + 87) as char
    }
}

/// `n` in base ten, without leading zeros.
pub open spec fn decimal(n: nat) -> Seq<char>
    decreases n,
{
    if n < 10 {
        seq![digit_char(n)]
    } else {
        decimal(n / 10).push(digit_char(n % 10))
    }
}

/// `n` in base ten, without leading zeros, with a minus sign before it if it is negative.
pub open spec fn signed_decimal(n: int) -> Seq<char> {
    if n < 0 {
        seq!['-'] + decimal((-n) as nat)
    } else {
        decimal(n as nat)
    }
}

/// `b` as two digits in base sixteen.
pub open spec fn hex_pair(b: u8) -> Seq<char> {
    seq![digit_char((b / 16) as nat), digit_char((b % 16) as nat)]
}

/// The digit of a value below sixteen.
fn digit_of(d: u8) -> (r: char)
    requires
        d < 16,
    ensures
        r == digit_char(d as nat),
{
    if d < 10 {
        (d + 48) as char
    } else {
        (d + 87) as char
    }
}

/// A number in base ten.
pub fn write_decimal(n: u64) -> (r: String)
    ensures
        r@ == decimal(n as nat),
    decreases n,
{
    if n < 10 {
        let mut r = String::new();
        r.push(digit_of(n as u8));
        assert(r@ =~= seq![digit_char(n as nat)]);
        r
    } else {
        let mut r = write_decimal(n / 10);
        r.push(digit_of((n % 10) as u8));
        r
    }
}

/// A signed number in base ten.
pub fn write_signed(n: i64) -> (r: String)
    ensures
        r@ == signed_decimal(n as int),
{
    if n < 0 {
        let m: u64 = (-(n + 1)) as u64 + 1;
        let digits = write_decimal(m);
        let mut r = String::new();
        r.push('-');
        r.append(digits.as_str());
        assert(r@ =~= seq!['-'] + decimal((-n) as nat));
        r
    } else {
        write_decimal(n as u64)
    }
}

/// A byte as two digits in base sixteen.
pub fn write_hex_pair(b: u8) -> (r: String)
    ensures
        r@ == hex_pair(b),
{
    let mut r = String::new();
    r.push(digit_of(b / 16));
    r.push(digit_of(b % 16));
    assert(r@ =~= hex_pair(b));
    r
}

// ---------------------------------------------------------------------------------------------
// What is written is read back
// ---------------------------------------------------------------------------------------------

proof fn lemma_digit_char(d: nat)
    requires
        d < 16,
    ensures
        digit_value(digit_char(d)) == d,
        digit_char(d) != '+',
        digit_char(d) != '-',
{
}

proof fn lemma_decimal(n: nat)
    ensures
        is_numeral(decimal(n), 10),
        numeral_value(decimal(n), 10) == n,
        decimal(n)[0] != '+',
        decimal(n)[0] != '-',
    decreases n,
{
    reveal_with_fuel(numeral_value, 2);
    lemma_digit_char(n % 10);
    if n < 10 {
        assert(decimal(n).drop_last() =~= Seq::<char>::empty());
    } else {
        let p = decimal(n / 10);
        let c = digit_char(n % 10);
        lemma_decimal(n / 10);
        assert(p.push(c).drop_last() =~= p);
        assert forall|i: int| 0 <= i < p.push(c).len() implies digit_value(
            #[trigger] p.push(c)[i],
        ) < 10 by {
            if i < p.len() {
                assert(p.push(c)[i] == p[i]);
            }
        }
    }
}

proof fn lemma_decimal_is_dark(n: nat)
    ensures
        forall|i: int|
            0 <= i < decimal(n).len() ==> !crate::text::is_white_space(#[trigger] decimal(n)[i]),
    decreases n,
{
    if n >= 10 {
        let p = decimal(n / 10);
        let c = digit_char(n % 10);
        lemma_decimal_is_dark(n / 10);
        assert forall|i: int| 0 <= i < decimal(n).len() implies !crate::text::is_white_space(
            #[trigger] decimal(n)[i],
        ) by {
            if i < p.len() {
                assert(decimal(n)[i] == p[i]);
            } else {
                assert(decimal(n)[i] == c);
            }
        }
    }
}

/// A number in base ten holds no white space.
pub proof fn lemma_signed_decimal_is_dark(n: int)
    ensures
        forall|i: int|
            0 <= i < signed_decimal(n).len() ==> !crate::text::is_white_space(
                #[trigger] signed_decimal(n)[i],
            ),
{
    if n < 0 {
        let d = decimal((-n) as nat);
        lemma_decimal_is_dark((-n) as nat);
        assert forall|i: int| 0 <= i < signed_decimal(n).len() implies !crate::text::is_white_space(
            #[trigger] signed_decimal(n)[i],
        ) by {
            if i > 0 {
                assert(signed_decimal(n)[i] == d[i - 1]);
            }
        }
    } else {
        lemma_decimal_is_dark(n as nat);
    }
}

/// An unsigned number that was written in base ten is read back as it was.
pub proof fn unsigned_read_back(n: nat, max: nat)
    requires
        n <= max,
    ensures
        unsigned_value(decimal(n), 10, max) == Some(n),
{
    lemma_decimal(n);
}

/// A 64-bit signed number that was written in base ten is read back as it was.
pub proof fn signed_read_back(n: i64)
    ensures
        signed_value(signed_decimal(n as int)) == Some(n as int),
{
    if n < 0 {
        let d = decimal((-n) as nat);
        lemma_decimal((-n) as nat);
        assert((seq!['-'] + d).drop_first() =~= d);
    } else {
        lemma_decimal(n as nat);
    }
}

/// A byte that was written as two digits in base sixteen is read back as it was.
pub proof fn hex_pair_read_back(b: u8)
    ensures
        unsigned_value(hex_pair(b), 16, 255) == Some(b as nat),
{
    let s = hex_pair(b);
    let hi = (b / 16) as nat;
    let lo = (b % 16) as nat;
    lemma_digit_char(hi);
    lemma_digit_char(lo);
    assert forall|i: int| 0 <= i < s.len() implies digit_value(#[trigger] s[i]) < 16 by {
        if i == 0 {
            assert(s[i] == digit_char(hi));
        } else {
            assert(s[i] == digit_char(lo));
        }
    }
    reveal_with_fuel(numeral_value, 3);
    assert(s.drop_last() =~= seq![digit_char(hi)]);
    assert(s.drop_last().drop_last() =~= Seq::<char>::empty());
    assert(numeral_value(s, 16) == hi * 16 + lo);
}

/// What is read as a number consists of digits, ten of them in base ten and letters of either case
/// besides in base sixteen, with or without one plus sign before them.
pub proof fn numbers_are_digits(s: Seq<char>, base: nat, max: nat)
    requires
        base == 10 || base == 16,
        unsigned_value(s, base, max) is Some,
    ensures
        unsigned_value(s, base, max)->0 <= max,
        s.len() > 0,
        s[0] == '+' ==> s.len() > 1,
        forall|i: int|
            0 <= i < s.len() ==> '0' <= #[trigger] s[i] <= '9' || (i == 0 && s[i] == '+') || (base
                == 16 && ('a' <= s[i] <= 'f' || 'A' <= s[i] <= 'F')),
{
    let d = without_plus(s);
    assert forall|i: int| 0 <= i < s.len() implies '0' <= #[trigger] s[i] <= '9' || (i == 0 && s[i]
        == '+') || (base == 16 && ('a' <= s[i] <= 'f' || 'A' <= s[i] <= 'F')) by {
        if s[0] == '+' {
            if i > 0 {
                assert(s[i] == d[i - 1]);
                assert(digit_value(d[i - 1]) < base);
            }
        } else {
            assert(digit_value(d[i]) < base);
        }
    }
}

proof fn lemma_leading_zero(s: Seq<char>, base: nat)
    ensures
        numeral_value(seq!['0'] + s, base) == numeral_value(s, base),
    decreases s.len(),
{
    let z = seq!['0'] + s;
    if s.len() == 0 {
        reveal_with_fuel(numeral_value, 2);
        assert(z.drop_last() =~= Seq::<char>::empty());
        assert(z.last() == '0');
        assert(0 * base == 0) by (nonlinear_arith);
    } else {
        assert(z.drop_last() =~= seq!['0'] + s.drop_last());
        assert(z.last() == s.last());
        lemma_leading_zero(s.drop_last(), base);
    }
}

/// A zero before the digits of a number makes no difference, and neither does a plus sign.
pub proof fn zeros_and_plus_make_no_difference(s: Seq<char>, base: nat, max: nat)
    requires
        base > 0,
        s.len() > 0,
        s[0] != '+',
    ensures
        unsigned_value(seq!['0'] + s, base, max) == unsigned_value(s, base, max),
        unsigned_value(seq!['+'] + s, base, max) == unsigned_value(s, base, max),
{
    let z = seq!['0'] + s;
    lemma_leading_zero(s, base);
    assert(is_numeral(z, base) <==> is_numeral(s, base)) by {
        assert forall|i: int| 0 <= i < s.len() implies #[trigger] s[i] == z[i + 1] by {}
        if is_numeral(s, base) {
            assert forall|i: int| 0 <= i < z.len() implies digit_value(#[trigger] z[i]) < base by {
                if i > 0 {
                    assert(z[i] == s[i - 1]);
                }
            }
        }
        if is_numeral(z, base) {
            assert forall|i: int| 0 <= i < s.len() implies digit_value(#[trigger] s[i]) < base by {
                assert(s[i] == z[i + 1]);
            }
        }
    }
    assert((seq!['+'] + s).drop_first() =~= s);
}

/// A number that is written in base ten is read if it is at most `max`, and refused if it is more;
/// so is a negative one, by how far it is from zero.
pub proof fn numbers_within_bounds(n: nat, max: nat)
    ensures
        unsigned_value(decimal(n), 10, max) == if n <= max {
            Some(n)
        } else {
            None
        },
        signed_value(seq!['-'] + decimal(n)) == if n <= 0x8000_0000_0000_0000 {
            Some(-n)
        } else {
            None
        },
        signed_value(decimal(n)) == if n < 0x8000_0000_0000_0000 {
            Some(n as int)
        } else {
            None
        },
{
    lemma_decimal(n);
    assert((seq!['-'] + decimal(n)).drop_first() =~= decimal(n));
}

/// Letters of either case are the same digits.
pub proof fn case_of_digits(lower: char, upper: char)
    requires
        'a' <= lower <= 'f',
        lower as int == upper as int + 32,
    ensures
        digit_value(lower) == digit_value(upper),
        digit_value(lower) == lower as int - 97 + 10,
{
}

/// A number in base ten is written in digits alone, without a zero at the front unless it is zero.
pub proof fn written_in_digits(n: nat)
    ensures
        decimal(n).len() > 0,
        forall|i: int| 0 <= i < decimal(n).len() ==> '0' <= #[trigger] decimal(n)[i] <= '9',
        decimal(n)[0] == '0' <==> n == 0,
        n == 0 ==> decimal(n).len() == 1,
    decreases n,
{
    if n >= 10 {
        let p = decimal(n / 10);
        written_in_digits(n / 10);
        assert forall|i: int| 0 <= i < decimal(n).len() implies '0' <= #[trigger] decimal(n)[i]
            <= '9' by {
            if i < p.len() {
                assert(decimal(n)[i] == p[i]);
            }
        }
        assert(decimal(n)[0] == p[0]);
    }
}

/// A byte is written as two digits, each of them a figure or a small letter.
pub proof fn bytes_are_two_digits(b: u8)
    ensures
        hex_pair(b).len() == 2,
        forall|i: int|
            0 <= i < 2 ==> '0' <= #[trigger] hex_pair(b)[i] <= '9' || 'a' <= hex_pair(b)[i] <= 'f',
{
}

} // verus!
