//! Decimal text of integers, written two digits at a time.
use vstd::prelude::*;

verus! {

/// The decimal digits of `v`, most significant first, without leading zeros.
pub open spec fn decimal(v: nat) -> Seq<u8>
    decreases v,
{
    if v < 10 {
        seq![(48 + v) as u8]
    } else {
        decimal(v / 10) + seq![(48 + v % 10) as u8]
    }
}

/// The decimal text of a signed integer: a minus sign before negative values.
pub open spec fn decimal_signed(v: int) -> Seq<u8> {
    if v < 0 {
        seq![45u8] + decimal((-v) as nat)
    } else {
        decimal(v as nat)
    }
}

/// The decimal text of `v` as characters.
pub open spec fn decimal_chars(v: nat) -> Seq<char>
    decreases v,
{
    if v < 10 {
        seq![(48 + v) as char]
    } else {
        decimal_chars(v / 10) + seq![(48 + v % 10) as char]
    }
}

/// The two digits of `v` in 0..100.
pub open spec fn two_digits(v: nat) -> Seq<u8> {
    seq![(48 + v / 10) as u8, (48 + v % 10) as u8]
}

/// The decimal text of a number of 100 or more splits into that of its hundreds
/// and its last two digits.
pub proof fn lemma_decimal_pairs(v: nat)
    requires
        v >= 100,
    ensures
        decimal(v) == decimal(v / 100) + two_digits(v % 100),
{
    assert(v / 10 >= 10);
    assert(decimal(v) == decimal(v / 10) + seq![(48 + v % 10) as u8]);
    assert(decimal(v / 10) == decimal(v / 10 / 10) + seq![(48 + (v / 10) % 10) as u8]);
    assert(v / 10 / 10 == v / 100) by (nonlinear_arith);
    assert((v / 10) % 10 == (v % 100) / 10) by (nonlinear_arith);
    assert(v % 10 == (v % 100) % 10) by (nonlinear_arith);
}

/// Length of the decimal text: at most twenty digits for 64-bit values.
pub proof fn lemma_decimal_len(v: nat)
    ensures
        decimal(v).len() >= 1,
        v < 0x1_0000_0000_0000_0000 ==> decimal(v).len() <= 20,
{
    if v >= 10 {
        assert(decimal(v).len() == decimal(v / 10).len() + 1);
    }
    if v < 0x1_0000_0000_0000_0000 {
        reveal_with_fuel(pow10, 21);
        assert(pow10(20) == 100000000000000000000);
        lemma_decimal_len_pow(v, 20);
    }
}

proof fn lemma_decimal_len_pow(v: nat, n: nat)
    requires
        n >= 1,
        v < pow10(n),
    ensures
        decimal(v).len() <= n,
    decreases n,
{
    if v >= 10 {
        if n == 1 {
            assert(pow10(1) == 10 * pow10(0));
            assert(false);
        }
        assert(pow10(n) == 10 * pow10((n - 1) as nat));
        assert(v / 10 < pow10((n - 1) as nat)) by (nonlinear_arith)
            requires v < pow10(n), pow10(n) == 10 * pow10((n - 1) as nat);
        lemma_decimal_len_pow(v / 10, (n - 1) as nat);
    }
}


/// The number that a sequence of decimal digit bytes stands for.
pub open spec fn digits_value(s: Seq<u8>) -> nat
    decreases s.len(),
{
    if s.len() == 0 {
        0
    } else {
        10 * digits_value(s.drop_last()) + (s.last() - 48) as nat
    }
}

/// The decimal text of a number is made of digits and reads back as the number.
pub proof fn law_decimal_roundtrip(v: nat)
    ensures
        forall|i: int| 0 <= i < decimal(v).len() ==> 48 <= #[trigger] decimal(v)[i] <= 57,
        digits_value(decimal(v)) == v,
    decreases v,
{
    if v >= 10 {
        law_decimal_roundtrip(v / 10);
        let d = decimal(v / 10);
        let t = decimal(v);
        assert(t == d + seq![(48 + v % 10) as u8]);
        assert(t.drop_last() =~= d);
        assert forall|i: int| 0 <= i < t.len() implies 48 <= #[trigger] t[i] <= 57 by {
            if i < d.len() {
                assert(t[i] == d[i]);
            }
        }
        assert(t.last() == (48 + v % 10) as u8);
        assert(10 * (v / 10) + v % 10 == v) by (nonlinear_arith);
        assert(digits_value(t) == 10 * digits_value(d) + (t.last() - 48) as nat);
    } else {
        let t = decimal(v);
        assert(t.drop_last() =~= Seq::<u8>::empty());
        assert(digits_value(t) == 10 * digits_value(t.drop_last()) + (t.last() - 48) as nat);
    }
}

/// Ten to the power `n`.
pub open spec fn pow10(n: nat) -> nat
    decreases n,
{
    if n == 0 {
        1
    } else {
        10 * pow10((n - 1) as nat)
    }
}

/// Appends the one or two digits of `v`, which is below 100.
fn append_utoa_short(dst: &mut Vec<u8>, v: u64)
    requires
        v < 100,
    ensures
        final(dst)@ == old(dst)@ + decimal(v as nat),
{
    if v < 10 {
        dst.push((48 + v) as u8);
    } else {
        dst.push((48 + v / 10) as u8);
        dst.push((48 + v % 10) as u8);
        assert(decimal((v / 10) as nat) == seq![(48 + v / 10) as u8]);
    }
}

/// Appends the decimal text of `v` to `dst`.
pub fn append_utoa(dst: &mut Vec<u8>, v: u64)
    ensures
        final(dst)@ == old(dst)@ + decimal(v as nat),
    decreases v,
{
    if v < 100 {
        append_utoa_short(dst, v);
        return;
    }
    append_utoa(dst, v / 100);
    let lo: u64 = v % 100;
    dst.push((48 + lo / 10) as u8);
    dst.push((48 + lo % 10) as u8);
    proof {
        lemma_decimal_pairs(v as nat);
    }
}

/// Appends the decimal text of `v` to `dst`, with a minus sign before negative values.
pub fn append_itoa(dst: &mut Vec<u8>, v: i64)
    ensures
        final(dst)@ == old(dst)@ + decimal_signed(v as int),
{
    if v < 0 {
        dst.push(45);
        let abs: u64 = ((-(v + 1)) as u64) + 1;
        append_utoa(dst, abs);
    } else {
        append_utoa(dst, v as u64);
    }
}

/// The decimal text of `v` as a new buffer.
pub fn utoa(v: u64) -> (r: Vec<u8>)
    ensures
        r@ == decimal(v as nat),
{
    let mut r: Vec<u8> = Vec::new();
    append_utoa(&mut r, v);
    r
}

/// The single-digit text of `d`.
fn digit_str(d: u64) -> (s: &'static str)
    requires
        d < 10,
    ensures
        s@ == seq![(48 + d) as char],
{
    proof {
        reveal_strlit("0");
        reveal_strlit("1");
        reveal_strlit("2");
        reveal_strlit("3");
        reveal_strlit("4");
        reveal_strlit("5");
        reveal_strlit("6");
        reveal_strlit("7");
        reveal_strlit("8");
        reveal_strlit("9");
    }
    if d == 0 {
        "0"
    } else if d == 1 {
        "1"
    } else if d == 2 {
        "2"
    } else if d == 3 {
        "3"
    } else if d == 4 {
        "4"
    } else if d == 5 {
        "5"
    } else if d == 6 {
        "6"
    } else if d == 7 {
        "7"
    } else if d == 8 {
        "8"
    } else {
        "9"
    }
}

/// Appends the decimal text of `v` to the string `s`.
pub fn append_decimal_str(s: &mut String, v: u64)
    ensures
        final(s)@ == old(s)@ + decimal_chars(v as nat),
    decreases v,
{
    if v >= 10 {
        append_decimal_str(s, v / 10);
    }
    let d = digit_str(v % 10);
    s.append(d);
}

} // verus!
