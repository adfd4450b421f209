//! Text of durations and of points in time.
use vstd::prelude::*;
use crate::itoa2::{append_itoa, append_utoa, decimal, decimal_signed, digits_value, law_decimal_roundtrip, lemma_decimal_len, pow10};
use crate::pointer_ext::{append, append_str, lit};

verus! {

// ---------------------------------------------------------------------------
// durations
// ---------------------------------------------------------------------------

/// `s` without its trailing '0' bytes.
pub open spec fn trim_zeros(s: Seq<u8>) -> Seq<u8>
    decreases s.len(),
{
    if s.len() > 0 && s[s.len() - 1] == 48 {
        trim_zeros(s.drop_last())
    } else {
        s
    }
}

/// The nine digits of a nanosecond count below one second, zero-padded.
pub open spec fn nine_digits(n: nat) -> Seq<u8> {
    decimal(1_000_000_000 + n).subrange(1, 10)
}

/// The fraction after the seconds: nothing for a whole second, else a dot and the
/// nanosecond digits without trailing zeros.
pub open spec fn fraction_text(n: nat) -> Seq<u8> {
    let digits = trim_zeros(nine_digits(n));
    if digits.len() > 0 {
        seq![46u8] + digits
    } else {
        Seq::empty()
    }
}

/// A duration in nanoseconds in the style of Go: `0s`, `15ns`, `7µs` (the micro
/// sign in UTF-8), `12ms`, `1h2m3.5s`.
pub open spec fn go_duration(nanos: nat) -> Seq<u8> {
    if nanos == 0 {
        lit("0s")
    } else if nanos < 1_000 {
        decimal(nanos) + lit("ns")
    } else if nanos < 1_000_000 {
        decimal(nanos / 1_000) + seq![0xC2u8, 0xB5u8, 115u8]
    } else if nanos < 1_000_000_000 {
        decimal(nanos / 1_000_000) + lit("ms")
    } else {
        let total = nanos / 1_000_000_000;
        let n = nanos % 1_000_000_000;
        let hours = total / 3600;
        let minutes = total % 3600 / 60;
        let seconds = total % 60;
        (if hours > 0 { decimal(hours) + lit("h") } else { Seq::empty() })
            + (if minutes > 0 { decimal(minutes) + lit("m") } else { Seq::empty() })
            + (if seconds > 0 || n > 0 {
                if n == 0 {
                    decimal(seconds) + lit("s")
                } else {
                    decimal(seconds) + fraction_text(n) + lit("s")
                }
            } else {
                Seq::empty()
            })
    }
}

// ---------------------------------------------------------------------------
// reading a duration text back
// ---------------------------------------------------------------------------

/// Whether a byte belongs to a number: a digit or the decimal point.
pub open spec fn is_num_byte(b: u8) -> bool {
    (48 <= b <= 57) || b == 46
}

/// The length of the number at the end of `t`.
pub open spec fn num_len(t: Seq<u8>) -> nat
    decreases t.len(),
{
    if t.len() > 0 && is_num_byte(t.last()) {
        num_len(t.drop_last()) + 1
    } else {
        0
    }
}

/// Whether `t` ends with the bytes `u`.
pub open spec fn ends_with(t: Seq<u8>, u: Seq<u8>) -> bool {
    u.len() <= t.len() && t.subrange(t.len() - u.len(), t.len() as int) == u
}

/// The unit at the end of `t`: its length in bytes and its size in nanoseconds.
pub open spec fn unit_at_end(t: Seq<u8>) -> Option<(nat, nat)> {
    if ends_with(t, lit("ns")) {
        Some((2, 1))
    } else if ends_with(t, seq![0xC2u8, 0xB5u8, 115u8]) {
        Some((3, 1_000))
    } else if ends_with(t, lit("ms")) {
        Some((2, 1_000_000))
    } else if ends_with(t, lit("s")) {
        Some((1, 1_000_000_000))
    } else if ends_with(t, lit("m")) {
        Some((1, 60_000_000_000))
    } else if ends_with(t, lit("h")) {
        Some((1, 3_600_000_000_000))
    } else {
        None
    }
}

/// Where the last decimal point of `t` stands.
pub open spec fn dot_index(t: Seq<u8>) -> Option<nat>
    decreases t.len(),
{
    if t.len() == 0 {
        None
    } else if t.last() == 46 {
        Some((t.len() - 1) as nat)
    } else {
        dot_index(t.drop_last())
    }
}

/// The value of a number (digits, perhaps with a fraction after a point) of a
/// unit of `scale` nanoseconds.
pub open spec fn num_value(num: Seq<u8>, scale: nat) -> nat {
    match dot_index(num) {
        None => digits_value(num) * scale,
        Some(i) => digits_value(num.subrange(0, i as int)) * scale
            + digits_value(num.subrange(i as int + 1, num.len() as int)) * scale / pow10((num.len() - i - 1) as nat),
    }
}

/// The number of nanoseconds a duration text such as `1h2m3.5s` or `7µs` stands
/// for: the sum of its terms, each a number followed by a unit; `None` for a text
/// that is not made of such terms.
pub open spec fn duration_value(t: Seq<u8>) -> Option<nat>
    decreases t.len(),
{
    if t.len() == 0 {
        Some(0)
    } else {
        match unit_at_end(t) {
            None => None,
            Some((ul, scale)) => if ul == 0 || ul > t.len() {
                None
            } else {
                let body = t.subrange(0, t.len() - ul);
                let k = num_len(body);
                if k == 0 || k > body.len() {
                    None
                } else {
                    match duration_value(body.subrange(0, body.len() - k)) {
                        Some(r) => Some(r + num_value(body.subrange(body.len() - k, body.len() as int), scale)),
                        None => None,
                    }
                }
            },
        }
    }
}

proof fn lemma_unit_lits()
    ensures
        lit("ns") == seq![110u8, 115u8],
        lit("ms") == seq![109u8, 115u8],
        lit("s") == seq![115u8],
        lit("m") == seq![109u8],
        lit("h") == seq![104u8],
        lit("0s") == seq![48u8, 115u8],
{
    reveal_strlit("ns");
    reveal_strlit("ms");
    reveal_strlit("s");
    reveal_strlit("m");
    reveal_strlit("h");
    reveal_strlit("0s");
    assert(vstd::string::is_ascii("ns"));
    assert(vstd::string::is_ascii("ms"));
    assert(vstd::string::is_ascii("s"));
    assert(vstd::string::is_ascii("m"));
    assert(vstd::string::is_ascii("h"));
    assert(vstd::string::is_ascii("0s"));
    vstd::string::is_ascii_spec_bytes("ns");
    vstd::string::is_ascii_spec_bytes("ms");
    vstd::string::is_ascii_spec_bytes("s");
    vstd::string::is_ascii_spec_bytes("m");
    vstd::string::is_ascii_spec_bytes("h");
    vstd::string::is_ascii_spec_bytes("0s");
    assert(lit("ns") =~= seq![110u8, 115u8]);
    assert(lit("ms") =~= seq![109u8, 115u8]);
    assert(lit("s") =~= seq![115u8]);
    assert(lit("m") =~= seq![109u8]);
    assert(lit("h") =~= seq![104u8]);
    assert(lit("0s") =~= seq![48u8, 115u8]);
}

/// Whether every byte of `t` is a digit.
pub open spec fn all_digits(t: Seq<u8>) -> bool {
    forall|i: int| 0 <= i < t.len() ==> 48 <= #[trigger] t[i] <= 57
}

proof fn lemma_num_len_concat(a: Seq<u8>, num: Seq<u8>)
    requires
        a.len() == 0 || !is_num_byte(a.last()),
        forall|i: int| 0 <= i < num.len() ==> is_num_byte(#[trigger] num[i]),
    ensures
        num_len(a + num) == num.len(),
    decreases num.len(),
{
    if num.len() == 0 {
        assert(a + num =~= a);
    } else {
        let d = num.drop_last();
        assert((a + num).drop_last() =~= a + d);
        assert((a + num).last() == num[num.len() - 1]);
        assert forall|i: int| 0 <= i < d.len() implies is_num_byte(#[trigger] d[i]) by {
            assert(d[i] == num[i]);
        }
        lemma_num_len_concat(a, d);
    }
}

/// The units of duration texts, with their lengths and sizes in nanoseconds.
pub open spec fn is_unit(u: Seq<u8>, ul: nat, scale: nat) -> bool {
    ||| u == seq![110u8, 115u8] && ul == 2 && scale == 1
    ||| u == seq![0xC2u8, 0xB5u8, 115u8] && ul == 3 && scale == 1_000
    ||| u == seq![109u8, 115u8] && ul == 2 && scale == 1_000_000
    ||| u == seq![115u8] && ul == 1 && scale == 1_000_000_000
    ||| u == seq![109u8] && ul == 1 && scale == 60_000_000_000
    ||| u == seq![104u8] && ul == 1 && scale == 3_600_000_000_000
}

proof fn lemma_term(a: Seq<u8>, num: Seq<u8>, u: Seq<u8>, ul: nat, scale: nat)
    requires
        a.len() == 0 || !is_num_byte(a.last()),
        num.len() >= 1,
        forall|i: int| 0 <= i < num.len() ==> is_num_byte(#[trigger] num[i]),
        48 <= num.last() <= 57,
        is_unit(u, ul, scale),
    ensures
        duration_value(a + num + u) == match duration_value(a) {
            Some(r) => Some(r + num_value(num, scale)),
            None => None::<nat>,
        },
{
    lemma_unit_lits();
    let t = a + num + u;
    let n = t.len();
    assert(t[n - 1] == u[ul - 1]);
    if ul == 1 {
        assert(t[n - 2] == num.last());
    } else if ul == 2 {
        assert(t[n - 2] == u[0]);
    }
    if ul >= 2 {
        assert(t[n - 3] == if ul == 2 { num.last() } else { u[0] });
    } else if n >= 3 {
        assert(t[n - 3] == if num.len() >= 2 { num[num.len() - 2] } else { a.last() });
    }
    assert(ends_with(t, u)) by {
        assert(t.subrange(n - ul, n as int) =~= u);
    }
    if ul == 1 {
        assert(!ends_with(t, seq![110u8, 115u8]) && !ends_with(t, seq![109u8, 115u8])) by {
            if n >= 2 {
                assert(t.subrange(n - 2, n as int)[0] == t[n - 2]);
            }
        }
        assert(!ends_with(t, seq![0xC2u8, 0xB5u8, 115u8])) by {
            if n >= 3 {
                assert(t.subrange(n - 3, n as int)[1] == t[n - 2]);
            }
        }
        if u == seq![109u8] || u == seq![104u8] {
            assert(!ends_with(t, seq![115u8])) by {
                assert(t.subrange(n - 1, n as int)[0] == t[n - 1]);
            }
        }
        if u == seq![104u8] {
            assert(!ends_with(t, seq![109u8])) by {
                assert(t.subrange(n - 1, n as int)[0] == t[n - 1]);
            }
        }
    } else if ul == 2 {
        if u == seq![109u8, 115u8] {
            assert(!ends_with(t, seq![110u8, 115u8])) by {
                assert(t.subrange(n - 2, n as int)[0] == t[n - 2]);
            }
            assert(!ends_with(t, seq![0xC2u8, 0xB5u8, 115u8])) by {
                if n >= 3 {
                    assert(t.subrange(n - 3, n as int)[1] == t[n - 2]);
                }
            }
        }
    } else {
        assert(!ends_with(t, seq![110u8, 115u8])) by {
            assert(t.subrange(n - 2, n as int)[0] == t[n - 2]);
            assert(t[n - 2] == u[1]);
        }
    }
    assert(unit_at_end(t) == Some((ul, scale)));
    let body = t.subrange(0, n - ul);
    assert(body =~= a + num);
    lemma_num_len_concat(a, num);
    assert(body.subrange(0, body.len() - num.len()) =~= a);
    assert(body.subrange(body.len() - num.len(), body.len() as int) =~= num);
}

proof fn lemma_dot_none(d: Seq<u8>)
    requires
        all_digits(d),
    ensures
        dot_index(d) is None,
    decreases d.len(),
{
    if d.len() > 0 {
        assert(d.last() == d[d.len() - 1]);
        let e = d.drop_last();
        assert forall|i: int| 0 <= i < e.len() implies 48 <= #[trigger] e[i] <= 57 by {
            assert(e[i] == d[i]);
        }
        lemma_dot_none(e);
    }
}

proof fn lemma_dot_after(a: Seq<u8>, f: Seq<u8>)
    requires
        all_digits(f),
    ensures
        dot_index(a + seq![46u8] + f) == Some(a.len()),
    decreases f.len(),
{
    let t = a + seq![46u8] + f;
    if f.len() == 0 {
        assert(t.last() == 46);
    } else {
        assert(t.last() == f[f.len() - 1]);
        let e = f.drop_last();
        assert forall|i: int| 0 <= i < e.len() implies 48 <= #[trigger] e[i] <= 57 by {
            assert(e[i] == f[i]);
        }
        assert(t.drop_last() =~= a + seq![46u8] + e);
        lemma_dot_after(a, e);
    }
}

proof fn lemma_digits_value_concat(a: Seq<u8>, b: Seq<u8>)
    ensures
        digits_value(a + b) == digits_value(a) * pow10(b.len()) + digits_value(b),
    decreases b.len(),
{
    if b.len() == 0 {
        assert(a + b =~= a);
        assert(pow10(0) == 1);
    } else {
        let e = b.drop_last();
        assert((a + b).drop_last() =~= a + e);
        assert((a + b).last() == b.last());
        lemma_digits_value_concat(a, e);
        let x = digits_value(a);
        let p = pow10(e.len());
        let d = (b.last() - 48) as nat;
        let y = digits_value(e);
        assert(pow10(b.len()) == 10 * p);
        assert(digits_value(b) == 10 * y + d);
        assert(digits_value(a + b) == 10 * (x * p + y) + d);
        assert(10 * (x * p + y) + d == x * (10 * p) + (10 * y + d)) by (nonlinear_arith);
    }
}

proof fn lemma_trim_zeros(s: Seq<u8>)
    ensures
        trim_zeros(s).len() <= s.len(),
        trim_zeros(s) == s.subrange(0, trim_zeros(s).len() as int),
        trim_zeros(s).len() > 0 ==> trim_zeros(s).last() != 48,
        digits_value(s) == digits_value(trim_zeros(s)) * pow10((s.len() - trim_zeros(s).len()) as nat),
    decreases s.len(),
{
    if s.len() > 0 && s[s.len() - 1] == 48 {
        let e = s.drop_last();
        lemma_trim_zeros(e);
        let t = trim_zeros(e);
        assert(t == s.subrange(0, t.len() as int));
        let z = (e.len() - t.len()) as nat;
        assert(trim_zeros(s) == t);
        assert((s.len() - t.len()) as nat == z + 1);
        assert(pow10(z + 1) == 10 * pow10(z));
        assert(digits_value(s) == 10 * digits_value(e));
        assert(10 * (digits_value(t) * pow10(z)) == digits_value(t) * (10 * pow10(z))) by (nonlinear_arith);
        assert(digits_value(e) == digits_value(t) * pow10(z));
        assert(digits_value(s) == digits_value(t) * pow10(z + 1));
        assert(digits_value(s) == digits_value(trim_zeros(s)) * pow10((s.len() - trim_zeros(s).len()) as nat));
    } else {
        assert(trim_zeros(s) == s);
        assert(pow10(0) == 1);
        assert((s.len() - trim_zeros(s).len()) as nat == 0);
        assert(digits_value(s) * 1 == digits_value(s));
        assert(s.subrange(0, s.len() as int) =~= s);
        assert(pow10(0) == 1);
    }
}

proof fn lemma_nine_digits(n: nat)
    requires
        n < 1_000_000_000,
    ensures
        nine_digits(n).len() == 9,
        all_digits(nine_digits(n)),
        digits_value(nine_digits(n)) == n,
{
    let v = 1_000_000_000 + n;
    lemma_decimal_ten_digits(n);
    law_decimal_roundtrip(v);
    let t = decimal(v);
    let f = nine_digits(n);
    assert forall|i: int| 0 <= i < f.len() implies 48 <= #[trigger] f[i] <= 57 by {
        assert(f[i] == t[i + 1]);
    }
    assert(t =~= t.subrange(0, 1) + f);
    lemma_digits_value_concat(t.subrange(0, 1), f);
    reveal_with_fuel(pow10, 10);
    assert(pow10(9) == 1_000_000_000);
    let first = t.subrange(0, 1);
    assert(digits_value(first) == 10 * digits_value(first.drop_last()) + (first.last() - 48));
    assert(first.drop_last().len() == 0);
    assert(digits_value(first) == (t[0] - 48) as nat);
    assert((t[0] - 48) as nat * 1_000_000_000 + digits_value(f) == v);
    assert(digits_value(f) < pow10(9)) by {
        lemma_digits_bound(f);
    }
    assert(48 <= t[0] <= 57);
    let x = (t[0] - 48) as nat;
    let y = digits_value(f);
    assert(x == 1) by (nonlinear_arith)
        requires x * 1_000_000_000 + y == 1_000_000_000 + n, y < 1_000_000_000, n < 1_000_000_000;
}

proof fn lemma_digits_bound(t: Seq<u8>)
    requires
        all_digits(t),
    ensures
        digits_value(t) < pow10(t.len()),
    decreases t.len(),
{
    if t.len() > 0 {
        let e = t.drop_last();
        assert forall|i: int| 0 <= i < e.len() implies 48 <= #[trigger] e[i] <= 57 by {
            assert(e[i] == t[i]);
        }
        lemma_digits_bound(e);
        assert(48 <= t[t.len() - 1] <= 57);
        assert(digits_value(e) + 1 <= pow10(e.len()));
        assert(10 * digits_value(e) + 10 <= 10 * pow10(e.len()));
    }
}

proof fn lemma_pow10_add(a: nat, b: nat)
    ensures
        pow10(a + b) == pow10(a) * pow10(b),
    decreases a,
{
    if a > 0 {
        lemma_pow10_add((a - 1) as nat, b);
        assert(pow10(a + b) == 10 * pow10((a - 1 + b) as nat));
        assert(10 * (pow10((a - 1) as nat) * pow10(b)) == (10 * pow10((a - 1) as nat)) * pow10(b)) by (nonlinear_arith);
    } else {
        assert(pow10(0) == 1);
    }
}

proof fn lemma_fraction(n: nat)
    requires
        0 < n < 1_000_000_000,
    ensures
        ({
            let f = trim_zeros(nine_digits(n));
            &&& f.len() >= 1
            &&& all_digits(f)
            &&& 48 <= f.last() <= 57
            &&& digits_value(f) * 1_000_000_000 / pow10(f.len()) == n
            &&& fraction_text(n) == seq![46u8] + f
        }),
{
    let g = nine_digits(n);
    lemma_nine_digits(n);
    lemma_trim_zeros(g);
    let f = trim_zeros(g);
    assert forall|i: int| 0 <= i < f.len() implies 48 <= #[trigger] f[i] <= 57 by {
        assert(f[i] == g.subrange(0, f.len() as int)[i]);
        assert(g.subrange(0, f.len() as int)[i] == g[i]);
    }
    let z = (9 - f.len()) as nat;
    if f.len() == 0 {
        assert(digits_value(f) == 0);
        assert(n == 0 * pow10(z));
    }
    assert(f.last() == f[f.len() - 1]);
    lemma_pow10_add(f.len(), z);
    reveal_with_fuel(pow10, 10);
    assert(pow10(9) == 1_000_000_000);
    assert(f.len() + z == 9);
    let p = pow10(f.len());
    let q = pow10(z);
    let v = digits_value(f);
    assert(n == v * q);
    assert(p * q == 1_000_000_000);
    lemma_pow10_pos_n(f.len());
    assert(v * 1_000_000_000 / p == n) by (nonlinear_arith)
        requires n == v * q, p * q == 1_000_000_000, p >= 1;
}

proof fn lemma_pow10_pos_n(k: nat)
    ensures
        pow10(k) >= 1,
    decreases k,
{
    if k > 0 {
        lemma_pow10_pos_n((k - 1) as nat);
    }
}

proof fn lemma_decimal_term(a: Seq<u8>, x: nat, u: Seq<u8>, ul: nat, scale: nat)
    requires
        a.len() == 0 || !is_num_byte(a.last()),
        is_unit(u, ul, scale),
    ensures
        duration_value(a + decimal(x) + u) == match duration_value(a) {
            Some(r) => Some(r + x * scale),
            None => None::<nat>,
        },
{
    let d = decimal(x);
    law_decimal_roundtrip(x);
    lemma_decimal_len(x);
    assert forall|i: int| 0 <= i < d.len() implies is_num_byte(#[trigger] d[i]) by {
        assert(48 <= d[i] <= 57);
    }
    assert(d.last() == d[d.len() - 1]);
    lemma_dot_none(d);
    lemma_term(a, d, u, ul, scale);
}

/// A duration text reads back as the duration it was made from: the sum of its
/// terms (hours, minutes, seconds with their fraction, or a single count of
/// milliseconds, microseconds or nanoseconds) is the duration itself from one
/// second on and below one microsecond, and between them the duration cut down to
/// whole milliseconds or whole microseconds, the unit the text is written in.
pub proof fn law_duration_reads_back(d: nat)
    ensures
        duration_value(go_duration(d)) == Some(
            if d < 1_000 || d >= 1_000_000_000 {
                d
            } else if d < 1_000_000 {
                d / 1_000 * 1_000
            } else {
                d / 1_000_000 * 1_000_000
            },
        ),
{
    lemma_unit_lits();
    let e: Seq<u8> = Seq::empty();
    if d == 0 {
        assert(go_duration(d) =~= e + decimal(0) + seq![115u8]);
        lemma_decimal_term(e, 0, seq![115u8], 1, 1_000_000_000);
    } else if d < 1_000 {
        assert(go_duration(d) =~= e + decimal(d) + seq![110u8, 115u8]);
        lemma_decimal_term(e, d, seq![110u8, 115u8], 2, 1);
    } else if d < 1_000_000 {
        assert(go_duration(d) =~= e + decimal(d / 1_000) + seq![0xC2u8, 0xB5u8, 115u8]);
        lemma_decimal_term(e, d / 1_000, seq![0xC2u8, 0xB5u8, 115u8], 3, 1_000);
    } else if d < 1_000_000_000 {
        assert(go_duration(d) =~= e + decimal(d / 1_000_000) + seq![109u8, 115u8]);
        lemma_decimal_term(e, d / 1_000_000, seq![109u8, 115u8], 2, 1_000_000);
    } else {
        lemma_long_duration(d);
    }
}

proof fn lemma_hours_minutes(hours: nat, minutes: nat)
    ensures
        ({
            let hs = if hours > 0 { decimal(hours) + lit("h") } else { Seq::empty() };
            let ms = if minutes > 0 { decimal(minutes) + lit("m") } else { Seq::empty() };
            let hm = hs + ms;
            &&& duration_value(hm) == Some(hours * 3_600_000_000_000 + minutes * 60_000_000_000)
            &&& hm.len() == 0 || !is_num_byte(hm.last())
        }),
{
    lemma_unit_lits();
    let e: Seq<u8> = Seq::empty();
    let hs = if hours > 0 { decimal(hours) + lit("h") } else { Seq::empty() };
    let ms = if minutes > 0 { decimal(minutes) + lit("m") } else { Seq::empty() };
    if hours > 0 {
        lemma_decimal_term(e, hours, seq![104u8], 1, 3_600_000_000_000);
        assert(hs =~= e + decimal(hours) + seq![104u8]);
    }
    assert(duration_value(hs) == Some(hours * 3_600_000_000_000));
    assert(hs.len() == 0 || !is_num_byte(hs.last()));
    let hm = hs + ms;
    if minutes > 0 {
        lemma_decimal_term(hs, minutes, seq![109u8], 1, 60_000_000_000);
        assert(hm =~= hs + decimal(minutes) + seq![109u8]);
        assert(hm.last() == 109);
    } else {
        assert(hm =~= hs);
    }
}

/// The seconds part of a duration text: whole seconds and the fraction.
spec fn seconds_text(seconds: nat, n: nat) -> Seq<u8> {
    if seconds > 0 || n > 0 {
        if n == 0 {
            decimal(seconds) + lit("s")
        } else {
            decimal(seconds) + fraction_text(n) + lit("s")
        }
    } else {
        Seq::empty()
    }
}

#[verifier::rlimit(40)]
proof fn lemma_seconds(hm: Seq<u8>, seconds: nat, n: nat, r: nat)
    requires
        hm.len() == 0 || !is_num_byte(hm.last()),
        duration_value(hm) == Some(r),
        n < 1_000_000_000,
    ensures
        duration_value(hm + seconds_text(seconds, n)) == Some(r + seconds * 1_000_000_000 + n),
{
    lemma_unit_lits();
    if seconds > 0 || n > 0 {
        if n == 0 {
            assert(hm + seconds_text(seconds, n) =~= hm + decimal(seconds) + seq![115u8]);
            lemma_decimal_term(hm, seconds, seq![115u8], 1, 1_000_000_000);
        } else {
            lemma_fraction(n);
            let f = trim_zeros(nine_digits(n));
            let ds = decimal(seconds);
            let num = ds + seq![46u8] + f;
            assert(hm + seconds_text(seconds, n) =~= hm + num + seq![115u8]);
            law_decimal_roundtrip(seconds);
            lemma_decimal_len(seconds);
            assert forall|i: int| 0 <= i < num.len() implies is_num_byte(#[trigger] num[i]) by {
                if i < ds.len() {
                    assert(num[i] == ds[i]);
                    assert(48 <= ds[i] <= 57);
                } else if i > ds.len() {
                    assert(num[i] == f[i - ds.len() - 1]);
                }
            }
            assert(num.last() == f.last());
            lemma_term(hm, num, seq![115u8], 1, 1_000_000_000);
            lemma_dot_after(ds, f);
            assert(num.subrange(0, ds.len() as int) =~= ds);
            assert(num.subrange(ds.len() as int + 1, num.len() as int) =~= f);
            assert(num_value(num, 1_000_000_000) == seconds * 1_000_000_000 + n);
        }
    } else {
        assert(hm + seconds_text(seconds, n) =~= hm);
    }
}

#[verifier::rlimit(80)]
proof fn lemma_long_duration(d: nat)
    requires
        d >= 1_000_000_000,
    ensures
        duration_value(go_duration(d)) == Some(d),
{
    let total = d / 1_000_000_000;
    let n = d % 1_000_000_000;
    let hours = total / 3600;
    let minutes = total % 3600 / 60;
    let seconds = total % 60;
    let hs = if hours > 0 { decimal(hours) + lit("h") } else { Seq::empty() };
    let ms = if minutes > 0 { decimal(minutes) + lit("m") } else { Seq::empty() };
    lemma_hours_minutes(hours, minutes);
    lemma_seconds(hs + ms, seconds, n, hours * 3_600_000_000_000 + minutes * 60_000_000_000);
    assert(go_duration(d) == hs + ms + seconds_text(seconds, n));
    assert(hours * 3_600_000_000_000 + minutes * 60_000_000_000 + seconds * 1_000_000_000 + n == d) by (nonlinear_arith)
        requires
            total == d / 1_000_000_000,
            n == d % 1_000_000_000,
            hours == total / 3600,
            minutes == total % 3600 / 60,
            seconds == total % 60,
    {
        assert(total * 1_000_000_000 + n == d);
        assert(hours * 3600 + total % 3600 == total);
        assert(minutes * 60 + seconds == total % 3600);
    }
}

proof fn lemma_decimal_ten_digits(n: nat)
    requires
        n < 1_000_000_000,
    ensures
        decimal(1_000_000_000 + n).len() == 10,
{
    let v = 1_000_000_000 + n;
    reveal_with_fuel(crate::itoa2::pow10, 11);
    assert(crate::itoa2::pow10(9) == 1_000_000_000);
    assert(crate::itoa2::pow10(10) == 10_000_000_000);
    lemma_decimal_len_between(v, 10);
}

proof fn lemma_decimal_len_between(v: nat, k: nat)
    requires
        k >= 1,
        crate::itoa2::pow10((k - 1) as nat) <= v < crate::itoa2::pow10(k),
    ensures
        decimal(v).len() == k,
    decreases k,
{
    if k == 1 {
        assert(crate::itoa2::pow10(1) == 10 * crate::itoa2::pow10(0));
    } else {
        let p = crate::itoa2::pow10((k - 1) as nat);
        assert(p == 10 * crate::itoa2::pow10((k - 2) as nat));
        assert(crate::itoa2::pow10(k) == 10 * p);
        assert(crate::itoa2::pow10((k - 2) as nat) <= v / 10 < p) by (nonlinear_arith)
            requires p <= v < 10 * p, p == 10 * crate::itoa2::pow10((k - 2) as nat);
        assert(v >= 10) by {
            lemma_pow10_pos((k - 2) as nat);
        }
        lemma_decimal_len_between(v / 10, (k - 1) as nat);
    }
}

proof fn lemma_pow10_pos(k: nat)
    ensures
        crate::itoa2::pow10(k) >= 1,
    decreases k,
{
    if k > 0 {
        lemma_pow10_pos((k - 1) as nat);
    }
}

/// Appends the duration `nanos` in the style of Go.
pub fn render_go_duration(dst: &mut Vec<u8>, nanos: u64)
    ensures
        final(dst)@ == old(dst)@ + go_duration(nanos as nat),
{
    if nanos == 0 {
        append_str(dst, "0s");
        return;
    }
    if nanos < 1_000 {
        append_utoa(dst, nanos);
        append_str(dst, "ns");
    } else if nanos < 1_000_000 {
        let ghost d0 = dst@;
        append_utoa(dst, nanos / 1_000);
        dst.push(0xC2);
        dst.push(0xB5);
        dst.push(115);
        assert(dst@ =~= d0 + (decimal((nanos / 1_000) as nat) + seq![0xC2u8, 0xB5u8, 115u8]));
    } else if nanos < 1_000_000_000 {
        append_utoa(dst, nanos / 1_000_000);
        append_str(dst, "ms");
    } else {
        let total = nanos / 1_000_000_000;
        let n = nanos % 1_000_000_000;
        let hours = total / 3600;
        let minutes = total % 3600 / 60;
        let seconds = total % 60;
        let ghost d0 = dst@;
        if hours > 0 {
            append_utoa(dst, hours);
            append_str(dst, "h");
        }
        let ghost d1 = dst@;
        if minutes > 0 {
            append_utoa(dst, minutes);
            append_str(dst, "m");
        }
        let ghost d2 = dst@;
        if seconds > 0 || n > 0 {
            if n == 0 {
                append_utoa(dst, seconds);
                append_str(dst, "s");
            } else {
                append_utoa(dst, seconds);
                append_fraction(dst, n);
                append_str(dst, "s");
            }
        }
        proof {
            let hs = if hours > 0 { decimal(hours as nat) + lit("h") } else { Seq::empty() };
            let ms = if minutes > 0 { decimal(minutes as nat) + lit("m") } else { Seq::empty() };
            assert(d1 == d0 + hs);
            assert(d2 == d1 + ms);
        }
    }
}

/// Appends the fraction of a second `n` (below one second, not zero).
fn append_fraction(dst: &mut Vec<u8>, n: u64)
    requires
        0 < n < 1_000_000_000,
    ensures
        final(dst)@ == old(dst)@ + fraction_text(n as nat),
{
    let mut buf: Vec<u8> = Vec::new();
    append_utoa(&mut buf, 1_000_000_000 + n);
    proof {
        lemma_decimal_ten_digits(n as nat);
    }
    let mut end: usize = 10;
    while end > 1 && buf[end - 1] == 48
        invariant
            1 <= end <= 10,
            buf@ == decimal((1_000_000_000 + n) as nat),
            buf@.len() == 10,
            trim_zeros(nine_digits(n as nat)) == trim_zeros(buf@.subrange(1, end as int)),
        decreases end,
    {
        proof {
            let t = buf@.subrange(1, end as int);
            assert(t.drop_last() == buf@.subrange(1, end - 1));
        }
        end -= 1;
    }
    proof {
        let t = buf@.subrange(1, end as int);
        if end > 1 {
            assert(t[t.len() - 1] != 48);
        }
        assert(trim_zeros(t) == t);
    }
    if end > 1 {
        dst.push(46);
        append(dst, vstd::slice::slice_subrange(buf.as_slice(), 1, end));
    }
}

// ---------------------------------------------------------------------------
// points in time
// ---------------------------------------------------------------------------

/// The civil fields of a point in time, as shown.
#[derive(Debug, Clone, Copy, PartialEq, Eq, Structural)]
pub struct TimeParts {
    pub year: i16,
    pub month: i8,
    pub day: i8,
    pub hour: i8,
    pub minute: i8,
    pub second: i8,
    pub millisecond: i16,
}

/// The ranges in which every civil field lies.
pub open spec fn time_parts_valid(p: TimeParts) -> bool {
    &&& -9999 <= p.year <= 9999
    &&& 1 <= p.month <= 12
    &&& 1 <= p.day <= 31
    &&& 0 <= p.hour <= 23
    &&& 0 <= p.minute <= 59
    &&& 0 <= p.second <= 59
    &&& 0 <= p.millisecond <= 999
}

/// A field below 100 with a leading zero when it has one digit.
pub open spec fn pad2(v: nat) -> Seq<u8> {
    if v < 10 {
        seq![48u8] + decimal(v)
    } else {
        decimal(v)
    }
}

/// Milliseconds with leading zeros to three digits.
pub open spec fn pad3(v: nat) -> Seq<u8> {
    if v < 10 {
        seq![48u8, 48u8] + decimal(v)
    } else if v < 100 {
        seq![48u8] + decimal(v)
    } else {
        decimal(v)
    }
}

/// `YYYY-MM-DD hh:mm:ss.mmm` for the given civil fields.
pub open spec fn time_text(p: TimeParts) -> Seq<u8> {
    decimal_signed(p.year as int) + seq![45u8] + pad2(p.month as nat) + seq![45u8] + pad2(p.day as nat)
        + seq![32u8] + pad2(p.hour as nat) + seq![58u8] + pad2(p.minute as nat) + seq![58u8]
        + pad2(p.second as nat) + seq![46u8] + pad3(p.millisecond as nat)
}

fn append_pad2(dst: &mut Vec<u8>, v: i8)
    requires
        0 <= v <= 99,
    ensures
        final(dst)@ == old(dst)@ + pad2(v as nat),
{
    if v < 10 {
        dst.push(48);
    }
    append_utoa(dst, v as u64);
}

/// Appends `v` with a leading zero when it has one digit, after the separator `sep`.
fn append_sep_pad2(dst: &mut Vec<u8>, sep: u8, v: i8)
    requires
        0 <= v <= 99,
    ensures
        final(dst)@ == old(dst)@ + seq![sep] + pad2(v as nat),
{
    dst.push(sep);
    append_pad2(dst, v);
}

fn append_pad3(dst: &mut Vec<u8>, v: i16)
    requires
        0 <= v <= 999,
    ensures
        final(dst)@ == old(dst)@ + pad3(v as nat),
{
    if v < 100 {
        dst.push(48);
        if v < 10 {
            dst.push(48);
        }
    }
    append_utoa(dst, v as u64);
}

/// Appends the civil fields as `YYYY-MM-DD hh:mm:ss.mmm`.
pub fn render_time_parts(dst: &mut Vec<u8>, p: TimeParts)
    requires
        time_parts_valid(p),
    ensures
        final(dst)@ == old(dst)@ + time_text(p),
{
    let ghost d0 = dst@;
    append_itoa(dst, p.year as i64);
    append_sep_pad2(dst, 45, p.month);
    append_sep_pad2(dst, 45, p.day);
    append_sep_pad2(dst, 32, p.hour);
    append_sep_pad2(dst, 58, p.minute);
    append_sep_pad2(dst, 58, p.second);
    dst.push(46);
    append_pad3(dst, p.millisecond);
    proof {
        assert(dst@ == d0 + decimal_signed(p.year as int) + seq![45u8] + pad2(p.month as nat)
            + seq![45u8] + pad2(p.day as nat) + seq![32u8] + pad2(p.hour as nat) + seq![58u8]
            + pad2(p.minute as nat) + seq![58u8] + pad2(p.second as nat) + seq![46u8]
            + pad3(p.millisecond as nat));
    }
}

/// The date (year, month, day) of the day `days` days after 1970-01-01 in the
/// proleptic Gregorian calendar.
pub open spec fn civil_from_days(days: int) -> (int, int, int) {
    let z = days + 719468;
    let era = z / 146097;
    let doe = z - era * 146097;
    let yoe = (doe - doe / 1460 + doe / 36524 - doe / 146096) / 365;
    let doy = doe - (365 * yoe + yoe / 4 - yoe / 100);
    let mp = (5 * doy + 2) / 153;
    let d = doy - (153 * mp + 2) / 5 + 1;
    let m = if mp < 10 { mp + 3 } else { mp - 9 };
    (yoe + era * 400 + (if m <= 2 { 1int } else { 0int }), m, d)
}

/// The civil fields of a wall-clock instant given in nanoseconds after
/// 1970-01-01 00:00:00 of the same clock.
pub open spec fn civil_parts(local_nanos: int) -> TimeParts {
    let secs = local_nanos / 1_000_000_000;
    let sod = secs % 86400;
    let ymd = civil_from_days(secs / 86400);
    TimeParts {
        year: ymd.0 as i16,
        month: ymd.1 as i8,
        day: ymd.2 as i8,
        hour: (sod / 3600) as i8,
        minute: (sod % 3600 / 60) as i8,
        second: (sod % 60) as i8,
        millisecond: (local_nanos % 1_000_000_000 / 1_000_000) as i16,
    }
}

/// Whether `p` is the civil time of the instant `nanos` (nanoseconds after the
/// Unix epoch) at some time-zone offset: a whole number of seconds within
/// ±25:59:59, the range of offsets that jiff admits.
pub open spec fn civil_time_of(nanos: int, p: TimeParts) -> bool {
    exists|off: int| -93_599 <= off <= 93_599 && p == #[trigger] civil_at_offset(nanos, off)
}

/// The civil fields of the instant `nanos` at the offset of `off` seconds from UTC.
pub open spec fn civil_at_offset(nanos: int, off: int) -> TimeParts {
    civil_parts(nanos + off * 1_000_000_000)
}

/// Calls `jiff::Timestamp::new(secs, nsecs)`, turns the timestamp into civil time in
/// the system's time zone (`to_zoned(jiff::tz::TimeZone::system())`) and returns the
/// civil fields. Trusted: the fields are the civil time of the instant
/// `secs` seconds and `nsecs` nanoseconds after the Unix epoch at the zone's offset,
/// which jiff keeps within ±25:59:59 and in whole seconds, and they lie in the
/// ranges that jiff documents (year -9999 to 9999, month 1-12, day 1-31, hour,
/// minute, second, millisecond 0-999). Which offset applies is not stated: it rests
/// on the machine's time zone. `secs` stays far inside the range that
/// `Timestamp::new` accepts, so the call does not fail.
#[verifier::external_body]
fn local_time_parts(secs: i64, nsecs: i32) -> (p: TimeParts)
    requires
        -9_300_000_000 <= secs <= 9_300_000_000,
        -1_000_000_000 < nsecs < 1_000_000_000,
    ensures
        time_parts_valid(p),
        civil_time_of(secs * 1_000_000_000 + nsecs, p),
{
    let ts = jiff::Timestamp::new(secs, nsecs).unwrap();
    let z = ts.to_zoned(jiff::tz::TimeZone::system());
    TimeParts {
        year: z.year(),
        month: z.month(),
        day: z.day(),
        hour: z.hour(),
        minute: z.minute(),
        second: z.second(),
        millisecond: z.millisecond(),
    }
}

/// The civil fields of the instant `nanos` nanoseconds after the Unix epoch, in the
/// machine's time zone.
pub fn time_parts(nanos: i64) -> (p: TimeParts)
    ensures
        time_parts_valid(p),
        civil_time_of(nanos as int, p),
{
    let secs = nanos / 1_000_000_000;
    let nsecs = (nanos % 1_000_000_000) as i32;
    assert(secs * 1_000_000_000 + nsecs == nanos);
    local_time_parts(secs, nsecs)
}

/// Appends the instant `nanos` nanoseconds after the Unix epoch as local civil time
/// `YYYY-MM-DD hh:mm:ss.mmm`.
pub fn render_time(dst: &mut Vec<u8>, nanos: i64)
    ensures
        exists|p: TimeParts| time_parts_valid(p) && civil_time_of(nanos as int, p)
            && final(dst)@ == old(dst)@ + time_text(p),
{
    let p = time_parts(nanos);
    render_time_parts(dst, p);
}

} // verus!
