//! Appending to byte buffers and bounded reads from byte slices.
use vstd::prelude::*;
use vstd::string::StringSliceAdditionalSpecFns;
use crate::log_parse::{lemma_uvarint_at_fits, lemma_uvarint_at_prefix, uvarint_at, read_uvarint_checked, uvarint_encode, write_uvarint};

verus! {

/// The bytes of a string literal.
pub open spec fn lit(s: &str) -> Seq<u8> {
    s.spec_bytes()
}

/// The bytes of the words `true` and `false`.
pub proof fn lemma_lit_bools()
    ensures
        lit("true") == seq![116u8, 114u8, 117u8, 101u8],
        lit("false") == seq![102u8, 97u8, 108u8, 115u8, 101u8],
{
    reveal_strlit("true");
    reveal_strlit("false");
    assert(vstd::string::is_ascii("true"));
    assert(vstd::string::is_ascii("false"));
    vstd::string::is_ascii_spec_bytes("true");
    vstd::string::is_ascii_spec_bytes("false");
    assert(lit("true") =~= seq![116u8, 114u8, 117u8, 101u8]);
    assert(lit("false") =~= seq![102u8, 97u8, 108u8, 115u8, 101u8]);
}

/// `len` bytes of `s` from `off`, or nothing when they do not all lie inside `s`.
pub open spec fn bytes_at(s: Seq<u8>, off: int, len: int) -> Seq<u8> {
    if 0 <= off && 0 <= len && off + len <= s.len() {
        s.subrange(off, off + len)
    } else {
        Seq::empty()
    }
}

/// The little-endian unsigned integer of the `n` bytes of `s` from `off`.
pub open spec fn le_at(s: Seq<u8>, off: int, n: nat) -> nat
    decreases n,
{
    if n == 0 {
        0
    } else {
        s[off] as nat + 256 * le_at(s, off + 1, (n - 1) as nat)
    }
}

/// The little-endian integer of `n` bytes from `off`, 0 when they do not all lie inside `s`.
pub open spec fn le_or_zero(s: Seq<u8>, off: int, n: nat) -> nat {
    if 0 <= off && off + n <= s.len() {
        le_at(s, off, n)
    } else {
        0
    }
}

/// 256 to the power `n`.
pub open spec fn p256(n: nat) -> nat
    decreases n,
{
    if n == 0 {
        1
    } else {
        256 * p256((n - 1) as nat)
    }
}

pub proof fn lemma_le_at_bound(s: Seq<u8>, off: int, n: nat)
    ensures
        le_at(s, off, n) < p256(n),
    decreases n,
{
    if n > 0 {
        lemma_le_at_bound(s, off + 1, (n - 1) as nat);
        let a = s[off] as nat;
        let r = le_at(s, off + 1, (n - 1) as nat);
        assert(a + 256 * r < 256 * p256((n - 1) as nat)) by (nonlinear_arith)
            requires a < 256, r < p256((n - 1) as nat);
    }
}

/// Appends all of `src` to `dst`.
pub fn append(dst: &mut Vec<u8>, src: &[u8])
    ensures
        final(dst)@ == old(dst)@ + src@,
{
    let mut i: usize = 0;
    while i < src.len()
        invariant
            i <= src@.len(),
            dst@ == old(dst)@ + src@.subrange(0, i as int),
        decreases src@.len() - i,
    {
        dst.push(src[i]);
        i += 1;
        assert(src@.subrange(0, i as int) == src@.subrange(0, i - 1) + seq![src@[i - 1]]);
    }
    assert(src@.subrange(0, src@.len() as int) == src@);
}

/// Appends the bytes of the string `s` to `dst`.
pub fn append_str(dst: &mut Vec<u8>, s: &str)
    ensures
        final(dst)@ == old(dst)@ + lit(s),
{
    append(dst, s.as_bytes());
}

/// Appends one byte.
pub fn append_byte(dst: &mut Vec<u8>, c: u8)
    ensures
        final(dst)@ == old(dst)@.push(c),
{
    dst.push(c);
}

/// Appends `s` between double quotes.
pub fn append_quoted(dst: &mut Vec<u8>, s: &[u8])
    ensures
        final(dst)@ == old(dst)@ + seq![34u8] + s@ + seq![34u8],
{
    dst.push(34);
    append(dst, s);
    dst.push(34);
}

/// Appends the `n` low bytes of `v`, least significant first.
pub fn append_le(dst: &mut Vec<u8>, v: u64, n: usize)
    requires
        n <= 8,
    ensures
        final(dst)@.len() == old(dst)@.len() + n,
        final(dst)@.subrange(0, old(dst)@.len() as int) == old(dst)@,
        le_at(final(dst)@, old(dst)@.len() as int, n as nat) == v as nat % p256(n as nat),
{
    let ghost d0 = dst@;
    let mut x: u64 = v;
    let mut i: usize = 0;
    assert(p256(0) == 1);
    assert(le_at(dst@, d0.len() as int, 0) == 0);
    assert(v as nat * p256(0) == v as nat) by (nonlinear_arith)
        requires p256(0) == 1;
    while i < n
        invariant
            i <= n <= 8,
            dst@.len() == d0.len() + i,
            dst@.subrange(0, d0.len() as int) == d0,
            x as nat * p256(i as nat) + le_at(dst@, d0.len() as int, i as nat) == v as nat,
            d0 == old(dst)@,
        decreases n - i,
    {
        let ghost before = dst@;
        dst.push((x % 256) as u8);
        proof {
            assert forall|j: int| 0 <= j < before.len() implies #[trigger] dst@[j] == before[j] by {}
            lemma_le_prefix(before, dst@, d0.len() as int, i as nat);
            lemma_le_append(dst@, d0.len() as int, i as nat);
            assert(p256((i + 1) as nat) == 256 * p256(i as nat));
            assert(dst@[d0.len() + i] == (x % 256) as u8);
            let lo = le_at(dst@, d0.len() as int, i as nat);
            assert((x / 256) as nat * p256((i + 1) as nat) + (lo + (x % 256) as nat * p256(i as nat))
                == x as nat * p256(i as nat) + lo) by (nonlinear_arith)
                requires p256((i + 1) as nat) == 256 * p256(i as nat);
            assert(dst@.subrange(0, d0.len() as int) == before.subrange(0, d0.len() as int));
        }
        x = x / 256;
        i += 1;
    }
    proof {
        lemma_le_at_bound(dst@, d0.len() as int, n as nat);
        let lo = le_at(dst@, d0.len() as int, n as nat);
        assert(v as nat % p256(n as nat) == lo) by (nonlinear_arith)
            requires v as nat == x as nat * p256(n as nat) + lo, lo < p256(n as nat), p256(n as nat) > 0;
    }
}

proof fn lemma_le_prefix(a: Seq<u8>, b: Seq<u8>, off: int, n: nat)
    requires
        0 <= off,
        off + n <= a.len(),
        off + n <= b.len(),
        a.len() <= b.len(),
        forall|j: int| 0 <= j < a.len() ==> #[trigger] b[j] == a[j],
    ensures
        le_at(a, off, n) == le_at(b, off, n),
    decreases n,
{
    if n > 0 {
        lemma_le_prefix(a, b, off + 1, (n - 1) as nat);
    }
}

proof fn lemma_le_append(s: Seq<u8>, off: int, n: nat)
    requires
        0 <= off,
        off + n < s.len(),
    ensures
        le_at(s, off, n + 1) == le_at(s, off, n) + s[off + n] as nat * p256(n),
    decreases n,
{
    if n == 0 {
        assert(le_at(s, off + 1, 0) == 0);
        assert(p256(0) == 1);
    } else {
        lemma_le_append(s, off + 1, (n - 1) as nat);
        assert(off + 1 + (n - 1) == off + n);
        let a = s[off] as nat;
        let r1 = le_at(s, off + 1, (n - 1) as nat);
        let d = s[off + n] as nat;
        assert(a + 256 * (r1 + d * p256((n - 1) as nat)) == (a + 256 * r1) + d * p256(n)) by (nonlinear_arith)
            requires p256(n) == 256 * p256((n - 1) as nat);
    }
}

/// Appends the uvarint encoding of `v`.
pub fn append_uvarint(dst: &mut Vec<u8>, v: u64)
    ensures
        final(dst)@ == old(dst)@ + uvarint_encode(v as nat),
{
    write_uvarint(v, dst);
}

/// The `len` bytes of `src` from `off`, or an empty slice when they do not all lie
/// inside `src`.
pub fn sub_slice<'a>(src: &'a [u8], off: usize, len: usize) -> (r: &'a [u8])
    ensures
        r@ == bytes_at(src@, off as int, len as int),
{
    if off <= src.len() && len <= src.len() - off {
        vstd::slice::slice_subrange(src, off, off + len)
    } else {
        vstd::slice::slice_subrange(src, 0, 0)
    }
}

/// The little-endian integer of the `n` bytes from `off`, 0 when they do not all
/// lie inside `src`.
pub fn read_le(src: &[u8], off: usize, n: usize) -> (v: u64)
    requires
        n <= 8,
    ensures
        v as nat == le_or_zero(src@, off as int, n as nat),
{
    if off > src.len() || n > src.len() - off {
        return 0;
    }
    let mut i: usize = n;
    let mut v: u64 = 0;
    proof {
        lemma_le_at_bound(src@, off as int, n as nat);
    }
    while i > 0
        invariant
            i <= n <= 8,
            off + n <= src@.len(),
            off + n <= src.len(),
            v as nat == le_at(src@, (off + i) as int, (n - i) as nat),
            le_at(src@, off as int, n as nat) < p256(n as nat),
        decreases i,
    {
        proof {
            lemma_le_at_bound(src@, (off + i) as int, (n - i) as nat);
            lemma_p256_le8((n - i) as nat);
            assert(le_at(src@, (off + i - 1) as int, (n - i + 1) as nat)
                == src@[(off + i - 1) as int] as nat + 256 * le_at(src@, (off + i) as int, (n - i) as nat));
            lemma_le_at_bound(src@, (off + i - 1) as int, (n - i + 1) as nat);
            lemma_p256_le8((n - i + 1) as nat);
        }
        let b = src[off + i - 1];
        v = (b as u64) + 256 * v;
        i -= 1;
    }
    v
}

proof fn lemma_p256_le8(n: nat)
    requires
        n <= 8,
    ensures
        p256(n) <= 0x1_0000_0000_0000_0000,
    decreases n,
{
    reveal_with_fuel(p256, 9);
    if n < 8 {
        lemma_p256_mono(n, 8);
    }
}

pub proof fn lemma_p256_mono(a: nat, b: nat)
    requires
        a <= b,
    ensures
        p256(a) <= p256(b),
    decreases b,
{
    if a < b {
        lemma_p256_mono(a, (b - 1) as nat);
    }
}

/// Copies the uvarint at `off` in `src` to `dst`; returns the offset right after it.
pub fn copy_uvarint(dst: &mut Vec<u8>, src: &[u8], off: usize) -> (r: Option<usize>)
    ensures
        match uvarint_at(src@, off as int) {
            Some((v, n)) => r == Some((off + n) as usize)
                && final(dst)@ == old(dst)@ + src@.subrange(off as int, off + n),
            None => r is None && final(dst)@ == old(dst)@,
        },
{
    match read_uvarint_checked(src, off) {
        Some((_v, n)) => {
            append(dst, vstd::slice::slice_subrange(src, off, off + n));
            Some(off + n)
        },
        None => None,
    }
}

/// The string at `off`: its uvarint length and then that many bytes.
pub open spec fn str_at(s: Seq<u8>, off: int) -> Option<(int, int)> {
    match uvarint_at(s, off) {
        Some((len, n)) => if off + n + len <= s.len() {
            Some((off + n, off + n + len))
        } else {
            None
        },
        None => None,
    }
}

/// A length-prefixed string reads the same from any prefix of the buffer that
/// holds it whole.
pub proof fn lemma_str_at_prefix(s: Seq<u8>, len: int, off: int)
    requires
        0 <= len <= s.len(),
        str_at(s, off) matches Some((_a, b)) && b <= len,
    ensures
        str_at(s.subrange(0, len), off) == str_at(s, off),
{
    lemma_uvarint_at_fits(s, off);
    lemma_uvarint_at_prefix(s, len, off);
}

/// A little-endian integer reads the same from any prefix of the buffer that
/// holds it whole.
pub proof fn lemma_le_at_prefix(s: Seq<u8>, len: int, off: int, n: nat)
    requires
        0 <= off,
        off + n <= len <= s.len(),
    ensures
        le_at(s.subrange(0, len), off, n) == le_at(s, off, n),
    decreases n,
{
    if n > 0 {
        lemma_le_at_prefix(s, len, off + 1, (n - 1) as nat);
    }
}

/// Copies the length-prefixed string at `off` in `src` to `dst`, length included;
/// returns the offset right after it.
pub fn copy_str(dst: &mut Vec<u8>, src: &[u8], off: usize) -> (r: Option<usize>)
    ensures
        match str_at(src@, off as int) {
            Some((_start, end)) => r == Some(end as usize)
                && final(dst)@ == old(dst)@ + src@.subrange(off as int, end),
            None => r is None && final(dst)@ == old(dst)@,
        },
{
    match read_uvarint_checked(src, off) {
        Some((len, n)) => {
            let start = off + n;
            if len > (src.len() - start) as u64 {
                return None;
            }
            let end = start + len as usize;
            append(dst, vstd::slice::slice_subrange(src, off, end));
            Some(end)
        },
        None => None,
    }
}

/// Copies `count` bytes from `off` in `src` to `dst`; returns the offset right after them.
pub fn copy(dst: &mut Vec<u8>, src: &[u8], off: usize, count: usize) -> (r: Option<usize>)
    ensures
        if off + count <= src@.len() {
            r == Some((off + count) as usize) && final(dst)@ == old(dst)@ + src@.subrange(off as int, off + count)
        } else {
            r is None && final(dst)@ == old(dst)@
        },
{
    if off > src.len() || count > src.len() - off {
        return None;
    }
    append(dst, vstd::slice::slice_subrange(src, off, off + count));
    Some(off + count)
}

} // verus!
