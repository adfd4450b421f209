//! Record framing and the variable-length integer codecs of the blog wire format.
//!
//! A framed record is laid out as
//!
//! | 0xFF | CRC32C(record), 4 bytes LE | 0xFE | uvarint(len(record)) | record |
//!
//! Integers inside a record are unsigned LEB128 ("uvarint"), at most ten bytes long,
//! and signed values use the zigzag mapping on top of it.
use vstd::prelude::*;
use crate::crc32custom::{crc32c_append_spec, fast_crc32c};

verus! {

/// Log parsing error states.
#[derive(Copy, Clone, Debug, PartialEq, Eq)]
pub enum ErrorLogParse {
    /// Missing the `| 0xFF | CRC32 | 0xFE |` header: fewer than seven bytes at hand.
    NoHeader,
    /// Log data must start with 0xFF, got something different.
    StartMarkerInvalid(u8),
    /// Log data must have 0xFE byte on its sixth position, right after CRC32.
    TailMarkerInvalid(u8),
    /// Record length in uvarint encoding is either cut or something is off with it.
    RecordLengthInvalid,
    /// Record length is out of limit.
    RecordLengthTooLarge,
    /// The rest of data does not have the entire record. Need to read more.
    RecordNeedMore,
    /// Record data does not match the CRC.
    RecordCRCMismatch,
    /// Record data has unsupported version.
    RecordVersionNotSupported(u16),
    /// Record data has unsupported level.
    RecordLevelNotSupported(u8),
    /// Context node type is unknown.
    RecordContextNodeType(u8),
    /// Context predefined key is unknown.
    RecordContextNodePredefinedKeyUnknown(u32),
    /// A field of the record runs past the end of the record, or a group end
    /// has no matching group start.
    RecordTruncated,
}

// ---------------------------------------------------------------------------
// uvarint model
// ---------------------------------------------------------------------------

/// 128 to the power `n`.
pub open spec fn p128(n: nat) -> nat
    decreases n,
{
    if n == 0 {
        1
    } else {
        128 * p128((n - 1) as nat)
    }
}

/// The number carried by the `n` LEB128 digits `s[off], ..., s[off + n - 1]`,
/// least significant digit first (each digit is the low seven bits of its byte).
pub open spec fn leb_sum(s: Seq<u8>, off: int, n: nat) -> nat
    decreases n,
{
    if n == 0 {
        0
    } else {
        (s[off] % 128) as nat + 128 * leb_sum(s, off + 1, (n - 1) as nat)
    }
}

/// Position (counted from `off`) right after the first byte below 0x80 among the
/// `lim - i` bytes `s[off + i], ..., s[off + lim - 1]`.
pub open spec fn uvarint_scan(s: Seq<u8>, off: int, i: nat, lim: nat) -> Option<nat>
    decreases lim - i,
{
    if i >= lim {
        None
    } else if s[off + i] < 128 {
        Some(i + 1)
    } else {
        uvarint_scan(s, off, i + 1, lim)
    }
}

/// A uvarint never spans more than ten bytes.
pub open spec fn uvarint_limit(avail: int) -> nat {
    if avail > 10 {
        10
    } else if avail < 0 {
        0
    } else {
        avail as nat
    }
}

/// The size of the uvarint that starts at `off`, reading at most `avail` bytes.
pub open spec fn uvarint_size(s: Seq<u8>, off: int, avail: int) -> Option<nat> {
    uvarint_scan(s, off, 0, uvarint_limit(avail))
}

/// The value of the `n`-byte uvarint at `off`, truncated to 64 bits.
pub open spec fn uvarint_value(s: Seq<u8>, off: int, n: nat) -> u64 {
    (leb_sum(s, off, n) % 0x1_0000_0000_0000_0000) as u64
}

/// The uvarint at `off` as (value, size), if a complete one starts there.
pub open spec fn uvarint_at(s: Seq<u8>, off: int) -> Option<(u64, nat)> {
    if 0 <= off <= s.len() {
        match uvarint_size(s, off, s.len() - off) {
            Some(n) => Some((uvarint_value(s, off, n), n)),
            None => None,
        }
    } else {
        None
    }
}

/// The LEB128 encoding of `v`.
pub open spec fn uvarint_encode(v: nat) -> Seq<u8>
    decreases v,
{
    if v < 128 {
        seq![v as u8]
    } else {
        seq![(v % 128 + 128) as u8] + uvarint_encode(v / 128)
    }
}

/// Zigzag mapping of a signed integer onto the naturals.
pub open spec fn zigzag(v: int) -> nat {
    if v >= 0 {
        (2 * v) as nat
    } else {
        (-2 * v - 1) as nat
    }
}

/// Inverse of [zigzag].
pub open spec fn unzigzag(u: nat) -> int {
    if u % 2 == 0 {
        (u / 2) as int
    } else {
        -((u / 2) as int) - 1
    }
}

// ---------------------------------------------------------------------------
// lemmas about the model
// ---------------------------------------------------------------------------

proof fn lemma_leb_sum_step(s: Seq<u8>, off: int, n: nat)
    ensures
        leb_sum(s, off, n + 1) == leb_sum(s, off, n) + (s[off + n] % 128) as nat * p128(n),
    decreases n,
{
    if n == 0 {
        assert(leb_sum(s, off + 1, 0) == 0);
        assert(p128(0) == 1);
        assert(leb_sum(s, off, 1) == (s[off] % 128) as nat + 128 * leb_sum(s, off + 1, 0));
    } else {
        lemma_leb_sum_step(s, off + 1, (n - 1) as nat);
        assert(off + 1 + (n - 1) == off + n);
        let d = (s[off + n] % 128) as nat;
        let a = (s[off] % 128) as nat;
        let r1 = leb_sum(s, off + 1, (n - 1) as nat);
        assert(leb_sum(s, off + 1, n) == r1 + d * p128((n - 1) as nat));
        assert(leb_sum(s, off, n + 1) == a + 128 * leb_sum(s, off + 1, n));
        assert(leb_sum(s, off, n) == a + 128 * r1);
        assert(a + 128 * (r1 + d * p128((n - 1) as nat)) == (a + 128 * r1) + d * p128(n)) by (nonlinear_arith)
            requires p128(n) == 128 * p128((n - 1) as nat);
    }
}

proof fn lemma_leb_sum_bound(s: Seq<u8>, off: int, n: nat)
    ensures
        leb_sum(s, off, n) < p128(n),
    decreases n,
{
    if n > 0 {
        lemma_leb_sum_bound(s, off + 1, (n - 1) as nat);
        let a = (s[off] % 128) as nat;
        let r = leb_sum(s, off + 1, (n - 1) as nat);
        assert(a + 128 * r < 128 * p128((n - 1) as nat)) by (nonlinear_arith)
            requires a < 128, r < p128((n - 1) as nat);
    }
}

proof fn lemma_p128_values()
    ensures
        p128(9) == 0x8000_0000_0000_0000,
        p128(10) == 0x4000_0000_0000_0000_00,
{
    reveal_with_fuel(p128, 11);
}

proof fn lemma_p128_mono(a: nat, b: nat)
    requires
        a <= b,
    ensures
        p128(a) <= p128(b),
    decreases b,
{
    if a < b {
        lemma_p128_mono(a, (b - 1) as nat);
    }
}

proof fn lemma_encode_shape(v: nat)
    ensures
        uvarint_encode(v).len() >= 1,
        forall|i: int| 0 <= i < uvarint_encode(v).len() - 1 ==> #[trigger] uvarint_encode(v)[i] >= 128,
        uvarint_encode(v)[uvarint_encode(v).len() - 1] < 128,
        leb_sum(uvarint_encode(v), 0, uvarint_encode(v).len()) == v,
        v < p128((uvarint_encode(v).len() - 1) as nat) * 128,
        uvarint_encode(v).len() > 1 ==> v >= p128((uvarint_encode(v).len() - 1) as nat),
    decreases v,
{
    if v >= 128 {
        let rest = uvarint_encode(v / 128);
        lemma_encode_shape(v / 128);
        let e = uvarint_encode(v);
        assert(e == seq![(v % 128 + 128) as u8] + rest);
        assert forall|i: int| 0 <= i < e.len() - 1 implies #[trigger] e[i] >= 128 by {
            if i > 0 {
                assert(e[i] == rest[i - 1]);
            }
        }
        assert(e[e.len() - 1] == rest[rest.len() - 1]);
        lemma_leb_sum_shift(e, rest);
        let k = (rest.len() - 1) as nat;
        assert(v / 128 < p128(k) * 128);
        assert(p128(k + 1) == 128 * p128(k));
        assert(v < p128(k + 1) * 128) by (nonlinear_arith)
            requires v / 128 < p128(k) * 128, p128(k + 1) == 128 * p128(k);
        if rest.len() > 1 {
            assert(v / 128 >= p128(k));
            assert(v >= p128(k + 1)) by (nonlinear_arith)
                requires v / 128 >= p128(k), p128(k + 1) == 128 * p128(k);
        } else {
            assert(p128(1) == 128);
        }
    } else {
        let e = uvarint_encode(v);
        assert(e =~= seq![v as u8]);
        assert(leb_sum(e, 1, 0) == 0);
        assert(leb_sum(e, 0, 1) == v);
    }
}

proof fn lemma_leb_sum_shift(e: Seq<u8>, rest: Seq<u8>)
    requires
        e.len() == rest.len() + 1,
        forall|i: int| 0 <= i < rest.len() ==> e[i + 1] == rest[i],
    ensures
        leb_sum(e, 0, e.len()) == (e[0] % 128) as nat + 128 * leb_sum(rest, 0, rest.len()),
{
    assert(e.subrange(1, 1 + rest.len() as int) =~= rest.subrange(0, rest.len() as int));
    lemma_leb_sum_offset(e, rest, 1, 0, rest.len());
}

proof fn lemma_leb_sum_offset(a: Seq<u8>, b: Seq<u8>, oa: int, ob: int, n: nat)
    requires
        0 <= oa,
        oa + n <= a.len(),
        0 <= ob,
        ob + n <= b.len(),
        a.subrange(oa, oa + n) == b.subrange(ob, ob + n),
    ensures
        leb_sum(a, oa, n) == leb_sum(b, ob, n),
    decreases n,
{
    if n > 0 {
        assert(a[oa] == a.subrange(oa, oa + n)[0]);
        assert(b[ob] == b.subrange(ob, ob + n)[0]);
        assert(a.subrange(oa + 1, oa + n) == a.subrange(oa, oa + n).subrange(1, n as int));
        assert(b.subrange(ob + 1, ob + n) == b.subrange(ob, ob + n).subrange(1, n as int));
        lemma_leb_sum_offset(a, b, oa + 1, ob + 1, (n - 1) as nat);
    }
}

/// The scan of a sequence whose first `n - 1` bytes continue and whose `n`-th stops.
proof fn lemma_scan_terminated(s: Seq<u8>, off: int, i: nat, n: nat, lim: nat)
    requires
        i < n <= lim,
        forall|j: int| i <= j < n - 1 ==> #[trigger] s[off + j] >= 128,
        s[off + n - 1] < 128,
    ensures
        uvarint_scan(s, off, i, lim) == Some(n),
    decreases n - i,
{
    if i < n - 1 {
        assert(s[off + i] >= 128);
        lemma_scan_terminated(s, off, i + 1, n, lim);
    }
}

// ---------------------------------------------------------------------------
// laws
// ---------------------------------------------------------------------------

/// The sum of the low seven bits of the `n` bytes from `off`, byte `j` weighted by
/// `128^j`.
pub open spec fn leb_terms(s: Seq<u8>, off: int, n: nat) -> nat
    decreases n,
{
    if n == 0 {
        0
    } else {
        leb_terms(s, off, (n - 1) as nat) + (s[off + n - 1] % 128) as nat * p128((n - 1) as nat)
    }
}

/// The value that a uvarint read gives is the sum form: the low seven bits of each
/// byte `j` weighted by `128^j`, taken modulo 2^64.
pub proof fn law_uvarint_sum_form(s: Seq<u8>, off: int, n: nat)
    ensures
        leb_sum(s, off, n) == leb_terms(s, off, n),
        uvarint_value(s, off, n) == leb_terms(s, off, n) % 0x1_0000_0000_0000_0000,
    decreases n,
{
    if n > 0 {
        law_uvarint_sum_form(s, off, (n - 1) as nat);
        lemma_leb_sum_step(s, off, (n - 1) as nat);
    }
}

/// The shape of an encoding: one to ten bytes, every byte but the last with its
/// high bit set, the last without; its length is the least `n` with
/// `v < 128^n`, which is what `uvarint_bytes` gives.
pub proof fn law_uvarint_shape(v: u64)
    ensures
        1 <= uvarint_encode(v as nat).len() <= 10,
        forall|i: int| 0 <= i < uvarint_encode(v as nat).len() - 1 ==> #[trigger] uvarint_encode(v as nat)[i] >= 128,
        uvarint_encode(v as nat)[uvarint_encode(v as nat).len() - 1] < 128,
        v < p128(uvarint_encode(v as nat).len()),
        uvarint_encode(v as nat).len() > 1 ==> v >= p128((uvarint_encode(v as nat).len() - 1) as nat),
{
    lemma_encode_shape(v as nat);
    law_uvarint_roundtrip(v, Seq::empty(), Seq::empty());
    let n = uvarint_encode(v as nat).len();
    assert(p128(n) == 128 * p128((n - 1) as nat));
}

/// A bounded read of an encoding gives back the value and the encoding's size
/// whenever the bound lets it see the whole encoding.
pub proof fn law_uvarint_bounded_roundtrip(v: u64, suffix: Seq<u8>, lim: int)
    requires
        lim >= uvarint_encode(v as nat).len(),
    ensures
        ({
            let s = uvarint_encode(v as nat) + suffix;
            let n = uvarint_encode(v as nat).len();
            &&& uvarint_size(s, 0, reach(s.len() as int, 0, lim)) == Some(n)
            &&& uvarint_value(s, 0, n) == v
        }),
{
    let e = uvarint_encode(v as nat);
    let s = e + suffix;
    law_uvarint_roundtrip(v, Seq::empty(), suffix);
    assert(Seq::<u8>::empty() + e + suffix =~= s);
    let n = e.len();
    assert(n <= uvarint_limit(reach(s.len() as int, 0, lim)));
    assert forall|j: int| 0 <= j < 0 + n implies #[trigger] s[j] == s[j] by {}
    lemma_scan_prefix(s, s, 0, 0, uvarint_limit(s.len() as int), uvarint_limit(reach(s.len() as int, 0, lim)));
}

/// Every 64-bit value is encoded in at most ten bytes, and decoding its encoding,
/// wherever it stands in a buffer, gives back the value and the encoding's size.
pub proof fn law_uvarint_roundtrip(v: u64, prefix: Seq<u8>, suffix: Seq<u8>)
    ensures
        uvarint_encode(v as nat).len() <= 10,
        uvarint_at(prefix + uvarint_encode(v as nat) + suffix, prefix.len() as int)
            == Some((v, uvarint_encode(v as nat).len())),
{
    let e = uvarint_encode(v as nat);
    lemma_encode_shape(v as nat);
    let n = e.len();
    if n > 10 {
        lemma_p128_values();
        lemma_p128_mono(10, (n - 1) as nat);
        assert(false);
    }
    let s = prefix + e + suffix;
    let off = prefix.len() as int;
    assert forall|j: int| 0 <= j < n - 1 implies #[trigger] s[off + j] >= 128 by {
        assert(s[off + j] == e[j]);
    }
    assert(s[off + n - 1] == e[n - 1]);
    let lim = uvarint_limit(s.len() - off);
    assert(lim >= n);
    lemma_scan_terminated(s, off, 0, n as nat, lim);
    assert(s.subrange(off, off + n) =~= e.subrange(0, n as int));
    lemma_leb_sum_offset(s, e, off, 0, n as nat);
    assert(leb_sum(s, off, n as nat) == v);
}

/// Zigzag decoding undoes zigzag encoding.
pub proof fn law_zigzag_roundtrip(v: int)
    ensures
        unzigzag(zigzag(v)) == v,
{
}

// ---------------------------------------------------------------------------
// executable codecs
// ---------------------------------------------------------------------------

/// The number of bytes a bounded uvarint read looks at: `lim`, but no more than
/// the bytes after `off`.
pub open spec fn reach(len: int, off: int, lim: int) -> int {
    if lim > len - off {
        len - off
    } else {
        lim
    }
}

/// Reads a uvarint at `off`, looking at no more than `lim` bytes (and never more
/// than ten, nor past the end of `src`). Returns the value and its size, or
/// `usize::MAX` as the size when no terminating byte was found in reach (the value
/// is then what was read so far).
pub fn read_uvarint_safe(src: &[u8], off: usize, lim: usize) -> (res: (u64, usize))
    requires
        off <= src@.len(),
    ensures
        match uvarint_size(src@, off as int, reach(src@.len() as int, off as int, lim as int)) {
            Some(n) => res == (uvarint_value(src@, off as int, n), n as usize),
            None => res == (uvarint_value(src@, off as int, uvarint_limit(reach(src@.len() as int, off as int, lim as int))), usize::MAX),
        },
{
    let lim = if lim > src.len() - off { src.len() - off } else { lim };
    read_uvarint_within(src, off, lim)
}

fn read_uvarint_within(src: &[u8], off: usize, lim: usize) -> (res: (u64, usize))
    requires
        off + uvarint_limit(lim as int) <= src@.len(),
    ensures
        match uvarint_size(src@, off as int, lim as int) {
            Some(n) => res == (uvarint_value(src@, off as int, n), n as usize),
            None => res == (uvarint_value(src@, off as int, uvarint_limit(lim as int)), usize::MAX),
        },
{
    let lim2: usize = if lim > 10 { 10 } else { lim };
    let ghost s = src@;
    let mut res: u64 = 0;
    let mut i: usize = 0;
    let mut pw: u64 = 1;
    proof {
        lemma_p128_values();
    }
    loop
        invariant
            i <= lim2 <= 10,
            lim2 <= lim,
            off + lim2 <= src.len(),
            lim2 == uvarint_limit(lim as int),
            off + lim2 <= s.len(),
            s == src@,
            i <= 9 ==> pw == p128(i as nat),
            i <= 9 ==> res == leb_sum(s, off as int, i as nat),
            i == 10 ==> res == uvarint_value(s, off as int, 10),
            uvarint_scan(s, off as int, 0, lim2 as nat) == uvarint_scan(s, off as int, i as nat, lim2 as nat),
            p128(9) == 0x8000_0000_0000_0000,
            p128(10) == 0x4000_0000_0000_0000_00,
        decreases 10 - i,
    {
        if i >= lim2 {
            proof {
                if i <= 9 {
                    lemma_leb_sum_bound(s, off as int, i as nat);
                    lemma_p128_mono(i as nat, 9);
                    assert(res as nat % 0x1_0000_0000_0000_0000 == res as nat);
                }
            }
            return (res, usize::MAX);
        }
        let b = src[off + i];
        proof {
            lemma_leb_sum_step(s, off as int, i as nat);
            lemma_leb_sum_bound(s, off as int, i as nat);
        }
        if i < 9 {
            proof {
                lemma_p128_mono((i + 1) as nat, 9);
                assert(p128((i + 1) as nat) == 128 * p128(i as nat));
                let d = (b % 128) as nat;
                assert(res + d * pw < p128((i + 1) as nat)) by (nonlinear_arith)
                    requires res < pw, d < 128, p128((i + 1) as nat) == 128 * pw;
                assert(d * pw < 0x8000_0000_0000_0000) by (nonlinear_arith)
                    requires res + d * pw < p128((i + 1) as nat), p128((i + 1) as nat) <= 0x8000_0000_0000_0000;
                assert(128 * pw <= 0x8000_0000_0000_0000);
            }
            res = res + ((b % 128) as u64) * pw;
            pw = pw * 128;
        } else {
            proof {
                let d = (b % 128) as int;
                let r = res as int;
                assert(r < 0x8000_0000_0000_0000);
                assert((r + d * 0x8000_0000_0000_0000) % 0x1_0000_0000_0000_0000 == r + (d % 2) * 0x8000_0000_0000_0000)
                    by (nonlinear_arith)
                    requires 0 <= r < 0x8000_0000_0000_0000, 0 <= d < 128;
                assert(b % 128 % 2 == b % 2);
            }
            res = res + ((b % 2) as u64) * 0x8000_0000_0000_0000u64;
        }
        i = i + 1;
        if b < 128 {
            proof {
                if i <= 9 {
                    lemma_leb_sum_bound(s, off as int, i as nat);
                    lemma_p128_mono(i as nat, 9);
                    assert(res as nat % 0x1_0000_0000_0000_0000 == res as nat);
                }
            }
            return (res, i);
        }
    }
}

/// Whether a complete uvarint starts at `off` and ends inside `src`.
pub open spec fn uvarint_complete(src: Seq<u8>, off: int) -> bool {
    uvarint_at(src, off) is Some
}

/// Reads a uvarint at `off`; the caller guarantees that a complete one is there.
pub fn read_uvarint(src: &[u8], off: usize) -> (res: (u64, usize))
    requires
        uvarint_complete(src@, off as int),
    ensures
        uvarint_at(src@, off as int) == Some((res.0, res.1 as nat)),
        off + res.1 <= src@.len(),
{
    let lim = src.len() - off;
    let (v, n) = read_uvarint_safe(src, off, lim);
    proof {
        lemma_scan_fits(src@, off as int, 0, uvarint_limit(lim as int));
    }
    (v, n)
}

/// Reads a uvarint at `off`, `None` when no complete one starts there.
pub fn read_uvarint_checked(src: &[u8], off: usize) -> (res: Option<(u64, usize)>)
    ensures
        match uvarint_at(src@, off as int) {
            Some((v, n)) => res == Some((v, n as usize)) && off + n <= src@.len() && off + n <= src.len(),
            None => res is None,
        },
{
    if off > src.len() {
        return None;
    }
    let lim = src.len() - off;
    let (v, n) = read_uvarint_safe(src, off, lim);
    proof {
        lemma_scan_fits(src@, off as int, 0, uvarint_limit(lim as int));
    }
    if n == usize::MAX {
        None
    } else {
        Some((v, n))
    }
}

/// A complete uvarint takes one to ten bytes, all inside the buffer.
pub proof fn lemma_uvarint_at_fits(s: Seq<u8>, off: int)
    ensures
        uvarint_at(s, off) matches Some((v, n)) ==> 1 <= n <= 10 && 0 <= off && off + n <= s.len(),
{
    if 0 <= off <= s.len() {
        lemma_scan_fits(s, off, 0, uvarint_limit(s.len() - off));
    }
}

proof fn lemma_scan_fits(s: Seq<u8>, off: int, i: nat, lim: nat)
    requires
        lim <= 10,
    ensures
        uvarint_scan(s, off, i, lim) matches Some(n) ==> 0 < n <= lim && n < usize::MAX,
    decreases lim - i,
{
    if i < lim && s[off + i] >= 128 {
        lemma_scan_fits(s, off, i + 1, lim);
    }
}

proof fn lemma_scan_above(s: Seq<u8>, off: int, i: nat, lim: nat)
    ensures
        uvarint_scan(s, off, i, lim) matches Some(k) ==> i < k,
    decreases lim - i,
{
    if i < lim && s[off + i] >= 128 {
        lemma_scan_above(s, off, i + 1, lim);
    }
}

proof fn lemma_scan_prefix(s: Seq<u8>, t: Seq<u8>, off: int, i: nat, lim1: nat, lim2: nat)
    requires
        uvarint_scan(s, off, i, lim1) is Some,
        uvarint_scan(s, off, i, lim1).unwrap() <= lim2,
        forall|j: int| off <= j < off + uvarint_scan(s, off, i, lim1).unwrap() ==> #[trigger] t[j] == s[j],
    ensures
        uvarint_scan(t, off, i, lim2) == uvarint_scan(s, off, i, lim1),
    decreases lim1 - i,
{
    lemma_scan_above(s, off, i, lim1);
    assert(t[off + i] == s[off + i]);
    if s[off + i] >= 128 {
        lemma_scan_above(s, off, i + 1, lim1);
        lemma_scan_prefix(s, t, off, i + 1, lim1, lim2);
    }
}

proof fn lemma_leb_sum_prefix(s: Seq<u8>, t: Seq<u8>, off: int, n: nat)
    requires
        forall|j: int| off <= j < off + n ==> #[trigger] t[j] == s[j],
    ensures
        leb_sum(t, off, n) == leb_sum(s, off, n),
    decreases n,
{
    if n > 0 {
        assert(t[off] == s[off]);
        lemma_leb_sum_prefix(s, t, off + 1, (n - 1) as nat);
    }
}

/// A uvarint reads the same from any prefix of the buffer that holds it whole.
pub proof fn lemma_uvarint_at_prefix(s: Seq<u8>, len: int, off: int)
    requires
        0 <= len <= s.len(),
        uvarint_at(s, off) matches Some((_v, n)) && off + n <= len,
    ensures
        uvarint_at(s.subrange(0, len), off) == uvarint_at(s, off),
{
    let t = s.subrange(0, len);
    let n = uvarint_at(s, off).unwrap().1;
    lemma_uvarint_at_fits(s, off);
    assert forall|j: int| off <= j < off + n implies #[trigger] t[j] == s[j] by {}
    lemma_scan_prefix(s, t, off, 0, uvarint_limit(s.len() - off), uvarint_limit(len - off));
    lemma_leb_sum_prefix(s, t, off, n);
}

/// Reads a zigzag-encoded signed uvarint at `off`.
pub fn read_varint(src: &[u8], off: usize) -> (res: (i64, usize))
    requires
        uvarint_complete(src@, off as int),
    ensures
        uvarint_at(src@, off as int) matches Some((u, n)) && res.1 == n && res.0 == unzigzag(u as nat),
{
    let (u, n) = read_uvarint(src, off);
    (zigzag_decode(u), n)
}

/// Zigzag decoding of a 64-bit word.
pub fn zigzag_decode(u: u64) -> (v: i64)
    ensures
        v == unzigzag(u as nat),
{
    let half: u64 = u / 2;
    if u % 2 == 0 {
        half as i64
    } else {
        -(half as i64) - 1
    }
}

/// Zigzag encoding of a 64-bit signed integer.
pub fn zigzag_encode(v: i64) -> (u: u64)
    ensures
        u == zigzag(v as int),
{
    if v >= 0 {
        (v as u64) * 2
    } else {
        ((-(v + 1)) as u64) * 2 + 1
    }
}

/// Appends the uvarint encoding of `value` to `buf`.
pub fn write_uvarint(value: u64, buf: &mut Vec<u8>)
    ensures
        final(buf)@ == old(buf)@ + uvarint_encode(value as nat),
{
    let mut v: u64 = value;
    let ghost start = buf@;
    loop
        invariant
            start == old(buf)@,
            start + uvarint_encode(value as nat) == buf@ + uvarint_encode(v as nat),
        decreases v,
    {
        let ghost before = buf@;
        if v < 128 {
            buf.push(v as u8);
            assert(uvarint_encode(v as nat) == seq![v as u8]);
            assert(buf@ == before + seq![v as u8]);
            assert(start + uvarint_encode(value as nat) == buf@);
            return;
        }
        buf.push((v % 128 + 128) as u8);
        assert(buf@ == before + seq![(v % 128 + 128) as u8]);
        assert(uvarint_encode(v as nat) == seq![(v % 128 + 128) as u8] + uvarint_encode((v / 128) as nat));
        v = v / 128;
    }
}

/// Appends the zigzag uvarint encoding of `value` to `buf`.
pub fn write_varint(value: i64, buf: &mut Vec<u8>)
    ensures
        final(buf)@ == old(buf)@ + uvarint_encode(zigzag(value as int)),
{
    write_uvarint(zigzag_encode(value), buf);
}

/// Number of bytes of the uvarint encoding of `v`.
pub fn uvarint_bytes(v: usize) -> (n: usize)
    ensures
        n == uvarint_encode(v as nat).len(),
{
    let mut n: usize = 1;
    let mut x: usize = v;
    assert(p128(0) == 1);
    assert(v as nat * p128(0) == v as nat) by (nonlinear_arith)
        requires p128(0) == 1;
    while x >= 128
        invariant
            uvarint_encode(v as nat).len() == n - 1 + uvarint_encode(x as nat).len(),
            1 <= n <= 10,
            x as nat * p128((n - 1) as nat) <= v as nat,
        decreases x,
    {
        proof {
            lemma_p128_values();
            assert(uvarint_encode(x as nat).len() == 1 + uvarint_encode((x / 128) as nat).len());
            if n >= 10 {
                lemma_p128_mono(9, (n - 1) as nat);
                assert(x as nat * p128((n - 1) as nat) >= 128 * 0x8000_0000_0000_0000) by (nonlinear_arith)
                    requires x >= 128, p128((n - 1) as nat) >= 0x8000_0000_0000_0000;
                assert(false);
            }
            assert(p128(n as nat) == 128 * p128((n - 1) as nat));
            assert((x / 128) as nat * p128(n as nat) <= x as nat * p128((n - 1) as nat)) by (nonlinear_arith)
                requires p128(n as nat) == 128 * p128((n - 1) as nat);
        }
        x = x / 128;
        n = n + 1;
    }
    n
}

// ---------------------------------------------------------------------------
// record framing
// ---------------------------------------------------------------------------

/// The outcome of reading the framing header at the start of `s`: the bounds of
/// the record inside `s`, or the error the reader reports.
pub open spec fn header_spec(s: Seq<u8>, max_log_size: usize) -> Result<(int, int), ErrorLogParse> {
    if s.len() < 7 {
        Err(ErrorLogParse::NoHeader)
    } else if s[0] != 0xFF {
        Err(ErrorLogParse::StartMarkerInvalid(s[0]))
    } else if s[5] != 0xFE {
        Err(ErrorLogParse::TailMarkerInvalid(s[5]))
    } else {
        match uvarint_size(s, 6, s.len() - 6) {
            None => Err(ErrorLogParse::RecordLengthInvalid),
            Some(size) => {
                let length = uvarint_value(s, 6, size);
                if length > max_log_size {
                    Err(ErrorLogParse::RecordLengthTooLarge)
                } else if 6 + size + length > s.len() {
                    Err(ErrorLogParse::RecordNeedMore)
                } else if crc32c_append_spec(0, s.subrange(6 + size as int, 6 + size + length))
                    != le_u32(s, 1) {
                    Err(ErrorLogParse::RecordCRCMismatch)
                } else {
                    Ok((6 + size as int, 6 + size + length))
                }
            },
        }
    }
}

/// The little-endian 32-bit word at `off`.
pub open spec fn le_u32(s: Seq<u8>, off: int) -> u32 {
    (s[off] as int + 256 * s[off + 1] + 65536 * s[off + 2] + 16777216 * s[off + 3]) as u32
}

/// The framing header that [log_parse_header] accepts in front of `record`.
pub open spec fn frame_header(record: Seq<u8>) -> Seq<u8> {
    let crc = crc32c_append_spec(0, record);
    seq![0xFFu8, (crc % 256) as u8, (crc / 256 % 256) as u8, (crc / 65536 % 256) as u8,
        (crc / 16777216) as u8, 0xFEu8] + uvarint_encode(record.len())
}

proof fn lemma_scan_none(s: Seq<u8>, off: int, i: nat, lim: nat)
    ensures
        uvarint_scan(s, off, i, lim) is None <==> forall|j: int| i <= j < lim ==> #[trigger] s[off + j] >= 128,
    decreases lim - i,
{
    if i < lim {
        lemma_scan_none(s, off, i + 1, lim);
        if s[off + i] >= 128 {
            assert forall|j: int| i <= j < lim && (forall|k: int| i + 1 <= k < lim ==> #[trigger] s[off + k] >= 128)
                implies #[trigger] s[off + j] >= 128 by {
                if j > i {
                    assert(s[off + j] >= 128);
                }
            }
        }
    }
}

/// The encoding of `v` is no longer than any size `n` with `v < 128^n`.
pub proof fn lemma_encode_len_within(v: nat, n: nat)
    requires
        n >= 1,
        v < p128(n),
    ensures
        uvarint_encode(v).len() <= n,
{
    lemma_encode_shape(v);
    let k = uvarint_encode(v).len();
    if k > n {
        lemma_p128_mono(n, (k - 1) as nat);
    }
}

/// A larger value never has a shorter encoding.
pub proof fn lemma_encode_len_mono(a: nat, b: nat)
    requires
        a <= b,
    ensures
        uvarint_encode(a).len() <= uvarint_encode(b).len(),
{
    lemma_encode_shape(b);
    let k = uvarint_encode(b).len();
    assert(p128(k) == 128 * p128((k - 1) as nat));
    lemma_encode_len_within(a, k);
}

/// The length field of a header that reads well is at least as long as the
/// shortest encoding of the record's length.
pub proof fn lemma_header_length_field(s: Seq<u8>, max_log_size: usize)
    requires
        header_spec(s, max_log_size) is Ok,
    ensures
        ({
            let (start, end) = header_spec(s, max_log_size).unwrap();
            uvarint_encode((end - start) as nat).len() <= start - 6
        }),
{
    let (start, end) = header_spec(s, max_log_size).unwrap();
    let size = uvarint_size(s, 6, s.len() - 6).unwrap();
    lemma_scan_fits(s, 6, 0, uvarint_limit(s.len() - 6));
    lemma_leb_sum_bound(s, 6, size);
    assert(uvarint_value(s, 6, size) <= leb_sum(s, 6, size));
    lemma_encode_len_within((end - start) as nat, size);
}

/// How a header that reads well splits its input: the start marker 0xFF, the
/// CRC32C of the record (little-endian), the tail marker 0xFE, the record's length
/// as a uvarint of one to ten bytes, the record (no longer than the limit), and the
/// rest.
pub proof fn law_header_split(s: Seq<u8>, max_log_size: usize)
    requires
        header_spec(s, max_log_size) is Ok,
    ensures
        ({
            let (start, end) = header_spec(s, max_log_size).unwrap();
            let record = s.subrange(start, end);
            &&& s[0] == 0xFF
            &&& s[5] == 0xFE
            &&& le_u32(s, 1) == crc32c_append_spec(0, record)
            &&& 7 <= start <= 16
            &&& uvarint_at(s, 6) == Some((record.len() as u64, (start - 6) as nat))
            &&& record.len() <= max_log_size
            &&& s == s.subrange(0, start) + record + s.subrange(end, s.len() as int)
        }),
{
    let (start, end) = header_spec(s, max_log_size).unwrap();
    lemma_uvarint_at_fits(s, 6);
    let size = uvarint_size(s, 6, s.len() - 6).unwrap();
    lemma_scan_fits(s, 6, 0, uvarint_limit(s.len() - 6));
    assert(s =~= s.subrange(0, start) + s.subrange(start, end) + s.subrange(end, s.len() as int));
}

/// Which error a header gives, in the order the checks are made: no header below
/// seven bytes, then the start marker, the tail marker, a length whose uvarint does
/// not end within the ten bytes (or the bytes there are) after the markers, a length
/// over the limit, a record that the input does not hold whole, and a CRC that does
/// not match.
pub proof fn law_header_errors(s: Seq<u8>, max_log_size: usize)
    ensures
        s.len() < 7 ==> header_spec(s, max_log_size) == Err::<(int, int), ErrorLogParse>(ErrorLogParse::NoHeader),
        s.len() >= 7 && s[0] != 0xFF ==> header_spec(s, max_log_size)
            == Err::<(int, int), ErrorLogParse>(ErrorLogParse::StartMarkerInvalid(s[0])),
        s.len() >= 7 && s[0] == 0xFF && s[5] != 0xFE ==> header_spec(s, max_log_size)
            == Err::<(int, int), ErrorLogParse>(ErrorLogParse::TailMarkerInvalid(s[5])),
        s.len() >= 7 && s[0] == 0xFF && s[5] == 0xFE ==> (header_spec(s, max_log_size)
            == Err::<(int, int), ErrorLogParse>(ErrorLogParse::RecordLengthInvalid)
            <==> forall|j: int| 6 <= j < 6 + uvarint_limit(s.len() - 6) ==> #[trigger] s[j] >= 128),
        s.len() >= 7 && s[0] == 0xFF && s[5] == 0xFE ==> (uvarint_at(s, 6) matches Some((length, n)) ==> {
            &&& length > max_log_size ==> header_spec(s, max_log_size)
                == Err::<(int, int), ErrorLogParse>(ErrorLogParse::RecordLengthTooLarge)
            &&& length <= max_log_size && 6 + n + length > s.len() ==> header_spec(s, max_log_size)
                == Err::<(int, int), ErrorLogParse>(ErrorLogParse::RecordNeedMore)
            &&& length <= max_log_size && 6 + n + length <= s.len()
                && crc32c_append_spec(0, s.subrange(6 + n as int, 6 + n + length)) != le_u32(s, 1)
                ==> header_spec(s, max_log_size) == Err::<(int, int), ErrorLogParse>(ErrorLogParse::RecordCRCMismatch)
        }),
{
    if s.len() >= 7 {
        let lim = uvarint_limit(s.len() - 6);
        lemma_scan_none(s, 6, 0, lim);
        if forall|j: int| 6 <= j < 6 + lim ==> #[trigger] s[j] >= 128 {
            assert forall|k: int| 0 <= k < lim implies #[trigger] s[6 + k] >= 128 by {
                assert(s[6 + k] >= 128);
            }
        }
        if forall|k: int| 0 <= k < lim ==> #[trigger] s[6 + k] >= 128 {
            assert forall|j: int| 6 <= j < 6 + lim implies #[trigger] s[j] >= 128 by {
                assert(s[6 + (j - 6)] >= 128);
            }
        }
    }
}

/// Parses input source for logs and splits it into (log_data, rest of the data) on happy path.
pub fn log_parse_header<'a>(src: &'a [u8], max_log_size: usize) -> (res: Result<(&'a [u8], &'a [u8]), ErrorLogParse>)
    ensures
        match header_spec(src@, max_log_size) {
            Ok((start, end)) => res matches Ok((record, rest))
                && record@ == src@.subrange(start, end)
                && rest@ == src@.subrange(end, src@.len() as int),
            Err(e) => res == Err::<(&[u8], &[u8]), ErrorLogParse>(e),
        },
{
    if src.len() < 7 {
        return Err(ErrorLogParse::NoHeader);
    }
    if src[0] != 0xFF {
        return Err(ErrorLogParse::StartMarkerInvalid(src[0]));
    }
    if src[5] != 0xFE {
        return Err(ErrorLogParse::TailMarkerInvalid(src[5]));
    }
    let record_crc: u32 = src[1] as u32 + 256 * (src[2] as u32) + 65536 * (src[3] as u32) + 16777216 * (src[4] as u32);
    let (length, size) = read_uvarint_safe(src, 6, src.len() - 6);
    if size == usize::MAX {
        proof {
            lemma_scan_fits(src@, 6, 0, uvarint_limit(src@.len() - 6));
        }
        return Err(ErrorLogParse::RecordLengthInvalid);
    }
    proof {
        lemma_scan_fits(src@, 6, 0, uvarint_limit(src@.len() - 6));
    }
    if length > max_log_size as u64 {
        return Err(ErrorLogParse::RecordLengthTooLarge);
    }
    let length = length as usize;
    if length > src.len() - 6 - size {
        return Err(ErrorLogParse::RecordNeedMore);
    }
    let off = 6 + size;
    let record = vstd::slice::slice_subrange(src, off, off + length);
    let check = fast_crc32c(0u32, record);
    if check != record_crc {
        return Err(ErrorLogParse::RecordCRCMismatch);
    }
    let rest = vstd::slice::slice_subrange(src, off + length, src.len());
    Ok((record, rest))
}

/// Appends the framing header of `record` to `dst`.
pub fn write_record_header(dst: &mut Vec<u8>, record: &[u8])
    ensures
        final(dst)@ == old(dst)@ + frame_header(record@),
{
    let crc = fast_crc32c(0u32, record);
    dst.push(0xFF);
    dst.push((crc % 256) as u8);
    dst.push((crc / 256 % 256) as u8);
    dst.push((crc / 65536 % 256) as u8);
    dst.push((crc / 16777216) as u8);
    dst.push(0xFE);
    write_uvarint(record.len() as u64, dst);
}

/// Framing a record and reading the frame back gives the record and whatever
/// followed it, as long as the record fits the size limit.
pub proof fn law_frame_roundtrip(record: Seq<u8>, rest: Seq<u8>, max_log_size: usize)
    requires
        record.len() <= max_log_size,
    ensures
        header_spec(frame_header(record) + record + rest, max_log_size)
            == Ok::<(int, int), ErrorLogParse>((frame_header(record).len() as int,
                (frame_header(record).len() + record.len()) as int)),
{
    let h = frame_header(record);
    let s = h + record + rest;
    let enc = uvarint_encode(record.len());
    let crc = crc32c_append_spec(0, record);
    assert(h == seq![0xFFu8, (crc % 256) as u8, (crc / 256 % 256) as u8, (crc / 65536 % 256) as u8,
        (crc / 16777216) as u8, 0xFEu8] + enc);
    let pre = seq![0xFFu8, (crc % 256) as u8, (crc / 256 % 256) as u8, (crc / 65536 % 256) as u8,
        (crc / 16777216) as u8, 0xFEu8];
    assert(s == pre + enc + (record + rest));
    law_uvarint_roundtrip(record.len() as u64, pre, record + rest);
    lemma_encode_shape(record.len());
    assert(s.len() >= 7);
    assert(s[0] == 0xFF);
    assert(s[5] == 0xFE);
    assert(uvarint_at(s, 6) == Some((record.len() as u64, enc.len())));
    assert(uvarint_size(s, 6, s.len() - 6) == Some(enc.len()));
    assert(s.subrange(6 + enc.len() as int, (6 + enc.len() + record.len()) as int) =~= record);
    assert(le_u32(s, 1) == crc) by {
        assert(s[1] == (crc % 256) as u8);
        assert(s[2] == (crc / 256 % 256) as u8);
        assert(s[3] == (crc / 65536 % 256) as u8);
        assert(s[4] == (crc / 16777216) as u8);
    }
}

} // verus!
