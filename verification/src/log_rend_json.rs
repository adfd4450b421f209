//! JSON string text and base64 text of byte values.
use vstd::prelude::*;
use crate::pointer_ext::append;

verus! {

/// The lowercase hexadecimal digit of `d` (below 16).
pub open spec fn hex_digit(d: nat) -> u8 {
    if d < 10 {
        (48 + d) as u8
    } else {
        (87 + d) as u8
    }
}

/// Whether a byte has to be escaped inside a JSON string: control bytes, the quote
/// and the backslash.
pub open spec fn needs_escape(b: u8) -> bool {
    b < 0x20 || b == 34 || b == 92
}

/// The JSON text of one byte inside a string: short escapes for backspace, tab,
/// newline, form feed and carriage return, `\u00XX` for the other control bytes,
/// a backslash before the quote and the backslash, and the byte itself otherwise.
pub open spec fn escape_byte(b: u8) -> Seq<u8> {
    if b == 8 {
        seq![92u8, 98u8]
    } else if b == 9 {
        seq![92u8, 116u8]
    } else if b == 10 {
        seq![92u8, 110u8]
    } else if b == 12 {
        seq![92u8, 102u8]
    } else if b == 13 {
        seq![92u8, 114u8]
    } else if b < 0x20 {
        seq![92u8, 117u8, 48u8, 48u8, hex_digit(b as nat / 16), hex_digit(b as nat % 16)]
    } else if b == 34 || b == 92 {
        seq![92u8, b]
    } else {
        seq![b]
    }
}

/// The escaped content of a JSON string holding the bytes `s`.
pub open spec fn json_escape(s: Seq<u8>) -> Seq<u8>
    decreases s.len(),
{
    if s.len() == 0 {
        Seq::empty()
    } else {
        json_escape(s.drop_last()) + escape_byte(s.last())
    }
}

/// A JSON string holding the bytes `s`: the escaped content between quotes.
pub open spec fn json_string(s: Seq<u8>) -> Seq<u8> {
    seq![34u8] + json_escape(s) + seq![34u8]
}

/// Escaping the bytes of two pieces one after the other: escaping works byte by
/// byte, so the escape of a concatenation is the concatenation of the escapes.
pub proof fn law_json_escape_append(a: Seq<u8>, b: Seq<u8>)
    ensures
        json_escape(a + b) == json_escape(a) + json_escape(b),
    decreases b.len(),
{
    if b.len() == 0 {
        assert(a + b == a);
    } else {
        assert((a + b).drop_last() == a + b.drop_last());
        law_json_escape_append(a, b.drop_last());
    }
}


/// Bytes that need no escaping pass unchanged: the content of a JSON string holding
/// them is the bytes themselves.
pub proof fn law_json_escape_plain(s: Seq<u8>)
    requires
        forall|i: int| 0 <= i < s.len() ==> !needs_escape(#[trigger] s[i]),
    ensures
        json_escape(s) == s,
    decreases s.len(),
{
    if s.len() > 0 {
        let t = s.drop_last();
        assert forall|i: int| 0 <= i < t.len() implies !needs_escape(#[trigger] t[i]) by {
            assert(t[i] == s[i]);
        }
        law_json_escape_plain(t);
        assert(!needs_escape(s[s.len() - 1]));
        assert(s =~= t + seq![s.last()]);
    }
}

/// The value of a hexadecimal digit, in either case.
pub open spec fn hex_value(c: u8) -> Option<nat> {
    if 48 <= c <= 57 {
        Some((c - 48) as nat)
    } else if 97 <= c <= 102 {
        Some((c - 87) as nat)
    } else if 65 <= c <= 70 {
        Some((c - 55) as nat)
    } else {
        None
    }
}

/// The byte of a `\uXXXX` escape whose four hex digits start at `i`: the code
/// point, where it is below 0x80 (a one-byte character).
pub open spec fn u_escape_byte(t: Seq<u8>, i: int) -> Option<u8> {
    match (hex_value(t[i]), hex_value(t[i + 1]), hex_value(t[i + 2]), hex_value(t[i + 3])) {
        (Some(a), Some(b), Some(c), Some(d)) => {
            let v = ((a * 16 + b) * 16 + c) * 16 + d;
            if v < 0x80 {
                Some(v as u8)
            } else {
                None
            }
        },
        _ => None,
    }
}

/// The byte that the two-character escape `\c` stands for.
pub open spec fn short_escape_byte(c: u8) -> Option<u8> {
    if c == 34 || c == 92 || c == 47 {
        Some(c)
    } else if c == 98 {
        Some(8u8)
    } else if c == 102 {
        Some(12u8)
    } else if c == 110 {
        Some(10u8)
    } else if c == 114 {
        Some(13u8)
    } else if c == 116 {
        Some(9u8)
    } else {
        None
    }
}

/// Decoding the content of a JSON string (between its quotes) into bytes, as the
/// JSON grammar reads it: a raw quote or control byte is invalid, a backslash
/// starts an escape; `\u` escapes are decoded where their code point is a
/// one-byte character. Other bytes stand for themselves.
pub open spec fn json_unescape(t: Seq<u8>) -> Option<Seq<u8>>
    decreases t.len(),
{
    if t.len() == 0 {
        Some(Seq::empty())
    } else if t[0] == 92 {
        if t.len() < 2 {
            None
        } else if t[1] == 117 {
            if t.len() < 6 {
                None
            } else {
                match (u_escape_byte(t, 2), json_unescape(t.subrange(6, t.len() as int))) {
                    (Some(b), Some(r)) => Some(seq![b] + r),
                    _ => None,
                }
            }
        } else {
            match (short_escape_byte(t[1]), json_unescape(t.subrange(2, t.len() as int))) {
                (Some(b), Some(r)) => Some(seq![b] + r),
                _ => None,
            }
        }
    } else if t[0] < 0x20 || t[0] == 34 {
        None
    } else {
        match json_unescape(t.subrange(1, t.len() as int)) {
            Some(r) => Some(seq![t[0]] + r),
            None => None,
        }
    }
}

proof fn lemma_unescape_byte(b: u8, rest: Seq<u8>)
    ensures
        json_unescape(escape_byte(b) + rest) == match json_unescape(rest) {
            Some(r) => Some(seq![b] + r),
            None => None::<Seq<u8>>,
        },
{
    let e = escape_byte(b);
    let t = e + rest;
    assert(t.subrange(e.len() as int, t.len() as int) =~= rest);
    if b < 0x20 && b != 8 && b != 9 && b != 10 && b != 12 && b != 13 {
        let hi = b as nat / 16;
        let lo = b as nat % 16;
        assert(hi <= 1);
        assert(hex_value(hex_digit(hi)) == Some(hi));
        assert(hex_value(hex_digit(lo)) == Some(lo));
        assert(t[2] == 48u8 && t[3] == 48u8 && t[4] == hex_digit(hi) && t[5] == hex_digit(lo));
        assert(((0nat * 16 + 0nat) * 16 + hi) * 16 + lo == b as nat);
        assert(u_escape_byte(t, 2) == Some(b));
    }
}

/// Escaping is undone by decoding: the escaped content of a JSON string holding
/// `s` decodes back to `s`, so different byte strings never escape alike.
pub proof fn law_json_escape_decodes(s: Seq<u8>)
    ensures
        json_unescape(json_escape(s)) == Some(s),
    decreases s.len(),
{
    if s.len() > 0 {
        let first = seq![s[0]];
        let tail = s.subrange(1, s.len() as int);
        assert(s =~= first + tail);
        law_json_escape_append(first, tail);
        assert(first.drop_last() =~= Seq::<u8>::empty());
        assert(json_escape(first.drop_last()) == Seq::<u8>::empty());
        assert(first.last() == s[0]);
        assert(json_escape(first) =~= escape_byte(s[0]));
        law_json_escape_decodes(tail);
        lemma_unescape_byte(s[0], json_escape(tail));
    }
}

fn push_escaped_byte(dst: &mut Vec<u8>, b: u8)
    ensures
        final(dst)@ == old(dst)@ + escape_byte(b),
{
    if b == 8 {
        dst.push(92);
        dst.push(98);
    } else if b == 9 {
        dst.push(92);
        dst.push(116);
    } else if b == 10 {
        dst.push(92);
        dst.push(110);
    } else if b == 12 {
        dst.push(92);
        dst.push(102);
    } else if b == 13 {
        dst.push(92);
        dst.push(114);
    } else if b < 0x20 {
        let hi: u8 = b / 16;
        let lo: u8 = b % 16;
        dst.push(92);
        dst.push(117);
        dst.push(48);
        dst.push(48);
        dst.push(48 + hi);
        if lo < 10 {
            dst.push(48 + lo);
        } else {
            dst.push(87 + lo);
        }
    } else if b == 34 || b == 92 {
        dst.push(92);
        dst.push(b);
    } else {
        dst.push(b);
    }
}

/// Appends the escaped content of a JSON string holding `src`, without quotes.
pub fn push_json_string_content(dst: &mut Vec<u8>, src: &[u8])
    ensures
        final(dst)@ == old(dst)@ + json_escape(src@),
{
    let mut i: usize = 0;
    while i < src.len()
        invariant
            i <= src@.len(),
            dst@ == old(dst)@ + json_escape(src@.take(i as int)),
        decreases src@.len() - i,
    {
        proof {
            assert(src@.take(i + 1).drop_last() == src@.take(i as int));
        }
        push_escaped_byte(dst, src[i]);
        i += 1;
    }
    proof {
        assert(src@.take(i as int) == src@);
    }
}

/// Appends a JSON string holding `src`.
pub fn push_json_string(dst: &mut Vec<u8>, src: &[u8])
    ensures
        final(dst)@ == old(dst)@ + json_string(src@),
{
    dst.push(34);
    push_json_string_content(dst, src);
    dst.push(34);
}

/// Appends a JSON string holding `src`.
pub fn render_json_string(dst: &mut Vec<u8>, src: &[u8])
    ensures
        final(dst)@ == old(dst)@ + json_string(src@),
{
    push_json_string(dst, src);
}

/// Appends the text of an error stage name: like every other string here, quoted.
pub fn render_json_string_content(dst: &mut Vec<u8>, src: &[u8])
    ensures
        final(dst)@ == old(dst)@ + json_string(src@),
{
    push_json_string(dst, src);
}

/// Appends `src` between quotes, without escaping: for bytes known to need none.
pub fn render_safe_json_string(dst: &mut Vec<u8>, src: &[u8])
    ensures
        final(dst)@ == old(dst)@ + seq![34u8] + src@ + seq![34u8],
{
    dst.push(34);
    append(dst, src);
    dst.push(34);
}

/// The table of the bytes that need escaping: 1 for those, 0 for the others.
pub fn build_needs_escape() -> (t: Vec<u8>)
    ensures
        t@.len() == 256,
        forall|i: int| 0 <= i < 256 ==> t@[i] == (if needs_escape(i as u8) { 1u8 } else { 0u8 }),
{
    let mut t: Vec<u8> = Vec::with_capacity(256);
    let mut i: usize = 0;
    while i < 256
        invariant
            i <= 256,
            t@.len() == i,
            forall|j: int| 0 <= j < i ==> t@[j] == (if needs_escape(j as u8) { 1u8 } else { 0u8 }),
        decreases 256 - i,
    {
        let b = i as u8;
        if b < 0x20 || b == 34 || b == 92 {
            t.push(1);
        } else {
            t.push(0);
        }
        i += 1;
    }
    t
}

// ---------------------------------------------------------------------------
// base64
// ---------------------------------------------------------------------------

/// The character of the standard base64 alphabet for the 6-bit value `v`.
pub open spec fn b64_char(v: nat) -> u8 {
    if v < 26 {
        (65 + v) as u8
    } else if v < 52 {
        (71 + v) as u8
    } else if v < 62 {
        (v - 4) as u8
    } else if v == 62 {
        43u8
    } else {
        47u8
    }
}

/// The standard base64 text of `s`, with `=` padding.
pub open spec fn base64_std(s: Seq<u8>) -> Seq<u8>
    decreases s.len(),
{
    if s.len() == 0 {
        Seq::empty()
    } else if s.len() == 1 {
        let x = s[0] as nat * 65536;
        seq![b64_char(x / 262144), b64_char(x / 4096 % 64), 61u8, 61u8]
    } else if s.len() == 2 {
        let x = s[0] as nat * 65536 + s[1] as nat * 256;
        seq![b64_char(x / 262144), b64_char(x / 4096 % 64), b64_char(x / 64 % 64), 61u8]
    } else {
        let x = s[0] as nat * 65536 + s[1] as nat * 256 + s[2] as nat;
        seq![b64_char(x / 262144), b64_char(x / 4096 % 64), b64_char(x / 64 % 64), b64_char(x % 64)]
            + base64_std(s.subrange(3, s.len() as int))
    }
}

/// Calls `base64_simd::STANDARD.encode_append`. Trusted: the crate's `STANDARD`
/// engine appends the base64 text of `src` in the standard alphabet with `=`
/// padding, and leaves what `dst` held before. It panics when the encoded length
/// passes half the address space, which `requires` rules out.
#[verifier::external_body]
pub(crate) fn base64_append(dst: &mut Vec<u8>, src: &[u8])
    requires
        src@.len() <= usize::MAX / 4,
    ensures
        final(dst)@ == old(dst)@ + base64_std(src@),
{
    base64_simd::STANDARD.encode_append(src, dst);
}

} // verus!
