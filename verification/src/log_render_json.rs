//! The context of a record as a JSON-like object.
use vstd::prelude::*;
use crate::itoa2::{append_itoa, append_utoa, decimal, decimal_signed};
use crate::log_parser_node::{key_bytes, key_bytes_direct, val_bytes, val_u64, Node, NodeKind};
use crate::log_rend::{go_duration, render_go_duration};
use crate::log_rend_json::{base64_append, base64_std, json_string, push_json_string, render_safe_json_string};
use crate::log_render::{slots_in_order, Fill, LogRender, Slot};
use crate::log_render_color::reset_text;
use crate::pointer_ext::{append, append_str, bytes_at, le_at, le_or_zero, lit, read_le, str_at, sub_slice};
use crate::log_parse::read_uvarint_checked;

verus! {

/// What an error object starts with after its key.
pub const PRETTY_JSON_CONTEXT_PREFIX: &'static str = "{\"@context\": {";
/// What the text of an error starts with after its context.
pub const PRETTY_JSON_TEXT_PREFIX: &'static str = "\"@text\": \"";

/// The state of context rendering between two nodes.
#[verifier::ext_equal]
pub ghost struct JsonState {
    /// The text so far.
    pub out: Seq<u8>,
    /// The places for the caller's texts so far.
    pub slots: Seq<Slot>,
    /// Whether an element was written at the current level, so that the next one
    /// needs a separator.
    pub old: bool,
    /// Whether the error being rendered brings its text along.
    pub embed: bool,
    /// The length and offset of that text.
    pub embed_text: (usize, usize),
    /// How deep inside an error object the rendering is.
    pub depth: nat,
    /// Length and offset of the fragments of the error text, innermost last.
    pub errs: Seq<(usize, usize)>,
}

/// Text with the places left in it for the caller's texts.
#[verifier::ext_equal]
pub ghost struct Text {
    pub out: Seq<u8>,
    pub slots: Seq<Slot>,
}

/// The text with `b` written.
pub open spec fn tpush(t: Text, b: Seq<u8>) -> Text {
    Text { out: t.out + b, slots: t.slots }
}

/// The text with a place for `f` at its end.
pub open spec fn tslot(t: Text, f: Fill) -> Text {
    Text { out: t.out, slots: t.slots.push(Slot { at: t.out.len() as usize, fill: f }) }
}

/// The executable counterpart of the scalar parts of [JsonState].
#[derive(Debug, Clone, Copy)]
pub struct JsonCursor {
    pub old: bool,
    pub embed: bool,
    pub embed_text: (usize, usize),
    pub depth: usize,
}

/// The rendering state that a text, a list of places, a cursor and an error stack make.
pub open spec fn jstate(out: Seq<u8>, slots: Seq<Slot>, c: JsonCursor, errs: Seq<(usize, usize)>) -> JsonState {
    JsonState {
        out,
        slots,
        old: c.old,
        embed: c.embed,
        embed_text: c.embed_text,
        depth: c.depth as nat,
        errs,
    }
}

/// The state with `b` written.
pub open spec fn push_out(st: JsonState, b: Seq<u8>) -> JsonState {
    JsonState { out: st.out + b, ..st }
}

/// The state with a place for `f` at the end of the text.
pub open spec fn push_slot(st: JsonState, f: Fill) -> JsonState {
    JsonState { slots: st.slots.push(Slot { at: st.out.len() as usize, fill: f }), ..st }
}

/// `b` between quotes, unescaped.
pub open spec fn quoted(b: Seq<u8>) -> Seq<u8> {
    seq![34u8] + b + seq![34u8]
}

/// The value of a two's complement number of a width whose sign bit is `half`.
pub open spec fn to_signed(v: nat, half: nat) -> int {
    if v >= half {
        v - 2 * half
    } else {
        v as int
    }
}

/// The value of a 64-bit word read as a two's complement signed integer.
pub proof fn lemma_i64_cast(x: u64)
    ensures
        (x as i64) as int == if x < 0x8000_0000_0000_0000 { x as int } else { x as int - 0x1_0000_0000_0000_0000 },
        to_signed(x as nat, 0x8000_0000_0000_0000) == (x as i64) as int,
{
    assert((x as i64) as int == if x < 0x8000_0000_0000_0000 { x as int } else { x as int - 0x1_0000_0000_0000_0000 })
        by (bit_vector);
}

/// Narrow words read as two's complement signed integers.
pub proof fn lemma_small_casts(v: nat)
    ensures
        v < 0x100 ==> ((v as u8) as i8) as int == to_signed(v, 0x80),
        v < 0x1_0000 ==> ((v as u16) as i16) as int == to_signed(v, 0x8000),
        v < 0x1_0000_0000 ==> ((v as u32) as i32) as int == to_signed(v, 0x8000_0000),
        v < 0x1_0000_0000_0000_0000 ==> ((v as u64) as i64) as int == to_signed(v, 0x8000_0000_0000_0000),
{
    if v < 0x100 {
        let x = v as u8;
        assert((x as i8) as int == if x < 0x80 { x as int } else { x as int - 0x100 }) by (bit_vector);
    }
    if v < 0x1_0000 {
        let x = v as u16;
        assert((x as i16) as int == if x < 0x8000 { x as int } else { x as int - 0x1_0000 }) by (bit_vector);
    }
    if v < 0x1_0000_0000 {
        let x = v as u32;
        assert((x as i32) as int == if x < 0x8000_0000 { x as int } else { x as int - 0x1_0000_0000 }) by (bit_vector);
    }
    if v < 0x1_0000_0000_0000_0000 {
        lemma_i64_cast(v as u64);
    }
}

/// The little-endian word of `w` bytes at `p`, when they lie in `s`, is below 256^w.
pub proof fn lemma_word_bounds(s: Seq<u8>, p: int)
    ensures
        le_at(s, p, 1) == s[p] as nat,
        le_at(s, p, 2) < 0x1_0000,
        le_at(s, p, 4) < 0x1_0000_0000,
        le_at(s, p, 8) < 0x1_0000_0000_0000_0000,
{
    assert(le_at(s, p + 1, 0) == 0);
    crate::pointer_ext::lemma_le_at_bound(s, p, 2);
    crate::pointer_ext::lemma_le_at_bound(s, p, 4);
    crate::pointer_ext::lemma_le_at_bound(s, p, 8);
    reveal_with_fuel(crate::pointer_ext::p256, 9);
}

/// The items of a slice in the JSON text: a boolean byte is `false` when 0 and
/// `true` otherwise; a signed item is the decimal text of its two's complement
/// value (as are 16 and 32-bit unsigned items, which the JSON text shows signed);
/// an unsigned byte or 64-bit word is its decimal text; each item takes its width.
pub proof fn law_json_slice_items(k: NodeKind, s: Seq<u8>, t: Text, p: int)
    requires
        0 <= p,
        p + item_width(k) <= s.len(),
    ensures
        k == NodeKind::Bools ==> (slice_item(k, s, t, p).0.out == t.out + lit("false") <==> s[p] == 0)
            && (slice_item(k, s, t, p).0.out == t.out + lit("true") <==> s[p] != 0),
        k == NodeKind::I8s ==> slice_item(k, s, t, p).0.out == t.out + decimal_signed((s[p] as i8) as int),
        k == NodeKind::I16s || k == NodeKind::U16s ==> slice_item(k, s, t, p).0.out
            == t.out + decimal_signed(((le_at(s, p, 2) as u16) as i16) as int),
        k == NodeKind::I32s || k == NodeKind::U32s ==> slice_item(k, s, t, p).0.out
            == t.out + decimal_signed(((le_at(s, p, 4) as u32) as i32) as int),
        k == NodeKind::Ints || k == NodeKind::I64s ==> slice_item(k, s, t, p).0.out
            == t.out + decimal_signed(((le_at(s, p, 8) as u64) as i64) as int),
        k == NodeKind::U8s ==> slice_item(k, s, t, p).0.out == t.out + decimal(s[p] as nat),
        k == NodeKind::Uints || k == NodeKind::U64s ==> slice_item(k, s, t, p).0.out == t.out + decimal(le_at(s, p, 8)),
        k != NodeKind::Strs ==> slice_item(k, s, t, p).1 == p + item_width(k),
{
    crate::pointer_ext::lemma_lit_bools();
    lemma_word_bounds(s, p);
    lemma_small_casts(s[p] as nat);
    lemma_small_casts(le_at(s, p, 2));
    lemma_small_casts(le_at(s, p, 4));
    lemma_small_casts(le_at(s, p, 8));
    assert((s[p] as u8) as i8 == s[p] as i8);
    assert((t.out + lit("false")).len() != (t.out + lit("true")).len());
}

/// A Bool node is written as `false` when its byte is 0 and as `true` otherwise,
/// and a 64-bit signed node (Int, I64, IVar) as the decimal text of the signed
/// value of its word: the text a JSON reader takes back to the same value.
pub proof fn law_json_scalar_values(st: JsonState, n: Node, s: Seq<u8>, tc: Seq<u8>, rs: Seq<u8>)
    ensures
        n.kind == NodeKind::Bool ==> (json_value(st, n, s, tc, rs).out == st.out + lit("false") <==> n.val_off == 0),
        n.kind == NodeKind::Bool ==> (json_value(st, n, s, tc, rs).out == st.out + lit("true") <==> n.val_off != 0),
        n.kind == NodeKind::Int || n.kind == NodeKind::I64 || n.kind == NodeKind::IVar ==>
            json_value(st, n, s, tc, rs).out == st.out + decimal_signed((val_u64(n) as i64) as int),
{
    crate::pointer_ext::lemma_lit_bools();
    lemma_i64_cast(val_u64(n));
    assert((st.out + lit("false")).len() != (st.out + lit("true")).len());
}

/// The error text made of the fragments `e`, innermost (last) first, each quoted,
/// separated by `: `; the first `i` of them as written.
pub open spec fn errs_text(e: Seq<(usize, usize)>, s: Seq<u8>, i: nat) -> Seq<u8>
    decreases i,
{
    if i == 0 || i > e.len() {
        Seq::empty()
    } else {
        let (len, off) = e[e.len() - i];
        errs_text(e, s, (i - 1) as nat) + (if i > 1 { lit(": ") } else { Seq::empty() })
            + quoted(bytes_at(s, off as int, len as int))
    }
}

/// The end of a group: a closing brace; at the end of the outermost error object,
/// also the error text.
pub open spec fn json_group_end(st: JsonState, s: Seq<u8>) -> JsonState {
    let st1 = push_out(st, seq![125u8]);
    if st.depth == 0 {
        st1
    } else if st.depth != 1 {
        JsonState { depth: (st.depth - 1) as nat, ..st1 }
    } else {
        let text = if st.errs.len() > 0 {
            errs_text(st.errs, s, st.errs.len())
        } else {
            quoted(bytes_at(s, st.embed_text.1 as int, st.embed_text.0 as int))
        };
        JsonState {
            out: st1.out + lit(", ") + lit(PRETTY_JSON_TEXT_PREFIX) + text + seq![34u8, 125u8],
            depth: 0,
            old: true,
            errs: if st.errs.len() > 0 { Seq::empty() } else { st.errs },
            ..st1
        }
    }
}

/// The name of an element, with its separator before and `: ` after.
pub open spec fn json_key(st: JsonState, n: Node, s: Seq<u8>) -> JsonState {
    let sep = if st.old { lit(", ") } else { Seq::empty() };
    let name = match n.kind {
        NodeKind::ErrorStageNew => seq![34u8] + lit("NEW: ") + json_string(key_bytes(n, s)) + seq![34u8],
        NodeKind::ErrorStageWrap => seq![34u8] + lit("WRAP: ") + json_string(key_bytes(n, s)) + seq![34u8],
        NodeKind::ErrorStageCtx => seq![34u8] + lit("CTX") + seq![34u8],
        _ => json_string(key_bytes(n, s)),
    };
    let stage = n.kind == NodeKind::ErrorStageNew || n.kind == NodeKind::ErrorStageWrap
        || n.kind == NodeKind::ErrorStageCtx;
    JsonState {
        out: st.out + sep + name + lit(": "),
        old: true,
        depth: if stage { st.depth + 1 } else { st.depth },
        ..st
    }
}

/// The width in bytes of the items of a fixed-width slice kind.
pub open spec fn item_width(k: NodeKind) -> nat {
    match k {
        NodeKind::Bools | NodeKind::I8s | NodeKind::U8s => 1,
        NodeKind::I16s | NodeKind::U16s => 2,
        NodeKind::I32s | NodeKind::U32s | NodeKind::F32s => 4,
        _ => 8,
    }
}

/// Whether a node kind is a slice kind.
pub open spec fn is_slice_kind(k: NodeKind) -> bool {
    match k {
        NodeKind::Bools | NodeKind::Ints | NodeKind::I8s | NodeKind::I16s | NodeKind::I32s
        | NodeKind::I64s | NodeKind::Uints | NodeKind::U8s | NodeKind::U16s | NodeKind::U32s
        | NodeKind::U64s | NodeKind::F32s | NodeKind::F64s | NodeKind::Strs => true,
        _ => false,
    }
}

/// One slice item at `p` and the offset after it. Items of 16 and 32 bits are shown
/// as signed numbers whatever their kind; an item that does not lie inside `s`
/// reads as zero (a string item as empty).
pub open spec fn slice_item(k: NodeKind, s: Seq<u8>, t: Text, p: int) -> (Text, int) {
    let w = item_width(k);
    let v = le_or_zero(s, p, w);
    match k {
        NodeKind::Bools => (tpush(t, if v != 0 { lit("true") } else { lit("false") }), p + 1),
        NodeKind::I8s => (tpush(t, decimal_signed(to_signed(v, 0x80))), p + 1),
        NodeKind::I16s | NodeKind::U16s => (tpush(t, decimal_signed(to_signed(v, 0x8000))), p + 2),
        NodeKind::I32s | NodeKind::U32s => (tpush(t, decimal_signed(to_signed(v, 0x8000_0000))), p + 4),
        NodeKind::Ints | NodeKind::I64s => (tpush(t, decimal_signed(to_signed(v, 0x8000_0000_0000_0000))), p + 8),
        NodeKind::U8s => (tpush(t, decimal(v)), p + 1),
        NodeKind::F32s => (tslot(t, Fill::F32(v as u32)), p + 4),
        NodeKind::F64s => (tslot(t, Fill::F64(v as u64)), p + 8),
        NodeKind::Strs => match str_at(s, p) {
            Some((a, b)) => (tpush(t, json_string(s.subrange(a, b))), b),
            None => (tpush(t, json_string(Seq::empty())), p),
        },
        _ => (tpush(t, decimal(v)), p + 8),
    }
}

/// The first `n` items of a slice from `p`, separated by `, `.
pub open spec fn slice_run(k: NodeKind, s: Seq<u8>, t: Text, p: int, n: nat) -> (Text, int)
    decreases n,
{
    if n == 0 {
        (t, p)
    } else {
        let (t1, p1) = slice_run(k, s, t, p, (n - 1) as nat);
        let t2 = if n > 1 { tpush(t1, lit(", ")) } else { t1 };
        slice_item(k, s, t2, p1)
    }
}

/// A slice node: its items between brackets.
pub open spec fn slice_text(n: Node, s: Seq<u8>, t: Text) -> Text {
    let (t1, _p) = slice_run(n.kind, s, tpush(t, seq![91u8]), n.val_off as int, n.val_len as nat);
    tpush(t1, seq![93u8])
}

/// The value of an element: `tc` is the time color and `rs` the color reset.
pub open spec fn json_value(st: JsonState, n: Node, s: Seq<u8>, tc: Seq<u8>, rs: Seq<u8>) -> JsonState {
    match n.kind {
        NodeKind::Bool => push_out(st, if n.val_off != 0 { lit("true") } else { lit("false") }),
        NodeKind::Time => push_out(push_slot(push_out(st, seq![34u8] + tc), Fill::Time(val_u64(n) as i64)), rs + seq![34u8]),
        NodeKind::Dur => push_out(st, quoted(go_duration(val_u64(n) as nat))),
        NodeKind::Int | NodeKind::IVar | NodeKind::I64 =>
            push_out(st, decimal_signed(to_signed(val_u64(n) as nat, 0x8000_0000_0000_0000))),
        NodeKind::I8 | NodeKind::I16 | NodeKind::I32 | NodeKind::U8 | NodeKind::U16 | NodeKind::U32 =>
            push_out(st, decimal(n.val_off as nat)),
        NodeKind::Uint | NodeKind::UVar | NodeKind::U64 => push_out(st, decimal(val_u64(n) as nat)),
        NodeKind::F32 => push_slot(st, Fill::F32Wide(n.val_off)),
        NodeKind::F64 => push_slot(st, Fill::F64(val_u64(n))),
        NodeKind::Str | NodeKind::ErrTxt => push_out(st, json_string(val_bytes(n, s))),
        NodeKind::Bytes => push_out(st, quoted(base64_std(val_bytes(n, s)))),
        NodeKind::ErrLoc => push_out(st, quoted(key_bytes_direct(n, s) + seq![58u8] + decimal(n.val_off as nat))),
        NodeKind::Group => JsonState { out: st.out + seq![123u8], old: false, ..st },
        NodeKind::Error | NodeKind::ErrorEmbed => JsonState {
            out: st.out + lit(PRETTY_JSON_CONTEXT_PREFIX),
            old: false,
            depth: st.depth + 1,
            embed: n.kind == NodeKind::ErrorEmbed,
            errs: Seq::empty(),
            ..st
        },
        NodeKind::ErrorStageNew | NodeKind::ErrorStageWrap => JsonState {
            out: st.out + seq![123u8],
            old: false,
            errs: st.errs.push((n.key_len as usize, n.key_off as usize)),
            ..st
        },
        NodeKind::ErrorStageCtx => JsonState { out: st.out + seq![123u8], old: false, ..st },
        NodeKind::ErrTxtFragment | NodeKind::ErrEmbedText | NodeKind::GroupEnd => st,
        _ => {
            let t = slice_text(n, s, Text { out: st.out, slots: st.slots });
            JsonState { out: t.out, slots: t.slots, ..st }
        },
    }
}

/// One node of the context.
#[verifier::opaque]
pub open spec fn json_step(st: JsonState, n: Node, s: Seq<u8>, tc: Seq<u8>, rs: Seq<u8>) -> JsonState {
    match n.kind {
        NodeKind::ErrEmbedText => JsonState { embed_text: (n.val_len as usize, n.val_off as usize), ..st },
        NodeKind::ErrTxtFragment => if !st.embed {
            JsonState { errs: st.errs.push((n.key_len as usize, n.key_off as usize)), ..st }
        } else {
            st
        },
        NodeKind::GroupEnd => json_group_end(st, s),
        _ => json_value(json_key(st, n, s), n, s, tc, rs),
    }
}

/// The first `i` nodes of the context.
pub open spec fn json_run(nodes: Seq<Node>, s: Seq<u8>, tc: Seq<u8>, rs: Seq<u8>, st: JsonState, i: nat) -> JsonState
    decreases i,
{
    if i == 0 {
        st
    } else {
        json_step(json_run(nodes, s, tc, rs, st, (i - 1) as nat), nodes[i - 1], s, tc, rs)
    }
}

/// The context object of a renderer's record inside the record bytes `s`, written
/// after `out` with the places `slots` already taken: `{}` for no context, else the
/// elements between braces; then a line end.
pub open spec fn json_context(r: LogRender, s: Seq<u8>, out: Seq<u8>, slots: Seq<Slot>) -> JsonState {
    let init = JsonState {
        out: out + seq![123u8],
        slots,
        old: false,
        embed: false,
        embed_text: (0, 0),
        depth: 0,
        errs: r.err_stack@,
    };
    if r.ctx@.len() == 0 {
        JsonState { out: out + lit("{}\n"), ..init }
    } else {
        let st = json_run(r.ctx@, s, lit(r.color_profile.time), reset_text(r), init, r.ctx@.len());
        push_out(st, seq![125u8, 10u8])
    }
}

/// Converts a word holding a two's complement number whose sign bit is `half`.
pub(crate) fn signed_of(v: u64, half: u64) -> (r: i64)
    requires
        0 < half <= 0x8000_0000_0000_0000,
        v < 2 * half,
    ensures
        r as int == to_signed(v as nat, half as nat),
{
    if v < half {
        v as i64
    } else {
        let m: u64 = (half - 1) - (v - half);
        -(m as i64) - 1
    }
}

/// The little-endian integer of `n` bytes at `p`, 0 when they do not lie inside `src`.
pub(crate) fn read_le_at(src: &[u8], p: u64, n: usize) -> (v: u64)
    requires
        n <= 8,
    ensures
        v as nat == le_or_zero(src@, p as int, n as nat),
{
    if p > src.len() as u64 {
        0
    } else {
        read_le(src, p as usize, n)
    }
}

pub(crate) proof fn lemma_le_or_zero_bound(s: Seq<u8>, p: int, n: nat)
    requires
        n <= 8,
    ensures
        le_or_zero(s, p, n) < crate::pointer_ext::p256(n),
{
    crate::pointer_ext::lemma_p256_mono(0, n);
    if 0 <= p && p + n <= s.len() {
        crate::pointer_ext::lemma_le_at_bound(s, p, n);
    }
}

/// The string at `p`: its start and end, when it lies inside `src`.
pub(crate) fn str_at_exec(src: &[u8], p: u64) -> (r: Option<(usize, usize)>)
    ensures
        match str_at(src@, p as int) {
            Some((a, b)) => r == Some((a as usize, b as usize)),
            None => r is None,
        },
{
    if p > src.len() as u64 {
        return None;
    }
    let off = p as usize;
    match read_uvarint_checked(src, off) {
        Some((len, n)) => {
            let start = off + n;
            if len > (src.len() - start) as u64 {
                return None;
            }
            Some((start, start + len as usize))
        },
        None => None,
    }
}

impl LogRender {
    /// Writes one slice item at `p`; gives the offset after it.
    fn json_slice_item(&mut self, dst: &mut Vec<u8>, src: &[u8], k: NodeKind, p: u64) -> (q: u64)
        requires
            src@.len() <= usize::MAX / 4,
            p as int <= src@.len() + 0x1_0000_0000 + 8 * 0x1_0000_0000,
        ensures
            ({
                let (t, q2) = slice_item(k, src@, Text { out: old(dst)@, slots: old(self).slots@ }, p as int);
                &&& final(dst)@ == t.out
                &&& final(self).slots@ == t.slots
                &&& q as int == q2
            }),
            q <= p + 8 || q as int <= src@.len(),
            *final(self) == (LogRender { slots: final(self).slots, ..*old(self) }),
            slots_in_order(old(self).slots@, old(dst)@.len()) ==> slots_in_order(final(self).slots@, final(dst)@.len()),
    {
        proof {
            lemma_le_or_zero_bound(src@, p as int, item_width(k));
            reveal_with_fuel(crate::pointer_ext::p256, 9);
        }
        match k {
            NodeKind::Bools => {
                let v = read_le_at(src, p, 1);
                if v != 0 {
                    append_str(dst, "true");
                } else {
                    append_str(dst, "false");
                }
                p + 1
            },
            NodeKind::I8s => {
                let v = read_le_at(src, p, 1);
                append_itoa(dst, signed_of(v, 0x80));
                p + 1
            },
            NodeKind::I16s | NodeKind::U16s => {
                let v = read_le_at(src, p, 2);
                append_itoa(dst, signed_of(v, 0x8000));
                p + 2
            },
            NodeKind::I32s | NodeKind::U32s => {
                let v = read_le_at(src, p, 4);
                append_itoa(dst, signed_of(v, 0x8000_0000));
                p + 4
            },
            NodeKind::Ints | NodeKind::I64s => {
                let v = read_le_at(src, p, 8);
                append_itoa(dst, signed_of(v, 0x8000_0000_0000_0000));
                p + 8
            },
            NodeKind::U8s => {
                let v = read_le_at(src, p, 1);
                append_utoa(dst, v);
                p + 1
            },
            NodeKind::F32s => {
                let v = read_le_at(src, p, 4);
                self.slots.push(Slot { at: dst.len(), fill: Fill::F32(v as u32) });
                p + 4
            },
            NodeKind::F64s => {
                let v = read_le_at(src, p, 8);
                self.slots.push(Slot { at: dst.len(), fill: Fill::F64(v) });
                p + 8
            },
            NodeKind::Strs => {
                match str_at_exec(src, p) {
                    Some((a, b)) => {
                        push_json_string(dst, vstd::slice::slice_subrange(src, a, b));
                        b as u64
                    },
                    None => {
                        push_json_string(dst, vstd::slice::slice_subrange(src, 0, 0));
                        p
                    },
                }
            },
            _ => {
                let v = read_le_at(src, p, 8);
                append_utoa(dst, v);
                p + 8
            },
        }
    }
}


impl LogRender {
    /// Writes a slice node: its items between brackets.
    fn json_slice(&mut self, dst: &mut Vec<u8>, src: &[u8], n: Node)
        requires
            src@.len() <= usize::MAX / 4,
        ensures
            ({
                let t = slice_text(n, src@, Text { out: old(dst)@, slots: old(self).slots@ });
                final(dst)@ == t.out && final(self).slots@ == t.slots
            }),
            *final(self) == (LogRender { slots: final(self).slots, ..*old(self) }),
            slots_in_order(old(self).slots@, old(dst)@.len()) ==> slots_in_order(final(self).slots@, final(dst)@.len()),
    {
        let ghost t0 = Text { out: old(dst)@, slots: old(self).slots@ };
        let ghost r0 = *self;
        dst.push(91);
        let mut p: u64 = n.val_off as u64;
        let mut i: u32 = 0;
        while i < n.val_len
            invariant
                src@.len() <= usize::MAX / 4,
                i <= n.val_len,
                p as int <= src@.len() + 0x1_0000_0000 + 8 * i,
                slice_run(n.kind, src@, tpush(t0, seq![91u8]), n.val_off as int, i as nat).0
                    == (Text { out: dst@, slots: self.slots@ }),
                slice_run(n.kind, src@, tpush(t0, seq![91u8]), n.val_off as int, i as nat).1 == p as int,
                *self == (LogRender { slots: self.slots, ..r0 }),
                slots_in_order(old(self).slots@, old(dst)@.len()) ==> slots_in_order(self.slots@, dst@.len()),
            decreases n.val_len - i,
        {
            if i > 0 {
                append_str(dst, ", ");
            }
            p = self.json_slice_item(dst, src, n.kind, p);
            i += 1;
        }
        dst.push(93);
    }

    /// Writes the end of a group, and the error text at the end of the outermost
    /// error object.
    fn json_group_end_exec(&mut self, dst: &mut Vec<u8>, src: &[u8], c: &mut JsonCursor)
        ensures
            jstate(final(dst)@, final(self).slots@, *final(c), final(self).err_stack@)
                == json_group_end(jstate(old(dst)@, old(self).slots@, *old(c), old(self).err_stack@), src@),
            *final(self) == (LogRender { err_stack: final(self).err_stack, ..*old(self) }),
            slots_in_order(old(self).slots@, old(dst)@.len()) ==> slots_in_order(final(self).slots@, final(dst)@.len()),
    {
        dst.push(125);
        if c.depth == 0 {
            return;
        }
        if c.depth != 1 {
            c.depth = c.depth - 1;
            return;
        }
        c.depth = 0;
        append_str(dst, ", ");
        append_str(dst, PRETTY_JSON_TEXT_PREFIX);
        let len = self.err_stack.len();
        if len > 0 {
            let ghost base = dst@;
            let mut i: usize = 0;
            while i < len
                invariant
                    i <= len == self.err_stack@.len(),
                    dst@ == base + errs_text(self.err_stack@, src@, i as nat),
                decreases len - i,
            {
                let (l, o) = self.err_stack[len - 1 - i];
                if i > 0 {
                    append_str(dst, ": ");
                }
                render_safe_json_string(dst, sub_slice(src, o, l));
                i += 1;
            }
            self.err_stack.clear();
        } else {
            render_safe_json_string(dst, sub_slice(src, c.embed_text.1, c.embed_text.0));
        }
        dst.push(34);
        dst.push(125);
        c.old = true;
    }

    /// Writes the name of an element, with the separator before it.
    fn json_key_exec(&self, dst: &mut Vec<u8>, src: &[u8], c: &mut JsonCursor, n: Node)
        requires
            old(c).depth < usize::MAX,
        ensures
            jstate(final(dst)@, self.slots@, *final(c), self.err_stack@)
                == json_key(jstate(old(dst)@, self.slots@, *old(c), self.err_stack@), n, src@),
            slots_in_order(self.slots@, old(dst)@.len()) ==> slots_in_order(self.slots@, final(dst)@.len()),
    {
        if c.old {
            append_str(dst, ", ");
        }
        c.old = true;
        match n.kind {
            NodeKind::ErrorStageNew => {
                dst.push(34);
                append_str(dst, "NEW: ");
                push_json_string(dst, n.key_as_slice(src));
                dst.push(34);
                c.depth = c.depth + 1;
            },
            NodeKind::ErrorStageWrap => {
                dst.push(34);
                append_str(dst, "WRAP: ");
                push_json_string(dst, n.key_as_slice(src));
                dst.push(34);
                c.depth = c.depth + 1;
            },
            NodeKind::ErrorStageCtx => {
                dst.push(34);
                append_str(dst, "CTX");
                dst.push(34);
                c.depth = c.depth + 1;
            },
            _ => {
                push_json_string(dst, n.key_as_slice(src));
            },
        }
        append_str(dst, ": ");
    }

    /// Writes the value of a scalar element.
    fn json_scalar(&mut self, dst: &mut Vec<u8>, src: &[u8], n: Node)
        requires
            src@.len() <= usize::MAX / 4,
            !is_slice_kind(n.kind),
            n.kind != NodeKind::Group && n.kind != NodeKind::Error && n.kind != NodeKind::ErrorEmbed,
            n.kind != NodeKind::ErrorStageNew && n.kind != NodeKind::ErrorStageWrap,
            n.kind != NodeKind::ErrorStageCtx,
        ensures
            ({
                let c = JsonCursor { old: false, embed: false, embed_text: (0, 0), depth: 0 };
                let st = json_value(jstate(old(dst)@, old(self).slots@, c, Seq::empty()), n, src@,
                    lit(old(self).color_profile.time), reset_text(*old(self)));
                final(dst)@ == st.out && final(self).slots@ == st.slots
            }),
            *final(self) == (LogRender { slots: final(self).slots, ..*old(self) }),
            slots_in_order(old(self).slots@, old(dst)@.len()) ==> slots_in_order(final(self).slots@, final(dst)@.len()),
    {
        match n.kind {
            NodeKind::Bool => {
                if n.val_off != 0 {
                    append_str(dst, "true");
                } else {
                    append_str(dst, "false");
                }
            },
            NodeKind::Time => {
                dst.push(34);
                self.render_time_slot(dst, n.val_as_u64() as i64);
                dst.push(34);
            },
            NodeKind::Dur => {
                dst.push(34);
                render_go_duration(dst, n.val_as_u64());
                dst.push(34);
            },
            NodeKind::Int | NodeKind::IVar | NodeKind::I64 => {
                append_itoa(dst, signed_of(n.val_as_u64(), 0x8000_0000_0000_0000));
            },
            NodeKind::I8 | NodeKind::I16 | NodeKind::I32 | NodeKind::U8 | NodeKind::U16 | NodeKind::U32 => {
                append_utoa(dst, n.val_off as u64);
            },
            NodeKind::Uint | NodeKind::UVar | NodeKind::U64 => {
                append_utoa(dst, n.val_as_u64());
            },
            NodeKind::F32 => {
                self.slots.push(Slot { at: dst.len(), fill: Fill::F32Wide(n.val_off) });
            },
            NodeKind::F64 => {
                self.slots.push(Slot { at: dst.len(), fill: Fill::F64(n.val_as_u64()) });
            },
            NodeKind::Str | NodeKind::ErrTxt => {
                push_json_string(dst, n.val_as_slice(src));
            },
            NodeKind::Bytes => {
                dst.push(34);
                base64_append(dst, n.val_as_slice(src));
                dst.push(34);
            },
            NodeKind::ErrLoc => {
                dst.push(34);
                append(dst, n.key_as_slice_direct(src));
                dst.push(58);
                append_utoa(dst, n.val_off as u64);
                dst.push(34);
            },
            _ => {},
        }
    }
}


/// Whether `k` is a slice kind.
pub(crate) fn is_slice(k: NodeKind) -> (b: bool)
    ensures
        b == is_slice_kind(k),
{
    match k {
        NodeKind::Bools | NodeKind::Ints | NodeKind::I8s | NodeKind::I16s | NodeKind::I32s
        | NodeKind::I64s | NodeKind::Uints | NodeKind::U8s | NodeKind::U16s | NodeKind::U32s
        | NodeKind::U64s | NodeKind::F32s | NodeKind::F64s | NodeKind::Strs => true,
        _ => false,
    }
}

impl LogRender {
    /// Writes one node of the context.
    fn json_node(&mut self, dst: &mut Vec<u8>, src: &[u8], c: &mut JsonCursor, n: Node)
        requires
            src@.len() <= usize::MAX / 4,
            old(c).depth < usize::MAX,
        ensures
            jstate(final(dst)@, final(self).slots@, *final(c), final(self).err_stack@)
                == json_step(jstate(old(dst)@, old(self).slots@, *old(c), old(self).err_stack@), n, src@,
                    lit(old(self).color_profile.time), reset_text(*old(self))),
            *final(self) == (LogRender { slots: final(self).slots, err_stack: final(self).err_stack, ..*old(self) }),
            final(c).depth <= old(c).depth + 1,
            slots_in_order(old(self).slots@, old(dst)@.len()) ==> slots_in_order(final(self).slots@, final(dst)@.len()),
    {
        reveal(json_step);
        match n.kind {
            NodeKind::ErrEmbedText => {
                c.embed_text = (n.val_len as usize, n.val_off as usize);
            },
            NodeKind::ErrTxtFragment => {
                if !c.embed {
                    self.err_stack.push((n.key_len as usize, n.key_off as usize));
                }
            },
            NodeKind::GroupEnd => {
                self.json_group_end_exec(dst, src, c);
            },
            _ => {
                self.json_key_exec(dst, src, c, n);
                match n.kind {
                    NodeKind::Group => {
                        dst.push(123);
                        c.old = false;
                    },
                    NodeKind::Error | NodeKind::ErrorEmbed => {
                        append_str(dst, PRETTY_JSON_CONTEXT_PREFIX);
                        c.old = false;
                        c.depth = c.depth + 1;
                        c.embed = n.kind == NodeKind::ErrorEmbed;
                        self.err_stack.clear();
                    },
                    NodeKind::ErrorStageNew | NodeKind::ErrorStageWrap => {
                        dst.push(123);
                        c.old = false;
                        self.err_stack.push((n.key_len as usize, n.key_off as usize));
                    },
                    NodeKind::ErrorStageCtx => {
                        dst.push(123);
                        c.old = false;
                    },
                    _ => {
                        if is_slice(n.kind) {
                            self.json_slice(dst, src, n);
                        } else {
                            self.json_scalar(dst, src, n);
                        }
                    },
                }
            },
        }
    }

    /// Writes the context of the current record as a JSON-like object and a line
    /// end; floating-point values and points in time are left as places in `slots`.
    pub fn render_json(&mut self, dst: &mut Vec<u8>, src: &[u8])
        requires
            src@.len() <= usize::MAX / 4,
        ensures
            ({
                let st = json_context(*old(self), src@, old(dst)@, old(self).slots@);
                &&& final(dst)@ == st.out
                &&& final(self).slots@ == st.slots
                &&& final(self).err_stack@ == st.errs
            }),
            *final(self) == (LogRender { slots: final(self).slots, err_stack: final(self).err_stack, ..*old(self) }),
            slots_in_order(old(self).slots@, old(dst)@.len()) ==> slots_in_order(final(self).slots@, final(dst)@.len()),
    {
        if self.ctx.len() == 0 {
            append_str(dst, "{}\n");
            return;
        }
        dst.push(123);
        assert(dst@ =~= old(dst)@ + seq![123u8]);
        let mut c = JsonCursor { old: false, embed: false, embed_text: (0, 0), depth: 0 };
        let ghost r0 = *self;
        let ghost init = jstate(dst@, self.slots@, c, self.err_stack@);
        let mut i: usize = 0;
        while i < self.ctx.len()
            invariant
                src@.len() <= usize::MAX / 4,
                i <= r0.ctx@.len(),
                c.depth <= i,
                *self == (LogRender { slots: self.slots, err_stack: self.err_stack, ..r0 }),
                slots_in_order(old(self).slots@, old(dst)@.len()) ==> slots_in_order(self.slots@, dst@.len()),
                jstate(dst@, self.slots@, c, self.err_stack@)
                    == json_run(r0.ctx@, src@, lit(r0.color_profile.time), reset_text(r0), init, i as nat),
            decreases r0.ctx@.len() - i,
        {
            let n = self.ctx[i];
            self.json_node(dst, src, &mut c, n);
            i += 1;
        }
        let ghost before = dst@;
        dst.push(125);
        dst.push(10);
        assert(dst@ =~= before + seq![125u8, 10u8]);
    }
}

} // verus!
