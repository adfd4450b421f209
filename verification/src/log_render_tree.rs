//! The context of a record as an indented tree.
use vstd::prelude::*;
use crate::itoa2::{append_itoa, append_utoa, decimal, decimal_signed};
use crate::log_parser_node::{group_is_empty, key_bytes_direct, spec_group_is_empty, val_bytes, val_u64, Node, NodeKind};
use crate::log_rend::{go_duration, render_go_duration};
use crate::log_rend_json::{base64_append, base64_std};
use crate::log_render::{slots_in_order, Fill, LogRender, Slot};
use crate::log_render_color::{reset_text, ColorProfile};
use crate::log_render_json::{
    is_slice, is_slice_kind, item_width, lemma_le_or_zero_bound, read_le_at, signed_of, str_at_exec, to_signed, Text,
    tpush, tslot,
};
use crate::pointer_ext::{append, append_str, bytes_at, le_at, le_or_zero, lit, sub_slice, str_at};
use crate::value_kind::{
    predefined_key_name_of, predefined_name, PREDEFINED_NAME_CONTEXT, PREDEFINED_NAME_LOCATION, PREDEFINED_NAME_TEXT,
};

verus! {

/// The branch before an element that has siblings after it.
pub const TREE_ITEM_INTR: &'static str = "├─ ";
/// The branch before the last element of its group.
pub const TREE_ITEM_FIN: &'static str = "└─ ";
/// The indentation under an element that has siblings after it.
pub const TREE_LINE_CONT: &'static str = "│  ";
/// The indentation under the last element of its group.
pub const TREE_LINE_NONE: &'static str = "   ";

/// The state of tree rendering between two nodes.
#[verifier::ext_equal]
pub ghost struct TreeState {
    pub out: Seq<u8>,
    pub slots: Seq<Slot>,
    /// Length and offset of the fragments of the error text, innermost last.
    pub errs: Seq<(usize, usize)>,
    /// Length and offset of the text that an error brings along.
    pub err_text: (usize, usize),
    /// Whether the error being rendered brings its text along.
    pub embed: bool,
    /// How deep inside an error the rendering is.
    pub depth: nat,
    /// One bit per indentation level: set where a vertical line continues.
    pub prefix: u64,
    /// The indentation level.
    pub level: i64,
}

/// The executable counterpart of the scalar parts of [TreeState] that are not
/// fields of the renderer.
#[derive(Debug, Clone, Copy)]
pub struct TreeCursor {
    pub err_text: (usize, usize),
    pub embed: bool,
    pub depth: usize,
}

/// The tree state that a renderer, a text and a cursor make.
pub open spec fn tstate(r: LogRender, out: Seq<u8>, c: TreeCursor) -> TreeState {
    TreeState {
        out,
        slots: r.slots@,
        errs: r.err_stack@,
        err_text: c.err_text,
        embed: c.embed,
        depth: c.depth as nat,
        prefix: r.tree_prefix,
        level: r.tree_depth,
    }
}

/// `prefix` with the bit of level `d` set (`on`) or cleared; levels outside the
/// word leave it as it is.
pub open spec fn with_bit(prefix: u64, d: i64, on: bool) -> u64 {
    if 0 <= d < 64 {
        if on {
            prefix | (1u64 << (d as u64))
        } else {
            prefix & !(1u64 << (d as u64))
        }
    } else {
        prefix
    }
}

/// Whether the bit of level `d` is set.
pub open spec fn bit_at(prefix: u64, d: int) -> bool {
    0 <= d < 64 && prefix & (1u64 << (d as u64)) != 0
}

/// The indentation of the first `n` levels.
pub open spec fn indent_text(prefix: u64, n: nat) -> Seq<u8>
    decreases n,
{
    if n == 0 {
        Seq::empty()
    } else {
        indent_text(prefix, (n - 1) as nat)
            + (if bit_at(prefix, n - 1) { lit(TREE_LINE_CONT) } else { lit(TREE_LINE_NONE) })
    }
}

proof fn lemma_with_bit_other(prefix: u64, d: i64, on: bool, e: int)
    requires
        e != d,
    ensures
        bit_at(with_bit(prefix, d, on), e) == bit_at(prefix, e),
{
    if 0 <= d < 64 && 0 <= e < 64 {
        let dd = d as u64;
        let ee = e as u64;
        assert(dd != ee);
        assert(dd < 64 && ee < 64 && dd != ee ==>
            ((prefix | (1u64 << dd)) & (1u64 << ee) != 0) == (prefix & (1u64 << ee) != 0)
            && ((prefix & !(1u64 << dd)) & (1u64 << ee) != 0) == (prefix & (1u64 << ee) != 0)) by (bit_vector);
    }
}

/// Going one level deeper and back up again (`push_prefix`, then `pop_prefix`)
/// restores the depth and the indentation of every line start up to that depth:
/// the levels above keep their vertical lines, whatever the deeper level showed.
pub proof fn law_pop_undoes_push(prefix: u64, depth: i64, last: bool, n: nat)
    requires
        0 <= depth < i64::MAX,
        n <= depth,
    ensures
        ((depth + 1) - 1) as i64 == depth,
        indent_text(with_bit(with_bit(prefix, depth, !last), depth, false), n) == indent_text(prefix, n),
    decreases n,
{
    if n > 0 {
        law_pop_undoes_push(prefix, depth, last, (n - 1) as nat);
        let q = with_bit(prefix, depth, !last);
        lemma_with_bit_other(q, depth, false, n - 1);
        lemma_with_bit_other(prefix, depth, !last, n - 1);
    }
}

/// The start of an element's line: the indentation and the branch, in the link color.
pub open spec fn line_start(p: ColorProfile, rs: Seq<u8>, prefix: u64, level: i64, last: bool) -> Seq<u8> {
    lit(p.link) + indent_text(prefix, if level > 0 { level as nat } else { 0 })
        + (if last { lit(TREE_ITEM_FIN) } else { lit(TREE_ITEM_INTR) }) + rs
}

/// One level deeper; the new level shows a vertical line unless `last`.
pub open spec fn push_level(st: TreeState, last: bool) -> TreeState {
    TreeState { prefix: with_bit(st.prefix, st.level, !last), level: (st.level + 1) as i64, ..st }
}

/// One level up.
pub open spec fn pop_level(st: TreeState) -> TreeState {
    TreeState { prefix: with_bit(st.prefix, (st.level - 1) as i64, false), level: (st.level - 1) as i64, ..st }
}

/// The state with `b` written.
pub open spec fn tout(st: TreeState, b: Seq<u8>) -> TreeState {
    TreeState { out: st.out + b, ..st }
}

/// The error text made of the fragments `e`, innermost (last) first, separated by
/// `: `; the first `i` of them as written.
pub open spec fn tree_errs_text(e: Seq<(usize, usize)>, s: Seq<u8>, i: nat) -> Seq<u8>
    decreases i,
{
    if i == 0 || i > e.len() {
        Seq::empty()
    } else {
        let (len, off) = e[e.len() - i];
        tree_errs_text(e, s, (i - 1) as nat) + (if i > 1 { lit(": ") } else { Seq::empty() })
            + bytes_at(s, off as int, len as int)
    }
}

/// One item of a slice at `p` in the tree, and the offset after it.
#[verifier::opaque]
pub open spec fn tree_item(k: NodeKind, s: Seq<u8>, t: Text, p: int) -> (Text, int) {
    let w = item_width(k);
    let v = le_or_zero(s, p, w);
    match k {
        NodeKind::Bools => (tpush(t, if v != 0 { lit("true") } else { lit("false") }), p + 1),
        NodeKind::I8s => (tpush(t, decimal_signed(to_signed(v, 0x80))), p + 1),
        NodeKind::I16s => (tpush(t, decimal_signed(to_signed(v, 0x8000))), p + 2),
        NodeKind::I32s => (tpush(t, decimal_signed(to_signed(v, 0x8000_0000))), p + 4),
        NodeKind::Ints | NodeKind::I64s => (tpush(t, decimal_signed(to_signed(v, 0x8000_0000_0000_0000))), p + 8),
        NodeKind::U8s => (tpush(t, decimal(v)), p + 1),
        NodeKind::U16s => (tpush(t, decimal(v)), p + 2),
        NodeKind::U32s => (tpush(t, decimal(v)), p + 4),
        NodeKind::F32s => (tslot(t, Fill::F32(v as u32)), p + 4),
        NodeKind::F64s => (tslot(t, Fill::F64(v as u64)), p + 8),
        NodeKind::Strs => match str_at(s, p) {
            Some((a, b)) => (tpush(t, s.subrange(a, b)), b),
            None => (t, p),
        },
        _ => (tpush(t, decimal(v)), p + 8),
    }
}

/// The first `n` items of a slice from `p` on one line, separated by `, `.
pub open spec fn tree_items_inline(k: NodeKind, s: Seq<u8>, t: Text, p: int, n: nat) -> (Text, int)
    decreases n,
{
    if n == 0 {
        (t, p)
    } else {
        let (t1, p1) = tree_items_inline(k, s, t, p, (n - 1) as nat);
        let t2 = if n > 1 { tpush(t1, lit(", ")) } else { t1 };
        tree_item(k, s, t2, p1)
    }
}

/// The first `n` of the `count` items of a slice from `p`, one per line, each with
/// its index.
pub open spec fn tree_items_lines(
    k: NodeKind,
    s: Seq<u8>,
    pr: ColorProfile,
    rs: Seq<u8>,
    st: TreeState,
    p: int,
    n: nat,
    count: nat,
) -> (TreeState, int)
    decreases n,
{
    if n == 0 {
        (st, p)
    } else {
        let (st1, p1) = tree_items_lines(k, s, pr, rs, st, p, (n - 1) as nat, count);
        let i = (n - 1) as nat;
        let st2 = tout(st1, line_start(pr, rs, st1.prefix, st1.level, i + 1 == count) + decimal(i) + lit(": "));
        let (t, p2) = tree_item(k, s, Text { out: st2.out, slots: st2.slots }, p1);
        (TreeState { out: t.out + seq![10u8], slots: t.slots, ..st2 }, p2)
    }
}

/// A slice value: inline after `: ` when shorter than `ea` items, else one item per
/// line one level deeper.
pub open spec fn tree_slice(n: Node, s: Seq<u8>, pr: ColorProfile, rs: Seq<u8>, ea: usize, st: TreeState) -> TreeState {
    let last = n.is_last != 0;
    if (n.val_len as nat) < ea {
        let (t, _p) = tree_items_inline(n.kind, s, Text { out: st.out + lit(": "), slots: st.slots }, n.val_off as int, n.val_len as nat);
        TreeState { out: t.out + seq![10u8], slots: t.slots, ..st }
    } else {
        let st1 = tout(push_level(st, last), seq![10u8]);
        let (st2, _p) = tree_items_lines(n.kind, s, pr, rs, st1, n.val_off as int, n.val_len as nat, n.val_len as nat);
        TreeState { level: (st2.level - 1) as i64, ..st2 }
    }
}

/// What follows the branch of the error text line: the name, the text and the reset.
pub open spec fn error_text_tail(st: TreeState, s: Seq<u8>, pr: ColorProfile, rs: Seq<u8>) -> Seq<u8> {
    let text = if st.embed {
        bytes_at(s, st.err_text.1 as int, st.err_text.0 as int)
    } else {
        tree_errs_text(st.errs, s, st.errs.len())
    };
    lit(pr.err_key) + lit(predefined_name(PREDEFINED_NAME_TEXT)) + lit(": ") + lit(pr.error) + text + rs + seq![10u8]
}

proof fn lemma_items_lines_keep_level(k: NodeKind, s: Seq<u8>, pr: ColorProfile, rs: Seq<u8>, st: TreeState, p: int, n: nat, count: nat)
    ensures
        tree_items_lines(k, s, pr, rs, st, p, n, count).0.level == st.level,
        tree_items_lines(k, s, pr, rs, st, p, n, count).0.prefix == st.prefix,
    decreases n,
{
    if n > 0 {
        lemma_items_lines_keep_level(k, s, pr, rs, st, p, (n - 1) as nat, count);
    }
}

proof fn lemma_indent_other_bit(prefix: u64, d: i64, on: bool, m: nat)
    requires
        m <= d,
    ensures
        indent_text(with_bit(prefix, d, on), m) == indent_text(prefix, m),
    decreases m,
{
    if m > 0 {
        lemma_indent_other_bit(prefix, d, on, (m - 1) as nat);
        lemma_with_bit_other(prefix, d, on, m - 1);
    }
}

/// A slice value leaves the tree where it found it: whether its items go inline or
/// one per line a level deeper, the level afterwards is the level before, and the
/// indentation of every level up to it is unchanged.
pub proof fn law_tree_slice_keeps_level(n: Node, s: Seq<u8>, pr: ColorProfile, rs: Seq<u8>, ea: usize, st: TreeState, m: nat)
    requires
        0 <= st.level < i64::MAX,
        m <= st.level,
    ensures
        tree_slice(n, s, pr, rs, ea, st).level == st.level,
        indent_text(tree_slice(n, s, pr, rs, ea, st).prefix, m) == indent_text(st.prefix, m),
{
    if (n.val_len as nat) >= ea {
        let st1 = tout(push_level(st, n.is_last != 0), seq![10u8]);
        lemma_items_lines_keep_level(n.kind, s, pr, rs, st1, n.val_off as int, n.val_len as nat, n.val_len as nat);
        lemma_indent_other_bit(st.prefix, st.level, !(n.is_last != 0), m);
    }
}

/// The end of a group; at the end of the outermost error, also the error text.
pub open spec fn tree_group_end(st: TreeState, s: Seq<u8>, pr: ColorProfile, rs: Seq<u8>) -> TreeState {
    let st1 = pop_level(st);
    if st.depth == 0 {
        st1
    } else if st.depth != 1 {
        TreeState { depth: (st.depth - 1) as nat, ..st1 }
    } else {
        let st2 = TreeState { depth: 0, ..st1 };
        let head = line_start(pr, rs, st2.prefix, st2.level, true);
        tout(pop_level(st2), head + error_text_tail(st, s, pr, rs))
    }
}

/// The name part of a node (before its value): its line start, the key and `: `.
pub open spec fn tree_key_text(n: Node, s: Seq<u8>, pr: ColorProfile, rs: Seq<u8>, prefix: u64, level: i64) -> Seq<u8> {
    let last = n.is_last != 0;
    let key = bytes_at(s, n.key_off as int, n.key_len as int);
    let (color, k) = match n.kind {
        NodeKind::ErrLoc => (lit(pr.key), lit(predefined_name(PREDEFINED_NAME_LOCATION))),
        NodeKind::Error | NodeKind::ErrorEmbed | NodeKind::ErrTxt => (lit(pr.err_key), key),
        _ => (lit(pr.key), key),
    };
    line_start(pr, rs, prefix, level, last) + color + k + lit(": ") + rs
}

/// The value part of a node.
pub open spec fn tree_value(st: TreeState, n: Node, s: Seq<u8>, pr: ColorProfile, rs: Seq<u8>, ea: usize) -> TreeState {
    let last = n.is_last != 0;
    match n.kind {
        NodeKind::Bool => tout(st, (if n.val_off != 0 { lit("true") } else { lit("false") }) + seq![10u8]),
        NodeKind::Time => {
            let st1 = tout(st, lit(pr.time));
            let st2 = TreeState { slots: st1.slots.push(Slot { at: st1.out.len() as usize, fill: Fill::Time(val_u64(n) as i64) }), ..st1 };
            tout(st2, rs + seq![10u8])
        },
        NodeKind::Dur => tout(st, go_duration(val_u64(n) as nat)),
        NodeKind::Int | NodeKind::I64 | NodeKind::IVar =>
            tout(st, decimal_signed(to_signed(val_u64(n) as nat, 0x8000_0000_0000_0000)) + seq![10u8]),
        NodeKind::I8 | NodeKind::I16 | NodeKind::I32 | NodeKind::U8 | NodeKind::U16 | NodeKind::U32 =>
            tout(st, decimal(n.val_off as nat) + seq![10u8]),
        NodeKind::Uint | NodeKind::UVar | NodeKind::U64 => tout(st, decimal(val_u64(n) as nat) + seq![10u8]),
        NodeKind::F32 => tout(TreeState { slots: st.slots.push(Slot { at: st.out.len() as usize, fill: Fill::F32Wide(n.val_off) }), ..st }, seq![10u8]),
        NodeKind::F64 => tout(TreeState { slots: st.slots.push(Slot { at: st.out.len() as usize, fill: Fill::F64(val_u64(n)) }), ..st }, seq![10u8]),
        NodeKind::Str => tout(st, val_bytes(n, s) + seq![10u8]),
        NodeKind::Bytes => tout(st, lit("base64.") + base64_std(val_bytes(n, s)) + seq![10u8]),
        NodeKind::ErrTxt => tout(st, lit(pr.error) + val_bytes(n, s) + rs + seq![10u8]),
        NodeKind::ErrLoc => tout(st, lit(pr.loc) + key_bytes_direct(n, s) + seq![58u8] + decimal(n.val_off as nat) + rs + seq![10u8]),
        NodeKind::Group => push_level(tout(st, if spec_group_is_empty(n) { lit("{}\n") } else { seq![10u8] }), last),
        NodeKind::Error | NodeKind::ErrorEmbed => {
            let st1 = push_level(tout(TreeState { embed: n.kind == NodeKind::ErrorEmbed, depth: st.depth + 1, ..st }, seq![10u8]), last);
            let st2 = tout(st1, line_start(pr, rs, st1.prefix, st1.level, false) + lit(pr.key) + lit(predefined_name(PREDEFINED_NAME_CONTEXT)) + rs + seq![10u8]);
            push_level(st2, false)
        },
        NodeKind::ErrTxtFragment | NodeKind::ErrEmbedText | NodeKind::GroupEnd
        | NodeKind::ErrorStageNew | NodeKind::ErrorStageWrap | NodeKind::ErrorStageCtx => st,
        _ => tree_slice(n, s, pr, rs, ea, st),
    }
}

/// The items of a slice in the tree: a boolean byte is `false` when 0 and `true`
/// otherwise; a signed item is the decimal text of its two's complement value; an
/// unsigned item is the decimal text of its word; each item takes its width.
pub proof fn law_tree_slice_items(k: NodeKind, s: Seq<u8>, t: Text, p: int)
    requires
        0 <= p,
        p + item_width(k) <= s.len(),
    ensures
        k == NodeKind::Bools ==> (tree_item(k, s, t, p).0.out == t.out + lit("false") <==> s[p] == 0)
            && (tree_item(k, s, t, p).0.out == t.out + lit("true") <==> s[p] != 0),
        k == NodeKind::I8s ==> tree_item(k, s, t, p).0.out == t.out + decimal_signed((s[p] as i8) as int),
        k == NodeKind::I16s ==> tree_item(k, s, t, p).0.out
            == t.out + decimal_signed(((le_at(s, p, 2) as u16) as i16) as int),
        k == NodeKind::I32s ==> tree_item(k, s, t, p).0.out
            == t.out + decimal_signed(((le_at(s, p, 4) as u32) as i32) as int),
        k == NodeKind::Ints || k == NodeKind::I64s ==> tree_item(k, s, t, p).0.out
            == t.out + decimal_signed(((le_at(s, p, 8) as u64) as i64) as int),
        k == NodeKind::U8s ==> tree_item(k, s, t, p).0.out == t.out + decimal(s[p] as nat),
        k == NodeKind::U16s ==> tree_item(k, s, t, p).0.out == t.out + decimal(le_at(s, p, 2)),
        k == NodeKind::U32s ==> tree_item(k, s, t, p).0.out == t.out + decimal(le_at(s, p, 4)),
        k == NodeKind::Uints || k == NodeKind::U64s ==> tree_item(k, s, t, p).0.out == t.out + decimal(le_at(s, p, 8)),
        k != NodeKind::Strs ==> tree_item(k, s, t, p).1 == p + item_width(k),
{
    reveal(tree_item);
    crate::pointer_ext::lemma_lit_bools();
    crate::log_render_json::lemma_word_bounds(s, p);
    crate::log_render_json::lemma_small_casts(s[p] as nat);
    crate::log_render_json::lemma_small_casts(le_at(s, p, 2));
    crate::log_render_json::lemma_small_casts(le_at(s, p, 4));
    crate::log_render_json::lemma_small_casts(le_at(s, p, 8));
    assert((s[p] as u8) as i8 == s[p] as i8);
    assert((t.out + lit("false")).len() != (t.out + lit("true")).len());
}

/// In the tree a Bool node is written as `false` when its byte is 0 and as `true`
/// otherwise, and a 64-bit signed node (Int, I64, IVar) as the decimal text of the
/// signed value of its word, each followed by a line end.
pub proof fn law_tree_scalar_values(st: TreeState, n: Node, s: Seq<u8>, pr: ColorProfile, rs: Seq<u8>, ea: usize)
    ensures
        n.kind == NodeKind::Bool ==> (tree_value(st, n, s, pr, rs, ea).out == st.out + lit("false") + seq![10u8]
            <==> n.val_off == 0),
        n.kind == NodeKind::Bool ==> (tree_value(st, n, s, pr, rs, ea).out == st.out + lit("true") + seq![10u8]
            <==> n.val_off != 0),
        n.kind == NodeKind::Int || n.kind == NodeKind::I64 || n.kind == NodeKind::IVar ==>
            tree_value(st, n, s, pr, rs, ea).out == st.out + decimal_signed((val_u64(n) as i64) as int) + seq![10u8],
{
    crate::pointer_ext::lemma_lit_bools();
    crate::log_render_json::lemma_i64_cast(val_u64(n));
    assert((st.out + lit("false") + seq![10u8]).len() != (st.out + lit("true") + seq![10u8]).len());
    assert(st.out + (lit("false") + seq![10u8]) =~= st.out + lit("false") + seq![10u8]);
    assert(st.out + (lit("true") + seq![10u8]) =~= st.out + lit("true") + seq![10u8]);
    let d = decimal_signed((val_u64(n) as i64) as int);
    assert(st.out + (d + seq![10u8]) =~= st.out + d + seq![10u8]);
}

/// An error stage: its line, one level deeper after it.
pub open spec fn tree_stage(st: TreeState, n: Node, s: Seq<u8>, pr: ColorProfile, rs: Seq<u8>) -> TreeState {
    let last = n.is_last != 0;
    let key = bytes_at(s, n.key_off as int, n.key_len as int);
    let head = line_start(pr, rs, st.prefix, st.level, last) + lit(pr.bold) + lit(pr.key);
    let text = match n.kind {
        NodeKind::ErrorStageNew => lit("NEW: ") + key,
        NodeKind::ErrorStageWrap => lit("WRAP: ") + key,
        _ => lit("CTX"),
    };
    let errs = if n.kind != NodeKind::ErrorStageCtx && !st.embed {
        st.errs.push((n.key_len as usize, n.key_off as usize))
    } else {
        st.errs
    };
    push_level(TreeState { out: st.out + head + text + seq![10u8], errs, depth: st.depth + 1, ..st }, false)
}

/// One node of the context.
#[verifier::opaque]
pub open spec fn tree_step(st: TreeState, n: Node, s: Seq<u8>, pr: ColorProfile, rs: Seq<u8>, ea: usize) -> TreeState {
    match n.kind {
        NodeKind::ErrTxtFragment => if !st.embed {
            TreeState { errs: st.errs.push((n.key_len as usize, n.key_off as usize)), ..st }
        } else {
            st
        },
        NodeKind::ErrEmbedText => TreeState { err_text: (n.val_len as usize, n.val_off as usize), ..st },
        NodeKind::ErrorStageNew | NodeKind::ErrorStageWrap | NodeKind::ErrorStageCtx => tree_stage(st, n, s, pr, rs),
        NodeKind::GroupEnd => tree_group_end(st, s, pr, rs),
        _ => tree_value(tout(st, tree_key_text(n, s, pr, rs, st.prefix, st.level)), n, s, pr, rs, ea),
    }
}

/// The first `i` nodes of the context.
pub open spec fn tree_run(nodes: Seq<Node>, s: Seq<u8>, pr: ColorProfile, rs: Seq<u8>, ea: usize, st: TreeState, i: nat) -> TreeState
    decreases i,
{
    if i == 0 {
        st
    } else {
        tree_step(tree_run(nodes, s, pr, rs, ea, st, (i - 1) as nat), nodes[i - 1], s, pr, rs, ea)
    }
}

/// The context of a renderer's record as a tree inside the record bytes `s`, after
/// `out`: a line end, then each node.
pub open spec fn tree_context(r: LogRender, s: Seq<u8>, out: Seq<u8>, slots: Seq<Slot>) -> TreeState {
    let init = TreeState {
        out: out + seq![10u8],
        slots,
        errs: r.err_stack@,
        err_text: (0, 0),
        embed: false,
        depth: 0,
        prefix: r.tree_prefix,
        level: r.tree_depth,
    };
    tree_run(r.ctx@, s, r.color_profile, reset_text(r), r.expand_array_since, init, r.ctx@.len())
}


/// The renderer `b` is `a` with other slots, error stack and tree position.
pub open spec fn same_but_tree(a: LogRender, b: LogRender) -> bool {
    b == (LogRender { slots: b.slots, err_stack: b.err_stack, tree_prefix: b.tree_prefix, tree_depth: b.tree_depth, ..a })
}

fn write_indent(dst: &mut Vec<u8>, prefix: u64, level: i64)
    ensures
        final(dst)@ == old(dst)@ + indent_text(prefix, if level > 0 { level as nat } else { 0 }),
{
    let mut d: i64 = 0;
    while d < level
        invariant
            0 <= d,
            level > 0 ==> d <= level,
            level <= 0 ==> d == 0,
            dst@ == old(dst)@ + indent_text(prefix, d as nat),
        decreases level - d,
    {
        let on = d < 64 && (prefix & (1u64 << (d as u64))) != 0;
        if on {
            append_str(dst, TREE_LINE_CONT);
        } else {
            append_str(dst, TREE_LINE_NONE);
        }
        d += 1;
    }
}

impl LogRender {
    /// Writes the start of an element's line.
    #[verifier::spinoff_prover]
    fn render_tree_prefix(&self, dst: &mut Vec<u8>, last: bool)
        ensures
            final(dst)@ == old(dst)@ + line_start(self.color_profile, reset_text(*self), self.tree_prefix, self.tree_depth, last),
    {
        append_str(dst, self.color_profile.link);
        write_indent(dst, self.tree_prefix, self.tree_depth);
        if last {
            append_str(dst, TREE_ITEM_FIN);
        } else {
            append_str(dst, TREE_ITEM_INTR);
        }
        self.color_reset(dst);
    }

    /// Goes one level deeper; the new level shows a vertical line unless `last`.
    #[verifier::spinoff_prover]
    fn push_prefix(&mut self, last: bool)
        requires
            old(self).tree_depth < i64::MAX,
        ensures
            *final(self) == (LogRender {
                tree_prefix: with_bit(old(self).tree_prefix, old(self).tree_depth, !last),
                tree_depth: (old(self).tree_depth + 1) as i64,
                ..*old(self)
            }),
    {
        let d = self.tree_depth;
        if 0 <= d && d < 64 {
            let op: u64 = 1u64 << (d as u64);
            if !last {
                self.tree_prefix = self.tree_prefix | op;
            } else {
                self.tree_prefix = self.tree_prefix & !op;
            }
        }
        self.tree_depth = d + 1;
    }

    /// Goes one level up.
    #[verifier::spinoff_prover]
    fn pop_prefix(&mut self)
        requires
            old(self).tree_depth > i64::MIN,
        ensures
            *final(self) == (LogRender {
                tree_prefix: with_bit(old(self).tree_prefix, (old(self).tree_depth - 1) as i64, false),
                tree_depth: (old(self).tree_depth - 1) as i64,
                ..*old(self)
            }),
    {
        let d = self.tree_depth - 1;
        if 0 <= d && d < 64 {
            let op: u64 = 1u64 << (d as u64);
            self.tree_prefix = self.tree_prefix & !op;
        }
        self.tree_depth = d;
    }
}


impl LogRender {
    /// Writes one slice item at `p` in the tree; gives the offset after it.
    #[verifier::spinoff_prover]
    fn tree_item_exec(&mut self, dst: &mut Vec<u8>, src: &[u8], k: NodeKind, p: u64) -> (q: u64)
        requires
            src@.len() <= usize::MAX / 4,
            p as int <= src@.len() + 0x1_0000_0000 + 8 * 0x1_0000_0000,
        ensures
            ({
                let (t, q2) = tree_item(k, src@, Text { out: old(dst)@, slots: old(self).slots@ }, p as int);
                &&& final(dst)@ == t.out
                &&& final(self).slots@ == t.slots
                &&& q as int == q2
            }),
            q <= p + 8 || q as int <= src@.len(),
            *final(self) == (LogRender { slots: final(self).slots, ..*old(self) }),
            slots_in_order(old(self).slots@, old(dst)@.len()) ==> slots_in_order(final(self).slots@, final(dst)@.len()),
    {
        reveal(tree_item);
        proof {
            lemma_le_or_zero_bound(src@, p as int, item_width(k));
            reveal_with_fuel(crate::pointer_ext::p256, 9);
        }
        match k {
            NodeKind::Bools => {
                let v = read_le_at(src, p, 1);
                if v != 0 {
                    append_str(dst, "true");
                } else {
                    append_str(dst, "false");
                }
                p + 1
            },
            NodeKind::I8s => {
                let v = read_le_at(src, p, 1);
                append_itoa(dst, signed_of(v, 0x80));
                p + 1
            },
            NodeKind::I16s => {
                let v = read_le_at(src, p, 2);
                append_itoa(dst, signed_of(v, 0x8000));
                p + 2
            },
            NodeKind::I32s => {
                let v = read_le_at(src, p, 4);
                append_itoa(dst, signed_of(v, 0x8000_0000));
                p + 4
            },
            NodeKind::Ints | NodeKind::I64s => {
                let v = read_le_at(src, p, 8);
                append_itoa(dst, signed_of(v, 0x8000_0000_0000_0000));
                p + 8
            },
            NodeKind::U8s => {
                let v = read_le_at(src, p, 1);
                append_utoa(dst, v);
                p + 1
            },
            NodeKind::U16s => {
                let v = read_le_at(src, p, 2);
                append_utoa(dst, v);
                p + 2
            },
            NodeKind::U32s => {
                let v = read_le_at(src, p, 4);
                append_utoa(dst, v);
                p + 4
            },
            NodeKind::F32s => {
                let v = read_le_at(src, p, 4);
                self.slots.push(Slot { at: dst.len(), fill: Fill::F32(v as u32) });
                p + 4
            },
            NodeKind::F64s => {
                let v = read_le_at(src, p, 8);
                self.slots.push(Slot { at: dst.len(), fill: Fill::F64(v) });
                p + 8
            },
            NodeKind::Strs => {
                match str_at_exec(src, p) {
                    Some((a, b)) => {
                        append(dst, vstd::slice::slice_subrange(src, a, b));
                        b as u64
                    },
                    None => p,
                }
            },
            _ => {
                let v = read_le_at(src, p, 8);
                append_utoa(dst, v);
                p + 8
            },
        }
    }

    /// Writes the line of slice item `i` of `count` at `p`; gives the offset after it.
    #[verifier::spinoff_prover]
    #[verifier::rlimit(40)]
    fn tree_item_line(&mut self, dst: &mut Vec<u8>, src: &[u8], c: TreeCursor, k: NodeKind, p: u64, i: u32, count: u32) -> (q: u64)
        requires
            src@.len() <= usize::MAX / 4,
            p as int <= src@.len() + 0x1_0000_0000 + 8 * 0x1_0000_0000,
            i < count,
        ensures
            ({
                let st = tstate(*old(self), old(dst)@, c);
                let pr = old(self).color_profile;
                let rs = reset_text(*old(self));
                let st2 = tout(st, line_start(pr, rs, st.prefix, st.level, i + 1 == count) + decimal(i as nat) + lit(": "));
                let (t, p2) = tree_item(k, src@, Text { out: st2.out, slots: st2.slots }, p as int);
                &&& tstate(*final(self), final(dst)@, c) == (TreeState { out: t.out + seq![10u8], slots: t.slots, ..st2 })
                &&& q as int == p2
            }),
            q <= p + 8 || q as int <= src@.len(),
            *final(self) == (LogRender { slots: final(self).slots, ..*old(self) }),
            slots_in_order(old(self).slots@, old(dst)@.len()) ==> slots_in_order(final(self).slots@, final(dst)@.len()),
    {
        self.render_tree_prefix(dst, i + 1 == count);
        append_utoa(dst, i as u64);
        append_str(dst, ": ");
        let ghost mid = dst@;
        assert(mid =~= old(dst)@ + (line_start(self.color_profile, reset_text(*self), self.tree_prefix, self.tree_depth,
            i + 1 == count) + decimal(i as nat) + lit(": ")));
        let q = self.tree_item_exec(dst, src, k, p);
        let ghost after = dst@;
        dst.push(10);
        assert(dst@ =~= after + seq![10u8]);
        q
    }

    /// Writes a long slice value: one item per line, one level deeper.
    #[verifier::spinoff_prover]
    #[verifier::rlimit(40)]
    fn tree_slice_lines(&mut self, dst: &mut Vec<u8>, src: &[u8], c: TreeCursor, n: Node)
        requires
            src@.len() <= usize::MAX / 4,
            i64::MIN + 4 < old(self).tree_depth < i64::MAX - 4,
        ensures
            ({
                let st = tstate(*old(self), old(dst)@, c);
                let pr = old(self).color_profile;
                let rs = reset_text(*old(self));
                let st1 = tout(push_level(st, n.is_last != 0), seq![10u8]);
                let (st2, _p) = tree_items_lines(n.kind, src@, pr, rs, st1, n.val_off as int, n.val_len as nat, n.val_len as nat);
                tstate(*final(self), final(dst)@, c) == (TreeState { level: (st2.level - 1) as i64, ..st2 })
            }),
            same_but_tree(*old(self), *final(self)),
            final(self).tree_depth == old(self).tree_depth,
            slots_in_order(old(self).slots@, old(dst)@.len()) ==> slots_in_order(final(self).slots@, final(dst)@.len()),
    {
        let ghost r0 = *self;
        let ghost pr = r0.color_profile;
        let ghost rs = reset_text(r0);
        let count = n.val_len;
        let mut p: u64 = n.val_off as u64;
        let mut i: u32 = 0;
        self.push_prefix(n.is_last != 0);
        dst.push(10);
        let ghost st1 = tstate(*self, dst@, c);
        assert(st1 == tout(push_level(tstate(r0, old(dst)@, c), n.is_last != 0), seq![10u8]));
        while i < count
            invariant
                src@.len() <= usize::MAX / 4,
                i <= count == n.val_len,
                p as int <= src@.len() + 0x1_0000_0000 + 8 * i,
                tree_items_lines(n.kind, src@, pr, rs, st1, n.val_off as int, i as nat, count as nat).0
                    == tstate(*self, dst@, c),
                tree_items_lines(n.kind, src@, pr, rs, st1, n.val_off as int, i as nat, count as nat).1 == p as int,
                slots_in_order(old(self).slots@, old(dst)@.len()) ==> slots_in_order(self.slots@, dst@.len()),
                same_but_tree(r0, *self),
                self.tree_depth == r0.tree_depth + 1,
                pr == self.color_profile,
                rs == reset_text(*self),
            decreases count - i,
        {
            p = self.tree_item_line(dst, src, c, n.kind, p, i, count);
            i += 1;
        }
        self.tree_depth = self.tree_depth - 1;
    }

    /// Writes a short slice value on the key's line.
    #[verifier::spinoff_prover]
    fn tree_slice_inline(&mut self, dst: &mut Vec<u8>, src: &[u8], n: Node)
        requires
            src@.len() <= usize::MAX / 4,
        ensures
            ({
                let (t, _p) = tree_items_inline(n.kind, src@, Text { out: old(dst)@ + lit(": "), slots: old(self).slots@ },
                    n.val_off as int, n.val_len as nat);
                final(dst)@ == t.out + seq![10u8] && final(self).slots@ == t.slots
            }),
            *final(self) == (LogRender { slots: final(self).slots, ..*old(self) }),
            slots_in_order(old(self).slots@, old(dst)@.len()) ==> slots_in_order(final(self).slots@, final(dst)@.len()),
    {
        let ghost r0 = *self;
        let count = n.val_len;
        let mut p: u64 = n.val_off as u64;
        let mut i: u32 = 0;
        append_str(dst, ": ");
        let ghost t0 = Text { out: dst@, slots: self.slots@ };
        while i < count
            invariant
                src@.len() <= usize::MAX / 4,
                i <= count == n.val_len,
                p as int <= src@.len() + 0x1_0000_0000 + 8 * i,
                tree_items_inline(n.kind, src@, t0, n.val_off as int, i as nat).0
                    == (Text { out: dst@, slots: self.slots@ }),
                tree_items_inline(n.kind, src@, t0, n.val_off as int, i as nat).1 == p as int,
                slots_in_order(old(self).slots@, old(dst)@.len()) ==> slots_in_order(self.slots@, dst@.len()),
                *self == (LogRender { slots: self.slots, ..r0 }),
            decreases count - i,
        {
            if i > 0 {
                append_str(dst, ", ");
            }
            p = self.tree_item_exec(dst, src, n.kind, p);
            i += 1;
        }
        dst.push(10);
    }

    /// Writes a slice value in the tree.
    #[verifier::spinoff_prover]
    fn tree_slice_exec(&mut self, dst: &mut Vec<u8>, src: &[u8], c: TreeCursor, n: Node)
        requires
            src@.len() <= usize::MAX / 4,
            i64::MIN + 4 < old(self).tree_depth < i64::MAX - 4,
        ensures
            tstate(*final(self), final(dst)@, c) == tree_slice(n, src@, old(self).color_profile, reset_text(*old(self)),
                old(self).expand_array_since, tstate(*old(self), old(dst)@, c)),
            same_but_tree(*old(self), *final(self)),
            final(self).tree_depth == old(self).tree_depth,
            slots_in_order(old(self).slots@, old(dst)@.len()) ==> slots_in_order(final(self).slots@, final(dst)@.len()),
    {
        if (n.val_len as usize) < self.expand_array_since {
            self.tree_slice_inline(dst, src, n);
        } else {
            self.tree_slice_lines(dst, src, c, n);
        }
    }
}


impl LogRender {
    /// Writes the line of a key in `color`.
    #[verifier::spinoff_prover]
    fn tree_key_line(&self, dst: &mut Vec<u8>, last: bool, color: &'static str, key: &[u8])
        ensures
            final(dst)@ == old(dst)@ + line_start(self.color_profile, reset_text(*self), self.tree_prefix, self.tree_depth, last)
                + lit(color) + key@ + lit(": ") + reset_text(*self),
    {
        self.render_tree_prefix(dst, last);
        append_str(dst, color);
        append(dst, key);
        append_str(dst, ": ");
        self.color_reset(dst);
    }

    /// Writes the end of a group, and the error text at the end of the outermost error.
    #[verifier::spinoff_prover]
    #[verifier::rlimit(40)]
    fn tree_group_end_exec(&mut self, dst: &mut Vec<u8>, src: &[u8], c: &mut TreeCursor)
        requires
            i64::MIN + 4 < old(self).tree_depth < i64::MAX - 4,
        ensures
            tstate(*final(self), final(dst)@, *final(c)) == tree_group_end(tstate(*old(self), old(dst)@, *old(c)), src@,
                old(self).color_profile, reset_text(*old(self))),
            same_but_tree(*old(self), *final(self)),
            old(self).tree_depth - 2 <= final(self).tree_depth < old(self).tree_depth,
            slots_in_order(old(self).slots@, old(dst)@.len()) ==> slots_in_order(final(self).slots@, final(dst)@.len()),
    {
        self.pop_prefix();
        if c.depth == 0 {
            return;
        }
        if c.depth != 1 {
            c.depth = c.depth - 1;
            return;
        }
        c.depth = 0;
        self.render_tree_prefix(dst, true);
        self.pop_prefix();
        self.tree_error_tail(dst, src, *c);
    }

    /// Writes the name, the text and the reset of the error text line.
    #[verifier::spinoff_prover]
    #[verifier::rlimit(40)]
    #[verifier::spinoff_prover]
    fn tree_error_tail(&self, dst: &mut Vec<u8>, src: &[u8], c: TreeCursor)
        ensures
            final(dst)@ == old(dst)@ + error_text_tail(tstate(*self, old(dst)@, c), src@, self.color_profile, reset_text(*self)),
    {
        append_str(dst, self.color_profile.err_key);
        append_str(dst, predefined_key_name_of(PREDEFINED_NAME_TEXT));
        append_str(dst, ": ");
        append_str(dst, self.color_profile.error);
        let ghost d1 = dst@;
        assert(d1 =~= old(dst)@ + (lit(self.color_profile.err_key) + lit(predefined_name(PREDEFINED_NAME_TEXT)) + lit(": ")
            + lit(self.color_profile.error)));
        if c.embed {
            append(dst, sub_slice(src, c.err_text.1, c.err_text.0));
        } else {
            let len = self.err_stack.len();
            let mut i: usize = 0;
            while i < len
                invariant
                    i <= len == self.err_stack@.len(),
                    dst@ == d1 + tree_errs_text(self.err_stack@, src@, i as nat),
                decreases len - i,
            {
                let (l, o) = self.err_stack[len - 1 - i];
                if i > 0 {
                    append_str(dst, ": ");
                }
                append(dst, sub_slice(src, o, l));
                i += 1;
            }
        }
        self.color_reset(dst);
        dst.push(10);
    }

    /// Writes an error stage line and goes one level deeper.
    #[verifier::spinoff_prover]
    #[verifier::rlimit(40)]
    fn tree_stage_exec(&mut self, dst: &mut Vec<u8>, src: &[u8], c: &mut TreeCursor, n: Node)
        requires
            i64::MIN + 4 < old(self).tree_depth < i64::MAX - 4,
            old(c).depth < usize::MAX,
            n.kind == NodeKind::ErrorStageNew || n.kind == NodeKind::ErrorStageWrap || n.kind == NodeKind::ErrorStageCtx,
        ensures
            tstate(*final(self), final(dst)@, *final(c)) == tree_stage(tstate(*old(self), old(dst)@, *old(c)), n, src@,
                old(self).color_profile, reset_text(*old(self))),
            same_but_tree(*old(self), *final(self)),
            final(self).tree_depth == old(self).tree_depth + 1,
            final(self).slots@ == old(self).slots@,
            final(dst)@.len() >= old(dst)@.len(),
    {
        self.render_tree_prefix(dst, n.is_last != 0);
        append_str(dst, self.color_profile.bold);
        append_str(dst, self.color_profile.key);
        match n.kind {
            NodeKind::ErrorStageNew => {
                append_str(dst, "NEW: ");
                append(dst, sub_slice(src, n.key_off as usize, n.key_len as usize));
            },
            NodeKind::ErrorStageWrap => {
                append_str(dst, "WRAP: ");
                append(dst, sub_slice(src, n.key_off as usize, n.key_len as usize));
            },
            _ => {
                append_str(dst, "CTX");
            },
        }
        dst.push(10);
        if n.kind != NodeKind::ErrorStageCtx && !c.embed {
            self.err_stack.push((n.key_len as usize, n.key_off as usize));
        }
        c.depth = c.depth + 1;
        self.push_prefix(false);
    }

    /// Writes the name part of a node.
    #[verifier::spinoff_prover]
    fn tree_key_exec(&self, dst: &mut Vec<u8>, src: &[u8], n: Node)
        ensures
            final(dst)@ == old(dst)@ + tree_key_text(n, src@, self.color_profile, reset_text(*self), self.tree_prefix, self.tree_depth),
    {
        let last = n.is_last != 0;
        match n.kind {
            NodeKind::ErrLoc => {
                self.tree_key_line(dst, last, self.color_profile.key, predefined_key_name_of(PREDEFINED_NAME_LOCATION).as_bytes());
            },
            NodeKind::Error | NodeKind::ErrorEmbed | NodeKind::ErrTxt => {
                self.tree_key_line(dst, last, self.color_profile.err_key, sub_slice(src, n.key_off as usize, n.key_len as usize));
            },
            _ => {
                self.tree_key_line(dst, last, self.color_profile.key, sub_slice(src, n.key_off as usize, n.key_len as usize));
            },
        }
    }

    /// Writes the value of a scalar node.
    #[verifier::spinoff_prover]
    fn tree_scalar(&mut self, dst: &mut Vec<u8>, src: &[u8], c: TreeCursor, n: Node)
        requires
            src@.len() <= usize::MAX / 4,
            !is_slice_kind(n.kind),
            n.kind != NodeKind::Group && n.kind != NodeKind::Error && n.kind != NodeKind::ErrorEmbed,
        ensures
            tstate(*final(self), final(dst)@, c) == tree_value(tstate(*old(self), old(dst)@, c), n, src@,
                old(self).color_profile, reset_text(*old(self)), old(self).expand_array_since),
            *final(self) == (LogRender { slots: final(self).slots, ..*old(self) }),
            slots_in_order(old(self).slots@, old(dst)@.len()) ==> slots_in_order(final(self).slots@, final(dst)@.len()),
    {
        match n.kind {
            NodeKind::Bool => {
                if n.val_off != 0 {
                    append_str(dst, "true");
                } else {
                    append_str(dst, "false");
                }
                dst.push(10);
            },
            NodeKind::Time => {
                self.render_time_slot(dst, n.val_as_u64() as i64);
                dst.push(10);
            },
            NodeKind::Dur => {
                render_go_duration(dst, n.val_as_u64());
            },
            NodeKind::Int | NodeKind::IVar | NodeKind::I64 => {
                append_itoa(dst, signed_of(n.val_as_u64(), 0x8000_0000_0000_0000));
                dst.push(10);
            },
            NodeKind::I8 | NodeKind::I16 | NodeKind::I32 | NodeKind::U8 | NodeKind::U16 | NodeKind::U32 => {
                append_utoa(dst, n.val_off as u64);
                dst.push(10);
            },
            NodeKind::Uint | NodeKind::UVar | NodeKind::U64 => {
                append_utoa(dst, n.val_as_u64());
                dst.push(10);
            },
            NodeKind::F32 => {
                self.slots.push(Slot { at: dst.len(), fill: Fill::F32Wide(n.val_off) });
                dst.push(10);
            },
            NodeKind::F64 => {
                self.slots.push(Slot { at: dst.len(), fill: Fill::F64(n.val_as_u64()) });
                dst.push(10);
            },
            NodeKind::Str => {
                append(dst, n.val_as_slice(src));
                dst.push(10);
            },
            NodeKind::Bytes => {
                append_str(dst, "base64.");
                base64_append(dst, n.val_as_slice(src));
                dst.push(10);
            },
            NodeKind::ErrTxt => {
                append_str(dst, self.color_profile.error);
                append(dst, n.val_as_slice(src));
                self.color_reset(dst);
                dst.push(10);
            },
            NodeKind::ErrLoc => {
                append_str(dst, self.color_profile.loc);
                append(dst, n.key_as_slice_direct(src));
                dst.push(58);
                append_utoa(dst, n.val_off as u64);
                self.color_reset(dst);
                dst.push(10);
            },
            _ => {},
        }
    }
}


impl LogRender {
    /// Writes the value part of a group or error root.
    #[verifier::spinoff_prover]
    #[verifier::rlimit(40)]
    fn tree_root_exec(&mut self, dst: &mut Vec<u8>, c: &mut TreeCursor, n: Node)
        requires
            i64::MIN + 8 < old(self).tree_depth < i64::MAX - 8,
            old(c).depth < usize::MAX,
            n.kind == NodeKind::Group || n.kind == NodeKind::Error || n.kind == NodeKind::ErrorEmbed,
        ensures
            tstate(*final(self), final(dst)@, *final(c)) == tree_value(tstate(*old(self), old(dst)@, *old(c)), n, Seq::empty(),
                old(self).color_profile, reset_text(*old(self)), old(self).expand_array_since),
            same_but_tree(*old(self), *final(self)),
            final(self).tree_depth <= old(self).tree_depth + 2,
            final(self).tree_depth >= old(self).tree_depth,
            final(c).depth <= old(c).depth + 1,
            final(self).slots@ == old(self).slots@,
            final(dst)@.len() >= old(dst)@.len(),
    {
        let last = n.is_last != 0;
        if n.kind == NodeKind::Group {
            if group_is_empty(&n) {
                append_str(dst, "{}\n");
            } else {
                dst.push(10);
            }
            self.push_prefix(last);
        } else {
            c.embed = n.kind == NodeKind::ErrorEmbed;
            c.depth = c.depth + 1;
            dst.push(10);
            self.push_prefix(last);
            self.render_tree_prefix(dst, false);
            append_str(dst, self.color_profile.key);
            append_str(dst, predefined_key_name_of(PREDEFINED_NAME_CONTEXT));
            self.color_reset(dst);
            dst.push(10);
            self.push_prefix(false);
        }
    }

    /// Writes one node of the context as part of the tree.
    #[verifier::spinoff_prover]
    #[verifier::rlimit(40)]
    fn tree_node(&mut self, dst: &mut Vec<u8>, src: &[u8], c: &mut TreeCursor, n: Node)
        requires
            src@.len() <= usize::MAX / 4,
            i64::MIN + 8 < old(self).tree_depth < i64::MAX - 8,
            old(c).depth < usize::MAX,
        ensures
            tstate(*final(self), final(dst)@, *final(c)) == tree_step(tstate(*old(self), old(dst)@, *old(c)), n, src@,
                old(self).color_profile, reset_text(*old(self)), old(self).expand_array_since),
            same_but_tree(*old(self), *final(self)),
            old(self).tree_depth - 2 <= final(self).tree_depth <= old(self).tree_depth + 2,
            final(c).depth <= old(c).depth + 1,
            slots_in_order(old(self).slots@, old(dst)@.len()) ==> slots_in_order(final(self).slots@, final(dst)@.len()),
    {
        reveal(tree_step);
        let last = n.is_last != 0;
        match n.kind {
            NodeKind::ErrTxtFragment => {
                if !c.embed {
                    self.err_stack.push((n.key_len as usize, n.key_off as usize));
                }
            },
            NodeKind::ErrEmbedText => {
                c.err_text = (n.val_len as usize, n.val_off as usize);
            },
            NodeKind::ErrorStageNew | NodeKind::ErrorStageWrap | NodeKind::ErrorStageCtx => {
                self.tree_stage_exec(dst, src, c, n);
            },
            NodeKind::GroupEnd => {
                self.tree_group_end_exec(dst, src, c);
            },
            _ => {
                self.tree_key_exec(dst, src, n);
                match n.kind {
                    NodeKind::Group | NodeKind::Error | NodeKind::ErrorEmbed => {
                        self.tree_root_exec(dst, c, n);
                    },
                    _ => {
                        if is_slice(n.kind) {
                            self.tree_slice_exec(dst, src, *c, n);
                        } else {
                            self.tree_scalar(dst, src, *c, n);
                        }
                    },
                }
            },
        }
    }

    /// Writes the context of the current record as an indented tree, after a line
    /// end; floating-point values and points in time are left as places in `slots`.
    #[verifier::spinoff_prover]
    pub fn render_tree(&mut self, dst: &mut Vec<u8>, src: &[u8])
        requires
            src@.len() <= usize::MAX / 4,
            old(self).ctx@.len() <= 0xFFFF_FFFF,
            i64::MIN + 8 + 2 * old(self).ctx@.len() < old(self).tree_depth < i64::MAX - 8 - 2 * old(self).ctx@.len(),
        ensures
            ({
                let st = tree_context(*old(self), src@, old(dst)@, old(self).slots@);
                &&& final(dst)@ == st.out
                &&& final(self).slots@ == st.slots
                &&& final(self).err_stack@ == st.errs
                &&& final(self).tree_prefix == st.prefix
                &&& final(self).tree_depth == st.level
            }),
            same_but_tree(*old(self), *final(self)),
            slots_in_order(old(self).slots@, old(dst)@.len()) ==> slots_in_order(final(self).slots@, final(dst)@.len()),
    {
        dst.push(10);
        assert(dst@ =~= old(dst)@ + seq![10u8]);
        let mut c = TreeCursor { err_text: (0, 0), embed: false, depth: 0 };
        let ghost r0 = *self;
        let ghost init = tstate(*self, dst@, c);
        let mut i: usize = 0;
        while i < self.ctx.len()
            invariant
                src@.len() <= usize::MAX / 4,
                i <= r0.ctx@.len() <= 0xFFFF_FFFF,
                c.depth <= i,
                r0.tree_depth - 2 * i <= self.tree_depth <= r0.tree_depth + 2 * i,
                i64::MIN + 8 + 2 * r0.ctx@.len() < r0.tree_depth < i64::MAX - 8 - 2 * r0.ctx@.len(),
                slots_in_order(old(self).slots@, old(dst)@.len()) ==> slots_in_order(self.slots@, dst@.len()),
                same_but_tree(r0, *self),
                tstate(*self, dst@, c)
                    == tree_run(r0.ctx@, src@, r0.color_profile, reset_text(r0), r0.expand_array_since, init, i as nat),
            decreases r0.ctx@.len() - i,
        {
            let n = self.ctx[i];
            self.tree_node(dst, src, &mut c, n);
            i += 1;
        }
    }
}

} // verus!
