//! Reading a record: header fields, then the context, element by element.
use vstd::prelude::*;
use crate::log_parse::{
    header_spec, unzigzag, zigzag, lemma_uvarint_at_fits, log_parse_header, read_uvarint_checked, uvarint_at, ErrorLogParse,
};
use crate::log_parser::LogParser;
use crate::log_parser_node::{spec_is_group, val_u64, Node, NodeKind};
use crate::log_parser_tree_builder::mk_node;
use crate::pointer_ext::{le_at, read_le, str_at};
use crate::value_kind::{value_kind_of, ValueKind};

verus! {

/// What the element before the current one was: anything, or the end of the group
/// whose root node sits at the given index.
#[derive(Debug, Clone, Copy, PartialEq, Eq, Structural)]
pub enum PrevElement {
    Whatever,
    End(usize),
}

/// The state of context parsing between two elements.
pub ghost struct CtxModel {
    pub off: int,
    pub nodes: Seq<Node>,
    pub groups: Seq<usize>,
    pub prev: PrevElement,
    pub ctx_size: int,
    pub has_errors: bool,
}

/// The executable state of context parsing.
pub struct CtxState {
    pub off: usize,
    pub nodes: Vec<Node>,
    pub groups: Vec<usize>,
    pub prev: PrevElement,
    pub ctx_size: usize,
    pub has_errors: bool,
}

impl CtxState {
    pub open spec fn model(&self) -> CtxModel {
        CtxModel {
            off: self.off as int,
            nodes: self.nodes@,
            groups: self.groups@,
            prev: self.prev,
            ctx_size: self.ctx_size as int,
            has_errors: self.has_errors,
        }
    }
}

/// The low 32 bits of a word.
pub open spec fn lo32(v: nat) -> u32 {
    (v % 0x1_0000_0000) as u32
}

/// The bits 32..64 of a word.
pub open spec fn hi32(v: nat) -> u32 {
    (v / 0x1_0000_0000 % 0x1_0000_0000) as u32
}

/// The two's complement bits of the signed value that a zigzag word stands for.
pub open spec fn ivar_bits(u: u64) -> u64 {
    if u % 2 == 0 {
        u / 2
    } else {
        (0xFFFF_FFFF_FFFF_FFFFu64 - u / 2) as u64
    }
}

/// The 32-bit sign extension of a byte.
pub open spec fn sign_extend8(b: u8) -> u32 {
    if b < 128 {
        b as u32
    } else {
        (b as nat + 0xFFFF_FF00) as u32
    }
}

/// `x - y` on 32-bit words, wrapping around.
pub open spec fn wrap_sub32(x: u32, y: u32) -> u32 {
    if x >= y {
        (x - y) as u32
    } else {
        (x + 0x1_0000_0000 - y) as u32
    }
}

/// A node marked as the last one of its group.
pub open spec fn with_last(n: Node) -> Node {
    Node { is_last: 1, ..n }
}

/// A node whose value length is replaced.
pub open spec fn with_val_len(n: Node, v: u32) -> Node {
    Node { val_len: v, ..n }
}

/// Marks the element before the current one as the last of its group; a group root
/// gets the span of its group in place of its index.
pub open spec fn mark_last(nodes: Seq<Node>, prev: PrevElement) -> Seq<Node> {
    let curlen = nodes.len() as u32;
    match prev {
        PrevElement::End(idx) => if idx < nodes.len() {
            let x = nodes[idx as int];
            nodes.update(idx as int, with_last(with_val_len(x, wrap_sub32(curlen, x.val_len))))
        } else {
            nodes
        },
        PrevElement::Whatever => if nodes.len() == 0 {
            nodes
        } else {
            let x = nodes[nodes.len() - 1];
            if !spec_is_group(x.kind) {
                nodes.update(nodes.len() - 1, with_last(x))
            } else {
                nodes.update(nodes.len() - 1, with_val_len(x, wrap_sub32(curlen, x.val_len)))
            }
        },
    }
}

/// The key at `off`: a literal key (uvarint length and bytes) or, after a 0 byte,
/// the uvarint number of a predefined key. Gives (key_len, key_off, offset after).
pub open spec fn key_at(s: Seq<u8>, off: int) -> Option<(u32, u32, int)> {
    if off < 0 || off >= s.len() {
        None
    } else if s[off] != 0 {
        match uvarint_at(s, off) {
            Some((len, n)) => if off + n + len <= s.len() {
                Some((len as u32, (off + n) as u32, off + n + len))
            } else {
                None
            },
            None => None,
        }
    } else {
        match uvarint_at(s, off + 1) {
            Some((v, n)) => Some((0u32, v as u32, off + 1 + n)),
            None => None,
        }
    }
}

/// Skips `count` length-prefixed strings from `off`.
pub open spec fn skip_strs(s: Seq<u8>, off: int, count: nat) -> Option<int>
    decreases count,
{
    if count == 0 {
        Some(off)
    } else {
        match str_at(s, off) {
            Some((_start, end)) => skip_strs(s, end, (count - 1) as nat),
            None => None,
        }
    }
}

/// A model with one more node.
pub open spec fn push_node(st: CtxModel, off: int, n: Node) -> CtxModel {
    CtxModel { off, nodes: st.nodes.push(n), prev: PrevElement::Whatever, ..st }
}

/// A model with one more value node, counted in the context size.
pub open spec fn push_value(st: CtxModel, off: int, n: Node) -> CtxModel {
    CtxModel { off, nodes: st.nodes.push(n), prev: PrevElement::Whatever, ctx_size: st.ctx_size + 1, ..st }
}

/// A model with one more group root node, whose index goes on the group stack.
pub open spec fn push_root(st: CtxModel, off: int, kind: NodeKind, kl: u32, ko: u32) -> CtxModel {
    CtxModel {
        off,
        nodes: st.nodes.push(mk_node(kind, kl, ko, st.nodes.len() as u32, 0)),
        groups: st.groups.push(st.nodes.len() as usize),
        prev: PrevElement::Whatever,
        ..st
    }
}

/// The node kind and element width of each slice kind.
pub open spec fn slice_shape(k: ValueKind) -> Option<(NodeKind, nat)> {
    match k {
        ValueKind::SliceBool => Some((NodeKind::Bools, 1nat)),
        ValueKind::SliceI64 => Some((NodeKind::Ints, 8nat)),
        ValueKind::SliceI8 => Some((NodeKind::I8s, 1nat)),
        ValueKind::SliceI16 => Some((NodeKind::I16s, 2nat)),
        ValueKind::SliceI32 => Some((NodeKind::I32s, 4nat)),
        ValueKind::SliceU64 => Some((NodeKind::Uints, 8nat)),
        ValueKind::SliceU8 => Some((NodeKind::U8s, 1nat)),
        ValueKind::SliceU16 => Some((NodeKind::U16s, 2nat)),
        ValueKind::SliceU32 => Some((NodeKind::U32s, 4nat)),
        ValueKind::SliceF32 => Some((NodeKind::F32s, 4nat)),
        ValueKind::SliceF64 => Some((NodeKind::F64s, 8nat)),
        _ => None,
    }
}

/// The node kind and width of each fixed-width value kind; the width-1 signed kind
/// is sign-extended, the others are kept as read.
pub open spec fn fixed_shape(k: ValueKind) -> Option<(NodeKind, nat)> {
    match k {
        ValueKind::Bool => Some((NodeKind::Bool, 1nat)),
        ValueKind::Time => Some((NodeKind::Time, 8nat)),
        ValueKind::Duration => Some((NodeKind::Dur, 8nat)),
        ValueKind::I8 => Some((NodeKind::I8, 1nat)),
        ValueKind::I16 => Some((NodeKind::I16, 2nat)),
        ValueKind::I32 => Some((NodeKind::I32, 4nat)),
        ValueKind::I64 => Some((NodeKind::I64, 8nat)),
        ValueKind::U8 => Some((NodeKind::U8, 1nat)),
        ValueKind::U16 => Some((NodeKind::U16, 2nat)),
        ValueKind::U32 => Some((NodeKind::U32, 4nat)),
        ValueKind::U64 => Some((NodeKind::U64, 8nat)),
        ValueKind::Float32 => Some((NodeKind::F32, 4nat)),
        ValueKind::Float64 => Some((NodeKind::F64, 8nat)),
        _ => None,
    }
}

/// The node of a fixed-width value `v` of kind `k`: words of 8 bytes are split over
/// both value fields, narrower ones sit in `val_off`.
pub open spec fn fixed_node(k: ValueKind, nk: NodeKind, width: nat, kl: u32, ko: u32, v: nat) -> Node {
    if width == 8 {
        mk_node(nk, kl, ko, lo32(v), hi32(v))
    } else if k == ValueKind::I8 {
        mk_node(nk, kl, ko, 0, sign_extend8(v as u8))
    } else {
        mk_node(nk, kl, ko, 0, v as u32)
    }
}

/// The element that starts after the key: its value, read from `off`.
pub open spec fn value_step(s: Seq<u8>, st: CtxModel, k: ValueKind, kl: u32, ko: u32, off: int) -> Result<CtxModel, ErrorLogParse> {
    let len = s.len() as int;
    if let Some((nk, w)) = fixed_shape(k) {
        if off + w <= len {
            Ok(push_value(st, off + w, fixed_node(k, nk, w, kl, ko, le_at(s, off, w))))
        } else {
            Err(ErrorLogParse::RecordTruncated)
        }
    } else if let Some((nk, w)) = slice_shape(k) {
        match uvarint_at(s, off) {
            Some((count, n)) => if off + n + count * w <= len {
                Ok(push_value(st, off + n + count * w, mk_node(nk, kl, ko, count as u32, (off + n) as u32)))
            } else {
                Err(ErrorLogParse::RecordTruncated)
            },
            None => Err(ErrorLogParse::RecordTruncated),
        }
    } else {
        match k {
            ValueKind::NewNode => Ok(push_root(st, off, NodeKind::ErrorStageNew, kl, ko)),
            ValueKind::WrapNode => Ok(push_root(st, off, NodeKind::ErrorStageWrap, kl, ko)),
            ValueKind::LocationNode => match uvarint_at(s, off) {
                Some((line, n)) => Ok(push_node(st, off + n, mk_node(NodeKind::ErrLoc, kl, ko, 0, line as u32))),
                None => Err(ErrorLogParse::RecordTruncated),
            },
            ValueKind::ForeignErrorText => Ok(push_node(st, off, mk_node(NodeKind::ErrTxtFragment, kl, ko, 0, 0))),
            ValueKind::Ivar => match uvarint_at(s, off) {
                Some((u, n)) => Ok(push_value(st, off + n,
                    mk_node(NodeKind::IVar, kl, ko, lo32(ivar_bits(u) as nat), hi32(ivar_bits(u) as nat)))),
                None => Err(ErrorLogParse::RecordTruncated),
            },
            ValueKind::Uvar => match uvarint_at(s, off) {
                Some((u, n)) => Ok(push_value(st, off + n, mk_node(NodeKind::UVar, kl, ko, lo32(u as nat), hi32(u as nat)))),
                None => Err(ErrorLogParse::RecordTruncated),
            },
            ValueKind::String | ValueKind::Bytes | ValueKind::ErrorRaw => match str_at(s, off) {
                Some((start, end)) => Ok(push_value(st, end, mk_node(
                    if k == ValueKind::String { NodeKind::Str } else if k == ValueKind::Bytes { NodeKind::Bytes } else { NodeKind::ErrTxt },
                    kl, ko, (end - start) as u32, start as u32))),
                None => Err(ErrorLogParse::RecordTruncated),
            },
            ValueKind::SliceString => match uvarint_at(s, off) {
                Some((count, n)) => match skip_strs(s, off + n, count as nat) {
                    Some(end) => Ok(push_value(st, end, mk_node(NodeKind::Strs, kl, ko, count as u32, (off + n) as u32))),
                    None => Err(ErrorLogParse::RecordTruncated),
                },
                None => Err(ErrorLogParse::RecordTruncated),
            },
            ValueKind::Error => {
                let r = push_root(st, off, NodeKind::Error, kl, ko);
                Ok(CtxModel { ctx_size: st.ctx_size + 1, has_errors: true, ..r })
            },
            ValueKind::ErrorEmbed => {
                let r = push_root(st, off, NodeKind::ErrorEmbed, kl, ko);
                match str_at(s, off) {
                    Some((start, end)) => Ok(CtxModel {
                        off: end,
                        nodes: r.nodes.push(mk_node(NodeKind::ErrEmbedText, 0, 0, (end - start) as u32, start as u32)),
                        ctx_size: st.ctx_size + 1,
                        has_errors: true,
                        ..r
                    }),
                    None => Err(ErrorLogParse::RecordTruncated),
                }
            },
            ValueKind::Group => {
                let r = push_root(st, off, NodeKind::Group, kl, ko);
                Ok(CtxModel { ctx_size: st.ctx_size + 1, ..r })
            },
            _ => Ok(CtxModel { off, ..st }),
        }
    }
}

/// One element of the context, starting at `st.off`.
pub open spec fn ctx_step(s: Seq<u8>, st: CtxModel) -> Result<CtxModel, ErrorLogParse> {
    let b = s[st.off];
    let off = st.off + 1;
    match value_kind_of(b) {
        None => Err(ErrorLogParse::RecordContextNodeType(b)),
        Some(k) => match k {
            ValueKind::JustContextNode => Ok(push_root(st, off, NodeKind::ErrorStageCtx, 0, 0)),
            ValueKind::PhantomContextNode => Ok(CtxModel { off, prev: PrevElement::Whatever, ..st }),
            ValueKind::GroupEnd => if st.groups.len() == 0 {
                Err(ErrorLogParse::RecordTruncated)
            } else {
                let marked = mark_last(st.nodes, st.prev);
                Ok(CtxModel {
                    off,
                    nodes: marked.push(mk_node(NodeKind::GroupEnd, 0, 0, 0, 0)),
                    groups: st.groups.drop_last(),
                    prev: PrevElement::End(st.groups.last()),
                    ..st
                })
            },
            _ => match key_at(s, off) {
                Some((kl, ko, off2)) => value_step(s, st, k, kl, ko, off2),
                None => Err(ErrorLogParse::RecordTruncated),
            },
        },
    }
}

/// The context from `st.off` to the end of the record.
pub open spec fn ctx_run(s: Seq<u8>, st: CtxModel) -> Result<CtxModel, ErrorLogParse>
    decreases s.len() - st.off,
{
    if st.off >= s.len() || st.off < 0 {
        Ok(CtxModel { nodes: mark_last(st.nodes, st.prev), ..st })
    } else {
        match ctx_step(s, st) {
            Err(e) => Err(e),
            Ok(next) => if st.off < next.off <= s.len() {
                ctx_run(s, next)
            } else {
                Err(ErrorLogParse::RecordTruncated)
            },
        }
    }
}

/// The parsing state at the start of a context.
pub open spec fn ctx_start(off: int) -> CtxModel {
    CtxModel {
        off,
        nodes: Seq::empty(),
        groups: Seq::empty(),
        prev: PrevElement::Whatever,
        ctx_size: 0,
        has_errors: false,
    }
}

/// What reading a record gives.
pub ghost struct RecordModel {
    pub time: u64,
    pub level: u8,
    /// The record is below the level of interest: nothing after the level was read.
    pub skipped: bool,
    pub location: Option<(usize, usize, usize)>,
    pub msg: (usize, usize),
    pub ctx: CtxModel,
}

/// The location part at `off`: a 0 byte for none, or the file name (length-prefixed)
/// and the line (uvarint). Gives the location and the offset after it.
pub open spec fn location_at(s: Seq<u8>, off: int) -> Option<(Option<(usize, usize, usize)>, int)> {
    if off >= s.len() {
        None
    } else if s[off] == 0 {
        Some((None, off + 1))
    } else {
        match str_at(s, off) {
            Some((start, end)) => match uvarint_at(s, end) {
                Some((line, n)) => Some((Some(((end - start) as usize, start as usize, line as usize)), end + n)),
                None => None,
            },
            None => None,
        }
    }
}

/// Reading the record `s` (without its framing) for a parser that processes levels
/// from `since` on.
pub open spec fn record_spec(s: Seq<u8>, since: u8) -> Result<RecordModel, ErrorLogParse> {
    if s.len() < 2 {
        Err(ErrorLogParse::RecordTruncated)
    } else if le_at(s, 0, 2) != 1 {
        Err(ErrorLogParse::RecordVersionNotSupported(le_at(s, 0, 2) as u16))
    } else if s.len() < 11 {
        Err(ErrorLogParse::RecordTruncated)
    } else {
        let time = le_at(s, 2, 8) as u64;
        let level = s[10];
        if level < since {
            Ok(RecordModel { time, level, skipped: true, location: None, msg: (0, 0), ctx: ctx_start(11) })
        } else {
            match location_at(s, 11) {
                None => Err(ErrorLogParse::RecordTruncated),
                Some((location, off)) => match str_at(s, off) {
                    None => Err(ErrorLogParse::RecordTruncated),
                    Some((mstart, mend)) => match ctx_run(s, ctx_start(mend)) {
                        Err(e) => Err(e),
                        Ok(ctx) => Ok(RecordModel {
                            time,
                            level,
                            skipped: false,
                            location,
                            msg: ((mend - mstart) as usize, mstart as usize),
                            ctx,
                        }),
                    },
                },
            }
        }
    }
}

/// How a parser reflects a successfully read record.
pub open spec fn parser_after(old_p: LogParser, new_p: LogParser, m: RecordModel) -> bool {
    &&& new_p.time == m.time
    &&& new_p.level == m.level
    &&& new_p.max_log_size == old_p.max_log_size
    &&& new_p.process_since_level == old_p.process_since_level
    &&& new_p.use_tree_since == old_p.use_tree_since
    &&& if m.skipped {
        &&& new_p.location == old_p.location
        &&& new_p.msg == old_p.msg
        &&& new_p.ctx.ctrl@ == old_p.ctx.ctrl@
        &&& new_p.group_stack@ == old_p.group_stack@
        &&& new_p.ctx_size == old_p.ctx_size
        &&& new_p.has_errors == old_p.has_errors
        &&& new_p.group_depth == old_p.group_depth
    } else {
        &&& new_p.location == m.location
        &&& new_p.msg == m.msg
        &&& new_p.ctx.ctrl@ == m.ctx.nodes
        &&& new_p.ctx.stack@ == Seq::<usize>::empty()
        &&& new_p.group_stack@ == m.ctx.groups
        &&& new_p.ctx_size == m.ctx.ctx_size
        &&& new_p.has_errors == m.ctx.has_errors
        &&& new_p.group_depth == 0
    }
}

// ---------------------------------------------------------------------------
// executable parsing
// ---------------------------------------------------------------------------

pub(crate) fn lo32_of(v: u64) -> (r: u32)
    ensures
        r == lo32(v as nat),
{
    (v % 0x1_0000_0000) as u32
}

pub(crate) fn hi32_of(v: u64) -> (r: u32)
    ensures
        r == hi32(v as nat),
{
    (v / 0x1_0000_0000 % 0x1_0000_0000) as u32
}

fn ivar_bits_of(u: u64) -> (r: u64)
    ensures
        r == ivar_bits(u),
{
    if u % 2 == 0 {
        u / 2
    } else {
        0xFFFF_FFFF_FFFF_FFFFu64 - u / 2
    }
}

fn wrap_sub32_of(x: u32, y: u32) -> (r: u32)
    ensures
        r == wrap_sub32(x, y),
{
    if x >= y {
        x - y
    } else {
        (x as u64 + 0x1_0000_0000 - y as u64) as u32
    }
}

/// Reads the key at `off`.
pub(crate) fn read_key(s: &[u8], off: usize) -> (r: Option<(u32, u32, usize)>)
    ensures
        r is None <==> key_at(s@, off as int) is None,
        r matches Some((kl, ko, next)) ==> key_at(s@, off as int) == Some((kl, ko, next as int)) && next <= s@.len(),
{
    if off >= s.len() {
        return None;
    }
    if s[off] != 0 {
        match read_uvarint_checked(s, off) {
            Some((len, n)) => {
                if len > (s.len() - off - n) as u64 {
                    None
                } else {
                    Some((len as u32, (off + n) as u32, off + n + len as usize))
                }
            },
            None => None,
        }
    } else {
        match read_uvarint_checked(s, off + 1) {
            Some((v, n)) => Some((0u32, v as u32, off + 1 + n)),
            None => None,
        }
    }
}

/// Reads the length-prefixed string at `off`.
pub fn read_str(s: &[u8], off: usize) -> (r: Option<(usize, usize)>)
    ensures
        r is None <==> str_at(s@, off as int) is None,
        r matches Some((a, b)) ==> str_at(s@, off as int) == Some((a as int, b as int)) && off < a <= b <= s@.len(),
{
    proof {
        lemma_uvarint_at_fits(s@, off as int);
    }
    match read_uvarint_checked(s, off) {
        Some((len, n)) => {
            if len > (s.len() - off - n) as u64 {
                None
            } else {
                Some((off + n, off + n + len as usize))
            }
        },
        None => None,
    }
}

fn skip_strs_exec(s: &[u8], off: usize, count: u64) -> (r: Option<usize>)
    requires
        off <= s@.len(),
    ensures
        r is None <==> skip_strs(s@, off as int, count as nat) is None,
        r matches Some(end) ==> skip_strs(s@, off as int, count as nat) == Some(end as int) && off <= end <= s@.len(),
{
    let mut o: usize = off;
    let mut left: u64 = count;
    while left > 0
        invariant
            off <= o <= s@.len(),
            skip_strs(s@, off as int, count as nat) == skip_strs(s@, o as int, left as nat),
        decreases left,
    {
        match read_str(s, o) {
            Some((_start, end)) => {
                assert(skip_strs(s@, o as int, left as nat) == skip_strs(s@, end as int, (left - 1) as nat));
                o = end;
                left = left - 1;
            },
            None => {
                return None;
            },
        }
    }
    Some(o)
}

/// Marks the element before the current one as the last of its group.
fn mark_as_last(nodes: &mut Vec<Node>, prev: PrevElement)
    ensures
        final(nodes)@ == mark_last(old(nodes)@, prev),
{
    let curlen = nodes.len() as u32;
    match prev {
        PrevElement::End(idx) => {
            if idx < nodes.len() {
                let x = nodes[idx];
                let v = wrap_sub32_of(curlen, x.val_len);
                nodes.set(idx, Node { val_len: v, is_last: 1, ..x });
            }
        },
        PrevElement::Whatever => {
            if nodes.len() == 0 {
                return;
            }
            let idx = nodes.len() - 1;
            let x = nodes[idx];
            if !x.kind.is_group() {
                nodes.set(idx, Node { is_last: 1, ..x });
            } else {
                let v = wrap_sub32_of(curlen, x.val_len);
                nodes.set(idx, Node { val_len: v, ..x });
            }
        },
    }
}

fn push_root_exec(st: &mut CtxState, off: usize, kind: NodeKind, kl: u32, ko: u32)
    ensures
        final(st).model() == push_root(old(st).model(), off as int, kind, kl, ko),
{
    let idx = st.nodes.len();
    st.nodes.push(Node { kind, is_last: 0, key_len: kl, key_off: ko, val_len: idx as u32, val_off: 0 });
    st.groups.push(idx);
    st.off = off;
    st.prev = PrevElement::Whatever;
}

/// Adds a fixed-width value of `width` bytes read at `off`.
fn fixed_value(s: &[u8], st: &mut CtxState, k: ValueKind, nk: NodeKind, width: usize, kl: u32, ko: u32, off: usize)
    -> (r: Result<(), ErrorLogParse>)
    requires
        width == 1 || width == 2 || width == 4 || width == 8,
        old(st).ctx_size <= old(st).off < off,
    ensures
        if off + width <= s@.len() {
            r is Ok && final(st).model() == push_value(old(st).model(), off + width,
                fixed_node(k, nk, width as nat, kl, ko, le_at(s@, off as int, width as nat)))
        } else {
            r == Err::<(), ErrorLogParse>(ErrorLogParse::RecordTruncated)
        },
{
    if off > s.len() || width > s.len() - off {
        return Err(ErrorLogParse::RecordTruncated);
    }
    let v = read_le(s, off, width);
    let node = if width == 8 {
        Node { kind: nk, is_last: 0, key_len: kl, key_off: ko, val_len: lo32_of(v), val_off: hi32_of(v) }
    } else if k == ValueKind::I8 {
        let b = v as u8;
        let ext: u32 = if b < 128 { b as u32 } else { b as u32 + 0xFFFF_FF00 };
        Node { kind: nk, is_last: 0, key_len: kl, key_off: ko, val_len: 0, val_off: ext }
    } else {
        Node { kind: nk, is_last: 0, key_len: kl, key_off: ko, val_len: 0, val_off: v as u32 }
    };
    st.nodes.push(node);
    st.off = off + width;
    st.prev = PrevElement::Whatever;
    st.ctx_size = st.ctx_size + 1;
    Ok(())
}

/// Reads one element of the context at `st.off`.
fn ctx_step_exec(s: &[u8], st: &mut CtxState) -> (r: Result<(), ErrorLogParse>)
    requires
        old(st).off < s@.len(),
        old(st).ctx_size <= old(st).off,
    ensures
        match ctx_step(s@, old(st).model()) {
            Ok(m) => r is Ok && final(st).model() == m,
            Err(e) => r == Err::<(), ErrorLogParse>(e),
        },
{
    let b = s[st.off];
    let off = st.off + 1;
    let k = match ValueKind::from_code(b) {
        None => {
            return Err(ErrorLogParse::RecordContextNodeType(b));
        },
        Some(k) => k,
    };
    match k {
        ValueKind::JustContextNode => {
            push_root_exec(st, off, NodeKind::ErrorStageCtx, 0, 0);
            return Ok(());
        },
        ValueKind::PhantomContextNode => {
            st.off = off;
            st.prev = PrevElement::Whatever;
            return Ok(());
        },
        ValueKind::GroupEnd => {
            if st.groups.len() == 0 {
                return Err(ErrorLogParse::RecordTruncated);
            }
            mark_as_last(&mut st.nodes, st.prev);
            let start = st.groups.pop().unwrap();
            st.nodes.push(Node { kind: NodeKind::GroupEnd, is_last: 0, key_len: 0, key_off: 0, val_len: 0, val_off: 0 });
            st.off = off;
            st.prev = PrevElement::End(start);
            return Ok(());
        },
        _ => {},
    }
    let (kl, ko, off) = match read_key(s, off) {
        None => {
            return Err(ErrorLogParse::RecordTruncated);
        },
        Some(x) => x,
    };
    match k {
        ValueKind::Bool => fixed_value(s, st, k, NodeKind::Bool, 1, kl, ko, off),
        ValueKind::Time => fixed_value(s, st, k, NodeKind::Time, 8, kl, ko, off),
        ValueKind::Duration => fixed_value(s, st, k, NodeKind::Dur, 8, kl, ko, off),
        ValueKind::I8 => fixed_value(s, st, k, NodeKind::I8, 1, kl, ko, off),
        ValueKind::I16 => fixed_value(s, st, k, NodeKind::I16, 2, kl, ko, off),
        ValueKind::I32 => fixed_value(s, st, k, NodeKind::I32, 4, kl, ko, off),
        ValueKind::I64 => fixed_value(s, st, k, NodeKind::I64, 8, kl, ko, off),
        ValueKind::U8 => fixed_value(s, st, k, NodeKind::U8, 1, kl, ko, off),
        ValueKind::U16 => fixed_value(s, st, k, NodeKind::U16, 2, kl, ko, off),
        ValueKind::U32 => fixed_value(s, st, k, NodeKind::U32, 4, kl, ko, off),
        ValueKind::U64 => fixed_value(s, st, k, NodeKind::U64, 8, kl, ko, off),
        ValueKind::Float32 => fixed_value(s, st, k, NodeKind::F32, 4, kl, ko, off),
        ValueKind::Float64 => fixed_value(s, st, k, NodeKind::F64, 8, kl, ko, off),
        ValueKind::SliceBool => slice(s, st, NodeKind::Bools, 1, kl, ko, off),
        ValueKind::SliceI64 => slice(s, st, NodeKind::Ints, 8, kl, ko, off),
        ValueKind::SliceI8 => slice(s, st, NodeKind::I8s, 1, kl, ko, off),
        ValueKind::SliceI16 => slice(s, st, NodeKind::I16s, 2, kl, ko, off),
        ValueKind::SliceI32 => slice(s, st, NodeKind::I32s, 4, kl, ko, off),
        ValueKind::SliceU64 => slice(s, st, NodeKind::Uints, 8, kl, ko, off),
        ValueKind::SliceU8 => slice(s, st, NodeKind::U8s, 1, kl, ko, off),
        ValueKind::SliceU16 => slice(s, st, NodeKind::U16s, 2, kl, ko, off),
        ValueKind::SliceU32 => slice(s, st, NodeKind::U32s, 4, kl, ko, off),
        ValueKind::SliceF32 => slice(s, st, NodeKind::F32s, 4, kl, ko, off),
        ValueKind::SliceF64 => slice(s, st, NodeKind::F64s, 8, kl, ko, off),
        ValueKind::NewNode => {
            push_root_exec(st, off, NodeKind::ErrorStageNew, kl, ko);
            Ok(())
        },
        ValueKind::WrapNode => {
            push_root_exec(st, off, NodeKind::ErrorStageWrap, kl, ko);
            Ok(())
        },
        ValueKind::LocationNode => match read_uvarint_checked(s, off) {
            Some((line, n)) => {
                st.nodes.push(Node { kind: NodeKind::ErrLoc, is_last: 0, key_len: kl, key_off: ko, val_len: 0, val_off: line as u32 });
                st.off = off + n;
                st.prev = PrevElement::Whatever;
                Ok(())
            },
            None => Err(ErrorLogParse::RecordTruncated),
        },
        ValueKind::ForeignErrorText => {
            st.nodes.push(Node { kind: NodeKind::ErrTxtFragment, is_last: 0, key_len: kl, key_off: ko, val_len: 0, val_off: 0 });
            st.off = off;
            st.prev = PrevElement::Whatever;
            Ok(())
        },
        ValueKind::Ivar => match read_uvarint_checked(s, off) {
            Some((u, n)) => {
                let bits = ivar_bits_of(u);
                st.nodes.push(Node { kind: NodeKind::IVar, is_last: 0, key_len: kl, key_off: ko, val_len: lo32_of(bits), val_off: hi32_of(bits) });
                st.off = off + n;
                st.prev = PrevElement::Whatever;
                st.ctx_size = st.ctx_size + 1;
                Ok(())
            },
            None => Err(ErrorLogParse::RecordTruncated),
        },
        ValueKind::Uvar => match read_uvarint_checked(s, off) {
            Some((u, n)) => {
                st.nodes.push(Node { kind: NodeKind::UVar, is_last: 0, key_len: kl, key_off: ko, val_len: lo32_of(u), val_off: hi32_of(u) });
                st.off = off + n;
                st.prev = PrevElement::Whatever;
                st.ctx_size = st.ctx_size + 1;
                Ok(())
            },
            None => Err(ErrorLogParse::RecordTruncated),
        },
        ValueKind::String => varthing(s, st, NodeKind::Str, kl, ko, off),
        ValueKind::Bytes => varthing(s, st, NodeKind::Bytes, kl, ko, off),
        ValueKind::ErrorRaw => varthing(s, st, NodeKind::ErrTxt, kl, ko, off),
        ValueKind::SliceString => match read_uvarint_checked(s, off) {
            Some((count, n)) => match skip_strs_exec(s, off + n, count) {
                Some(end) => {
                    st.nodes.push(Node { kind: NodeKind::Strs, is_last: 0, key_len: kl, key_off: ko, val_len: count as u32, val_off: (off + n) as u32 });
                    st.off = end;
                    st.prev = PrevElement::Whatever;
                    st.ctx_size = st.ctx_size + 1;
                    Ok(())
                },
                None => Err(ErrorLogParse::RecordTruncated),
            },
            None => Err(ErrorLogParse::RecordTruncated),
        },
        ValueKind::Error => {
            push_root_exec(st, off, NodeKind::Error, kl, ko);
            st.ctx_size = st.ctx_size + 1;
            st.has_errors = true;
            Ok(())
        },
        ValueKind::ErrorEmbed => {
            match read_str(s, off) {
                Some((start, end)) => {
                    push_root_exec(st, off, NodeKind::ErrorEmbed, kl, ko);
                    st.nodes.push(Node { kind: NodeKind::ErrEmbedText, is_last: 0, key_len: 0, key_off: 0, val_len: (end - start) as u32, val_off: start as u32 });
                    st.off = end;
                    st.ctx_size = st.ctx_size + 1;
                    st.has_errors = true;
                    Ok(())
                },
                None => Err(ErrorLogParse::RecordTruncated),
            }
        },
        ValueKind::Group => {
            push_root_exec(st, off, NodeKind::Group, kl, ko);
            st.ctx_size = st.ctx_size + 1;
            Ok(())
        },
        _ => {
            st.off = off;
            Ok(())
        },
    }
}

/// Adds a node for the length-prefixed value at `off`.
fn varthing(s: &[u8], st: &mut CtxState, nk: NodeKind, kl: u32, ko: u32, off: usize) -> (r: Result<(), ErrorLogParse>)
    requires
        old(st).ctx_size <= old(st).off < off,
    ensures
        match str_at(s@, off as int) {
            Some((start, end)) => r is Ok && final(st).model() == push_value(old(st).model(), end,
                mk_node(nk, kl, ko, (end - start) as u32, start as u32)),
            None => r == Err::<(), ErrorLogParse>(ErrorLogParse::RecordTruncated),
        },
{
    match read_str(s, off) {
        Some((start, end)) => {
            st.nodes.push(Node { kind: nk, is_last: 0, key_len: kl, key_off: ko, val_len: (end - start) as u32, val_off: start as u32 });
            st.off = end;
            st.prev = PrevElement::Whatever;
            st.ctx_size = st.ctx_size + 1;
            Ok(())
        },
        None => Err(ErrorLogParse::RecordTruncated),
    }
}

/// Adds a node for the slice at `off`: a uvarint count of elements of `siz` bytes.
fn slice(s: &[u8], st: &mut CtxState, nk: NodeKind, siz: usize, kl: u32, ko: u32, off: usize) -> (r: Result<(), ErrorLogParse>)
    requires
        1 <= siz <= 8,
        old(st).ctx_size <= old(st).off < off,
    ensures
        match uvarint_at(s@, off as int) {
            Some((count, n)) => if off + n + count * siz <= s@.len() {
                r is Ok && final(st).model() == push_value(old(st).model(), off + n + count * siz,
                    mk_node(nk, kl, ko, count as u32, (off + n) as u32))
            } else {
                r == Err::<(), ErrorLogParse>(ErrorLogParse::RecordTruncated)
            },
            None => r == Err::<(), ErrorLogParse>(ErrorLogParse::RecordTruncated),
        },
{
    match read_uvarint_checked(s, off) {
        Some((count, n)) => {
            let room: usize = s.len() - off - n;
            if count > (room / siz) as u64 {
                proof {
                    assert(count * siz > room) by (nonlinear_arith)
                        requires count > room / siz, siz >= 1;
                }
                return Err(ErrorLogParse::RecordTruncated);
            }
            proof {
                assert(count * siz <= room) by (nonlinear_arith)
                    requires count <= room / siz, siz >= 1;
            }
            let end = off + n + (count as usize) * siz;
            st.nodes.push(Node { kind: nk, is_last: 0, key_len: kl, key_off: ko, val_len: count as u32, val_off: (off + n) as u32 });
            st.off = end;
            st.prev = PrevElement::Whatever;
            st.ctx_size = st.ctx_size + 1;
            Ok(())
        },
        None => Err(ErrorLogParse::RecordTruncated),
    }
}

/// Every element moves the offset forward and counts at most one value.
proof fn lemma_step_advances(s: Seq<u8>, st: CtxModel)
    requires
        0 <= st.off < s.len(),
        ctx_step(s, st) is Ok,
    ensures
        ctx_step(s, st).unwrap().off > st.off,
        ctx_step(s, st).unwrap().off <= s.len(),
        ctx_step(s, st).unwrap().ctx_size <= st.ctx_size + 1,
{
    let b = s[st.off];
    let k = value_kind_of(b).unwrap();
    if k != ValueKind::JustContextNode && k != ValueKind::PhantomContextNode && k != ValueKind::GroupEnd {
        let (kl, ko, off2) = key_at(s, st.off + 1).unwrap();
        lemma_uvarint_at_fits(s, st.off + 1);
        lemma_uvarint_at_fits(s, st.off + 2);
        lemma_uvarint_at_fits(s, off2);
        if let Some((nk, w)) = slice_shape(k) {
            let (count, n) = uvarint_at(s, off2).unwrap();
            assert(count * w >= 0) by (nonlinear_arith)
                requires w >= 1;
        }
        if k == ValueKind::SliceString {
            let (count, n) = uvarint_at(s, off2).unwrap();
            lemma_skip_strs_bounds(s, off2 + n, count as nat);
        }
    }
}

proof fn lemma_skip_strs_bounds(s: Seq<u8>, off: int, count: nat)
    ensures
        skip_strs(s, off, count) matches Some(end) ==> off <= end && (count > 0 ==> end <= s.len()),
    decreases count,
{
    if count > 0 {
        if let Some((_start, end)) = str_at(s, off) {
            lemma_skip_strs_bounds(s, end, (count - 1) as nat);
        }
    }
}


// ---------------------------------------------------------------------------
// what the nodes refer to
// ---------------------------------------------------------------------------

/// The item width of the fixed-width slice node kinds.
pub open spec fn slice_width(k: NodeKind) -> Option<nat> {
    match k {
        NodeKind::Bools | NodeKind::I8s | NodeKind::U8s => Some(1nat),
        NodeKind::I16s | NodeKind::U16s => Some(2nat),
        NodeKind::I32s | NodeKind::U32s | NodeKind::F32s => Some(4nat),
        NodeKind::Ints | NodeKind::I64s | NodeKind::Uints | NodeKind::U64s | NodeKind::F64s => Some(8nat),
        _ => None,
    }
}

/// Whether the bytes that node `n` refers to (its literal key, and the bytes or
/// items of its value) lie inside the record `s`.
pub open spec fn node_inside(n: Node, s: Seq<u8>) -> bool {
    let len = s.len() as int;
    &&& (n.key_len != 0 ==> n.key_off + n.key_len <= len)
    &&& (n.kind == NodeKind::Str || n.kind == NodeKind::Bytes || n.kind == NodeKind::ErrTxt
        || n.kind == NodeKind::ErrEmbedText ==> n.val_off + n.val_len <= len)
    &&& (slice_width(n.kind) matches Some(w) ==> n.val_off + n.val_len * w <= len)
    &&& (n.kind == NodeKind::Strs ==> skip_strs(s, n.val_off as int, n.val_len as nat) is Some)
}

/// The invariant of context parsing: every node lies inside the record, and the
/// group stack and the element before point at group roots.
pub open spec fn ctx_inv(s: Seq<u8>, st: CtxModel) -> bool {
    &&& forall|i: int| 0 <= i < st.nodes.len() ==> node_inside(#[trigger] st.nodes[i], s)
    &&& forall|i: int| 0 <= i < st.groups.len() ==> (#[trigger] st.groups[i]) < st.nodes.len()
        && spec_is_group(st.nodes[st.groups[i] as int].kind)
    &&& (st.prev matches PrevElement::End(idx) ==> idx < st.nodes.len() && spec_is_group(st.nodes[idx as int].kind))
}

proof fn lemma_skip_strs_count(s: Seq<u8>, off: int, count: nat)
    requires
        skip_strs(s, off, count) is Some,
    ensures
        skip_strs(s, off, count).unwrap() >= off + count,
    decreases count,
{
    if count > 0 {
        let (_start, end) = str_at(s, off).unwrap();
        lemma_uvarint_at_fits(s, off);
        lemma_skip_strs_count(s, end, (count - 1) as nat);
    }
}

proof fn lemma_mark_last_inv(s: Seq<u8>, st: CtxModel)
    requires
        ctx_inv(s, st),
    ensures
        forall|i: int| 0 <= i < mark_last(st.nodes, st.prev).len() ==> node_inside(#[trigger] mark_last(st.nodes, st.prev)[i], s),
        mark_last(st.nodes, st.prev).len() == st.nodes.len(),
        forall|i: int| 0 <= i < st.nodes.len() ==> (#[trigger] mark_last(st.nodes, st.prev)[i]).kind == st.nodes[i].kind,
{
    let m = mark_last(st.nodes, st.prev);
    assert forall|i: int| 0 <= i < m.len() implies node_inside(#[trigger] m[i], s) by {
        assert(node_inside(st.nodes[i], s));
    }
}

proof fn lemma_push_inv(s: Seq<u8>, st: CtxModel, off: int, n: Node)
    requires
        ctx_inv(s, st),
        node_inside(n, s),
    ensures
        ctx_inv(s, push_node(st, off, n)),
        ctx_inv(s, push_value(st, off, n)),
{
    let a = push_node(st, off, n);
    assert forall|i: int| 0 <= i < a.nodes.len() implies node_inside(#[trigger] a.nodes[i], s) by {
        if i < st.nodes.len() {
            assert(a.nodes[i] == st.nodes[i]);
        }
    }
    assert forall|i: int| 0 <= i < a.groups.len() implies (#[trigger] a.groups[i]) < a.nodes.len()
        && spec_is_group(a.nodes[a.groups[i] as int].kind) by {
        assert(a.nodes[st.groups[i] as int] == st.nodes[st.groups[i] as int]);
    }
    let b = push_value(st, off, n);
    assert(b.nodes == a.nodes && b.groups == a.groups && b.prev == a.prev);
}

proof fn lemma_push_root_inv(s: Seq<u8>, st: CtxModel, off: int, kind: NodeKind, kl: u32, ko: u32)
    requires
        ctx_inv(s, st),
        spec_is_group(kind),
        kl != 0 ==> ko + kl <= s.len(),
        st.nodes.len() <= usize::MAX,
    ensures
        ctx_inv(s, push_root(st, off, kind, kl, ko)),
{
    let a = push_root(st, off, kind, kl, ko);
    assert forall|i: int| 0 <= i < a.nodes.len() implies node_inside(#[trigger] a.nodes[i], s) by {
        if i < st.nodes.len() {
            assert(a.nodes[i] == st.nodes[i]);
        }
    }
    assert forall|i: int| 0 <= i < a.groups.len() implies (#[trigger] a.groups[i]) < a.nodes.len()
        && spec_is_group(a.nodes[a.groups[i] as int].kind) by {
        if i < st.groups.len() {
            assert(a.groups[i] == st.groups[i]);
            assert(a.nodes[st.groups[i] as int] == st.nodes[st.groups[i] as int]);
        } else {
            assert(a.groups[i] == st.nodes.len());
            assert(a.nodes[st.nodes.len() as int].kind == kind);
        }
    }
}

proof fn lemma_value_step_inv(s: Seq<u8>, st: CtxModel, k: ValueKind, kl: u32, ko: u32, off: int)
    requires
        ctx_inv(s, st),
        kl != 0 ==> ko + kl <= s.len(),
        s.len() <= u32::MAX,
        st.nodes.len() <= usize::MAX,
        0 <= off,
    ensures
        value_step(s, st, k, kl, ko, off) matches Ok(next) ==> ctx_inv(s, next) && next.nodes.len()
            <= st.nodes.len() + 2,
{
    let len = s.len() as int;
    if let Some((nk, w)) = fixed_shape(k) {
        if off + w <= len {
            lemma_push_inv(s, st, off + w, fixed_node(k, nk, w, kl, ko, le_at(s, off, w)));
        }
    } else if let Some((nk, w)) = slice_shape(k) {
        lemma_uvarint_at_fits(s, off);
        if let Some((count, n)) = uvarint_at(s, off) {
            if off + n + count * w <= len {
                assert(count <= count * w) by (nonlinear_arith)
                    requires w >= 1;
                let nd = mk_node(nk, kl, ko, count as u32, (off + n) as u32);
                assert(slice_width(nk) == Some(w));
                assert(node_inside(nd, s));
                lemma_push_inv(s, st, off + n + count * w, nd);
            }
        }
    } else {
        match k {
            ValueKind::NewNode => lemma_push_root_inv(s, st, off, NodeKind::ErrorStageNew, kl, ko),
            ValueKind::WrapNode => lemma_push_root_inv(s, st, off, NodeKind::ErrorStageWrap, kl, ko),
            ValueKind::LocationNode => {
                if let Some((line, n)) = uvarint_at(s, off) {
                    lemma_push_inv(s, st, off + n, mk_node(NodeKind::ErrLoc, kl, ko, 0, line as u32));
                }
            },
            ValueKind::ForeignErrorText => lemma_push_inv(s, st, off, mk_node(NodeKind::ErrTxtFragment, kl, ko, 0, 0)),
            ValueKind::Ivar => {
                if let Some((u, n)) = uvarint_at(s, off) {
                    lemma_push_inv(s, st, off + n,
                        mk_node(NodeKind::IVar, kl, ko, lo32(ivar_bits(u) as nat), hi32(ivar_bits(u) as nat)));
                }
            },
            ValueKind::Uvar => {
                if let Some((u, n)) = uvarint_at(s, off) {
                    lemma_push_inv(s, st, off + n, mk_node(NodeKind::UVar, kl, ko, lo32(u as nat), hi32(u as nat)));
                }
            },
            ValueKind::String | ValueKind::Bytes | ValueKind::ErrorRaw => {
                lemma_uvarint_at_fits(s, off);
                if let Some((start, end)) = str_at(s, off) {
                    let nk = if k == ValueKind::String { NodeKind::Str } else if k == ValueKind::Bytes { NodeKind::Bytes } else { NodeKind::ErrTxt };
                    let nd = mk_node(nk, kl, ko, (end - start) as u32, start as u32);
                    assert(node_inside(nd, s));
                    lemma_push_inv(s, st, end, nd);
                }
            },
            ValueKind::SliceString => {
                lemma_uvarint_at_fits(s, off);
                if let Some((count, n)) = uvarint_at(s, off) {
                    if let Some(end) = skip_strs(s, off + n, count as nat) {
                        lemma_skip_strs_count(s, off + n, count as nat);
                        lemma_skip_strs_bounds(s, off + n, count as nat);
                        let nd = mk_node(NodeKind::Strs, kl, ko, count as u32, (off + n) as u32);
                        assert(node_inside(nd, s));
                        lemma_push_inv(s, st, end, nd);
                    }
                }
            },
            ValueKind::Error => lemma_push_root_inv(s, st, off, NodeKind::Error, kl, ko),
            ValueKind::ErrorEmbed => {
                lemma_push_root_inv(s, st, off, NodeKind::ErrorEmbed, kl, ko);
                let r = push_root(st, off, NodeKind::ErrorEmbed, kl, ko);
                lemma_uvarint_at_fits(s, off);
                if let Some((start, end)) = str_at(s, off) {
                    let nd = mk_node(NodeKind::ErrEmbedText, 0, 0, (end - start) as u32, start as u32);
                    assert(node_inside(nd, s));
                    lemma_push_inv(s, r, end, nd);
                    let a = push_node(r, end, nd);
                    let next = value_step(s, st, k, kl, ko, off).unwrap();
                    assert(next.nodes == a.nodes && next.groups == a.groups && next.prev == a.prev);
                }
            },
            ValueKind::Group => lemma_push_root_inv(s, st, off, NodeKind::Group, kl, ko),
            _ => {},
        }
    }
}

proof fn lemma_ctx_step_inv(s: Seq<u8>, st: CtxModel)
    requires
        ctx_inv(s, st),
        0 <= st.off < s.len(),
        s.len() <= u32::MAX,
        st.nodes.len() <= usize::MAX,
    ensures
        ctx_step(s, st) matches Ok(next) ==> ctx_inv(s, next) && next.nodes.len() <= st.nodes.len() + 2,
{
    let b = s[st.off];
    let off = st.off + 1;
    if let Some(k) = value_kind_of(b) {
        match k {
            ValueKind::JustContextNode => lemma_push_root_inv(s, st, off, NodeKind::ErrorStageCtx, 0, 0),
            ValueKind::PhantomContextNode => {},
            ValueKind::GroupEnd => {
                if st.groups.len() != 0 {
                    lemma_mark_last_inv(s, st);
                    let marked = mark_last(st.nodes, st.prev);
                    let nodes = marked.push(mk_node(NodeKind::GroupEnd, 0, 0, 0, 0));
                    let groups = st.groups.drop_last();
                    assert forall|i: int| 0 <= i < nodes.len() implies node_inside(#[trigger] nodes[i], s) by {
                        if i < marked.len() {
                            assert(nodes[i] == marked[i]);
                        }
                    }
                    assert forall|i: int| 0 <= i < groups.len() implies (#[trigger] groups[i]) < nodes.len()
                        && spec_is_group(nodes[groups[i] as int].kind) by {
                        assert(groups[i] == st.groups[i]);
                        assert(nodes[st.groups[i] as int] == marked[st.groups[i] as int]);
                    }
                    let last = st.groups.last();
                    assert(last == st.groups[st.groups.len() - 1]);
                    assert(nodes[last as int] == marked[last as int]);
                }
            },
            _ => {
                if let Some((kl, ko, off2)) = key_at(s, off) {
                    lemma_uvarint_at_fits(s, off);
                    lemma_uvarint_at_fits(s, off + 1);
                    assert(kl != 0 ==> ko + kl <= s.len());
                    lemma_value_step_inv(s, st, k, kl, ko, off2);
                }
            },
        }
    }
}

proof fn lemma_ctx_run_inv(s: Seq<u8>, st: CtxModel)
    requires
        ctx_inv(s, st),
        0 <= st.off,
        st.nodes.len() <= 2 * st.off,
        s.len() <= u32::MAX,
        s.len() <= isize::MAX,
    ensures
        ctx_run(s, st) matches Ok(m) ==> forall|i: int| 0 <= i < m.nodes.len() ==> node_inside(#[trigger] m.nodes[i], s),
    decreases s.len() - st.off,
{
    if st.off >= s.len() {
        lemma_mark_last_inv(s, st);
    } else {
        lemma_ctx_step_inv(s, st);
        if let Ok(next) = ctx_step(s, st) {
            if st.off < next.off <= s.len() {
                lemma_ctx_run_inv(s, next);
            }
        }
    }
}

/// Every node that reading a record gives refers to bytes inside the record: its
/// literal key, its string or byte value, and the items of its slice value; so do
/// the message and the location's file name. (Node positions are 32-bit, so the
/// record is taken to fit in them.)
pub proof fn law_parsed_nodes_inside(s: Seq<u8>, since: u8)
    requires
        s.len() <= u32::MAX,
        s.len() <= isize::MAX,
    ensures
        record_spec(s, since) matches Ok(m) ==> {
            &&& forall|i: int| 0 <= i < m.ctx.nodes.len() ==> node_inside(#[trigger] m.ctx.nodes[i], s)
            &&& m.msg.0 + m.msg.1 <= s.len()
            &&& (m.location matches Some((flen, foff, _line)) ==> foff + flen <= s.len())
        },
{
    if s.len() >= 11 {
        lemma_uvarint_at_fits(s, 11);
        if let Some((location, off)) = location_at(s, 11) {
            lemma_uvarint_at_fits(s, off);
            if let Some((mstart, mend)) = str_at(s, off) {
                if let Some((start, end)) = str_at(s, 11) {
                    lemma_uvarint_at_fits(s, end);
                }
                lemma_ctx_run_inv(s, ctx_start(mend));
            }
        }
    }
}

// ---------------------------------------------------------------------------
// what the context counts
// ---------------------------------------------------------------------------

/// Whether a node stands for a value element of the context (a value, a group or an
/// error), as opposed to the parts of an error chain (stages, locations, texts) and
/// group ends.
pub open spec fn counted_kind(k: NodeKind) -> bool {
    !(k == NodeKind::ErrLoc || k == NodeKind::ErrTxtFragment || k == NodeKind::ErrorStageNew
        || k == NodeKind::ErrorStageWrap || k == NodeKind::ErrorStageCtx || k == NodeKind::GroupEnd
        || k == NodeKind::ErrEmbedText)
}

/// The number of value elements among `nodes`.
pub open spec fn count_values(nodes: Seq<Node>) -> nat
    decreases nodes.len(),
{
    if nodes.len() == 0 {
        0
    } else {
        count_values(nodes.drop_last()) + (if counted_kind(nodes.last().kind) { 1nat } else { 0nat })
    }
}

/// Whether some node of `nodes` is the root of an error.
pub open spec fn has_error_root(nodes: Seq<Node>) -> bool {
    exists|i: int| 0 <= i < nodes.len() && (#[trigger] nodes[i].kind == NodeKind::Error || nodes[i].kind == NodeKind::ErrorEmbed)
}

/// The counters of a parsing state agree with its nodes.
pub open spec fn counts_agree(st: CtxModel) -> bool {
    st.ctx_size == count_values(st.nodes) && (st.has_errors <==> has_error_root(st.nodes))
}

proof fn lemma_counts_push(nodes: Seq<Node>, n: Node)
    ensures
        count_values(nodes.push(n)) == count_values(nodes) + (if counted_kind(n.kind) { 1nat } else { 0nat }),
        has_error_root(nodes.push(n)) <==> has_error_root(nodes) || n.kind == NodeKind::Error || n.kind == NodeKind::ErrorEmbed,
{
    let t = nodes.push(n);
    assert(t.drop_last() =~= nodes);
    if has_error_root(nodes) {
        let i = choose|i: int| 0 <= i < nodes.len() && (#[trigger] nodes[i].kind == NodeKind::Error || nodes[i].kind == NodeKind::ErrorEmbed);
        assert(t[i] == nodes[i]);
    }
    if n.kind == NodeKind::Error || n.kind == NodeKind::ErrorEmbed {
        assert(t[nodes.len() as int] == n);
    }
    if has_error_root(t) {
        let i = choose|i: int| 0 <= i < t.len() && (#[trigger] t[i].kind == NodeKind::Error || t[i].kind == NodeKind::ErrorEmbed);
        if i < nodes.len() {
            assert(t[i] == nodes[i]);
        }
    }
}

proof fn lemma_counts_same_kinds(a: Seq<Node>, b: Seq<Node>)
    requires
        a.len() == b.len(),
        forall|i: int| 0 <= i < a.len() ==> (#[trigger] a[i]).kind == b[i].kind,
    ensures
        count_values(a) == count_values(b),
        has_error_root(a) <==> has_error_root(b),
    decreases a.len(),
{
    if a.len() > 0 {
        lemma_counts_same_kinds(a.drop_last(), b.drop_last());
        assert(a.drop_last().push(a.last()) =~= a);
        assert(b.drop_last().push(b.last()) =~= b);
        lemma_counts_push(a.drop_last(), a.last());
        lemma_counts_push(b.drop_last(), b.last());
        assert(a[a.len() - 1].kind == b[b.len() - 1].kind);
    }
}

proof fn lemma_value_step_counts(s: Seq<u8>, st: CtxModel, k: ValueKind, kl: u32, ko: u32, off: int)
    requires
        counts_agree(st),
    ensures
        value_step(s, st, k, kl, ko, off) matches Ok(next) ==> counts_agree(next),
{
    if let Ok(next) = value_step(s, st, k, kl, ko, off) {
        if next.nodes.len() == st.nodes.len() + 1 {
            lemma_counts_push(st.nodes, next.nodes.last());
            assert(st.nodes.push(next.nodes.last()) =~= next.nodes);
        } else if next.nodes.len() == st.nodes.len() + 2 {
            let r = st.nodes.push(next.nodes[st.nodes.len() as int]);
            lemma_counts_push(st.nodes, next.nodes[st.nodes.len() as int]);
            lemma_counts_push(r, next.nodes.last());
            assert(r.push(next.nodes.last()) =~= next.nodes);
        } else {
            assert(next.nodes =~= st.nodes);
        }
    }
}

proof fn lemma_ctx_step_counts(s: Seq<u8>, st: CtxModel)
    requires
        counts_agree(st),
        ctx_inv(s, st),
    ensures
        ctx_step(s, st) matches Ok(next) ==> counts_agree(next),
{
    let b = s[st.off];
    let off = st.off + 1;
    if let Some(k) = value_kind_of(b) {
        match k {
            ValueKind::JustContextNode => {
                let next = ctx_step(s, st).unwrap();
                lemma_counts_push(st.nodes, next.nodes.last());
                assert(st.nodes.push(next.nodes.last()) =~= next.nodes);
            },
            ValueKind::PhantomContextNode => {},
            ValueKind::GroupEnd => {
                if st.groups.len() != 0 {
                    lemma_mark_last_inv(s, st);
                    let marked = mark_last(st.nodes, st.prev);
                    lemma_counts_same_kinds(marked, st.nodes);
                    lemma_counts_push(marked, mk_node(NodeKind::GroupEnd, 0, 0, 0, 0));
                }
            },
            _ => {
                if let Some((kl, ko, off2)) = key_at(s, off) {
                    lemma_value_step_counts(s, st, k, kl, ko, off2);
                }
            },
        }
    }
}

proof fn lemma_ctx_run_counts(s: Seq<u8>, st: CtxModel)
    requires
        counts_agree(st),
        ctx_inv(s, st),
        0 <= st.off,
        st.nodes.len() <= 2 * st.off,
        s.len() <= u32::MAX,
        s.len() <= isize::MAX,
    ensures
        ctx_run(s, st) matches Ok(m) ==> counts_agree(m),
    decreases s.len() - st.off,
{
    if st.off >= s.len() {
        lemma_mark_last_inv(s, st);
        lemma_counts_same_kinds(mark_last(st.nodes, st.prev), st.nodes);
    } else {
        lemma_ctx_step_counts(s, st);
        lemma_ctx_step_inv(s, st);
        if let Ok(next) = ctx_step(s, st) {
            if st.off < next.off <= s.len() {
                lemma_ctx_run_counts(s, next);
            }
        }
    }
}

/// What reading a context counts: its size is the number of value elements read
/// (values, groups and errors; not the stages, locations and texts of error chains,
/// nor group ends), and it has errors exactly when an error element was read.
pub proof fn law_ctx_counts(s: Seq<u8>, off: int)
    requires
        0 <= off,
        s.len() <= u32::MAX,
        s.len() <= isize::MAX,
    ensures
        ctx_run(s, ctx_start(off)) matches Ok(m) ==> m.ctx_size == count_values(m.nodes)
            && (m.has_errors <==> has_error_root(m.nodes)),
{
    assert(count_values(Seq::<Node>::empty()) == 0);
    lemma_ctx_run_counts(s, ctx_start(off));
}

proof fn lemma_split_word(v: u64)
    ensures
        val_u64(mk_node(NodeKind::IVar, 0, 0, lo32(v as nat), hi32(v as nat))) == v,
{
    assert(v as nat / 0x1_0000_0000 < 0x1_0000_0000);
    assert((v as nat % 0x1_0000_0000) + (v as nat / 0x1_0000_0000) * 0x1_0000_0000 == v as nat);
}

/// A fixed-width element's node holds the little-endian word read after its key:
/// eight-byte words whole (split over the two value fields), narrower words in
/// `val_off`, a one-byte signed value sign-extended to 32 bits (so it reads back as
/// the same signed value), and a boolean's byte as it is.
pub proof fn law_fixed_value(s: Seq<u8>, st: CtxModel, k: ValueKind, kl: u32, ko: u32, off: int)
    requires
        0 <= off,
        off + 8 <= s.len(),
        fixed_shape(k) is Some,
    ensures
        ({
            let (nk, w) = fixed_shape(k).unwrap();
            &&& value_step(s, st, k, kl, ko, off) matches Ok(next)
            &&& next.nodes.last().kind == nk
            &&& next.off == off + w
            &&& w == 8 ==> val_u64(next.nodes.last()) == le_at(s, off, 8)
            &&& k == ValueKind::I8 ==> ((next.nodes.last().val_off as i32) as int) == (s[off] as i8) as int
            &&& (w < 8 && k != ValueKind::I8) ==> next.nodes.last().val_off == le_at(s, off, w)
            &&& k == ValueKind::Bool ==> next.nodes.last().val_off == s[off]
        }),
{
    let (nk, w) = fixed_shape(k).unwrap();
    crate::log_render_json::lemma_word_bounds(s, off);
    let v = le_at(s, off, w);
    if w == 8 {
        lemma_split_word(v as u64);
    }
    if k == ValueKind::I8 {
        let b = s[off];
        assert(((sign_extend8(b) as i32) as int) == (b as i8) as int) by (bit_vector)
            requires sign_extend8(b) == if b < 128 { b as u32 } else { (b as nat + 0xFFFF_FF00) as u32 };
        assert((v as u8) == b);
    }
}

/// A signed varint element keeps its sign: the node read for it holds, as a 64-bit
/// two's complement word, the value whose zigzag encoding is the uvarint read
/// (so 9 gives -5, and re-encoding the value gives the uvarint back).
pub proof fn law_ivar_value(s: Seq<u8>, st: CtxModel, kl: u32, ko: u32, off: int)
    ensures
        value_step(s, st, ValueKind::Ivar, kl, ko, off) matches Ok(next) ==> (uvarint_at(s, off) matches Some((u, _n))
            && next.nodes.last().kind == NodeKind::IVar
            && (val_u64(next.nodes.last()) as i64) as int == unzigzag(u as nat)
            && zigzag((val_u64(next.nodes.last()) as i64) as int) == u),
{
    if let Some((u, n)) = uvarint_at(s, off) {
        let v = ivar_bits(u);
        lemma_split_word(v);
        let nd = mk_node(NodeKind::IVar, kl, ko, lo32(v as nat), hi32(v as nat));
        assert(val_u64(nd) == val_u64(mk_node(NodeKind::IVar, 0, 0, lo32(v as nat), hi32(v as nat))));
        crate::log_render_json::lemma_i64_cast(v);
        let next = value_step(s, st, ValueKind::Ivar, kl, ko, off).unwrap();
        assert(next.nodes.last() == nd);
    }
}

/// A group end read while no group is open ends the reading of a context with
/// `RecordTruncated`.
pub proof fn law_unmatched_group_end(s: Seq<u8>, st: CtxModel)
    requires
        0 <= st.off < s.len(),
        value_kind_of(s[st.off]) == Some(ValueKind::GroupEnd),
        st.groups.len() == 0,
    ensures
        ctx_step(s, st) == Err::<CtxModel, ErrorLogParse>(ErrorLogParse::RecordTruncated),
        ctx_run(s, st) == Err::<CtxModel, ErrorLogParse>(ErrorLogParse::RecordTruncated),
{
}

/// A byte that codes no element kind ends the reading of a context with
/// `RecordContextNodeType` of that byte.
pub proof fn law_unknown_kind(s: Seq<u8>, st: CtxModel)
    requires
        0 <= st.off < s.len(),
        value_kind_of(s[st.off]) is None,
    ensures
        ctx_step(s, st) == Err::<CtxModel, ErrorLogParse>(ErrorLogParse::RecordContextNodeType(s[st.off])),
        ctx_run(s, st) == Err::<CtxModel, ErrorLogParse>(ErrorLogParse::RecordContextNodeType(s[st.off])),
{
}

impl LogParser {
    /// Reads the context that starts at `off` and runs to the end of `src`.
    ///
    /// Malformed contexts give errors, never a panic: in particular a group end that
    /// closes no open group gives `RecordTruncated` (see
    /// [law_unmatched_group_end]), and an unknown element kind gives
    /// `RecordContextNodeType`.
    pub fn parse_ctx(&mut self, src: &[u8], off: usize) -> (r: Result<(), ErrorLogParse>)
        requires
            off <= src@.len(),
        ensures
            match ctx_run(src@, ctx_start(off as int)) {
                Ok(m) => r is Ok
                    && final(self).ctx.ctrl@ == m.nodes
                    && final(self).ctx.stack@ == Seq::<usize>::empty()
                    && final(self).group_stack@ == m.groups
                    && final(self).ctx_size == m.ctx_size
                    && final(self).has_errors == m.has_errors
                    && final(self).group_depth == 0
                    && final(self).time == old(self).time
                    && final(self).level == old(self).level
                    && final(self).location == old(self).location
                    && final(self).msg == old(self).msg
                    && final(self).max_log_size == old(self).max_log_size
                    && final(self).process_since_level == old(self).process_since_level
                    && final(self).use_tree_since == old(self).use_tree_since,
                Err(e) => r == Err::<(), ErrorLogParse>(e) && *final(self) == *old(self),
            },
    {
        let mut st = CtxState {
            off,
            nodes: Vec::with_capacity(64),
            groups: Vec::with_capacity(8),
            prev: PrevElement::Whatever,
            ctx_size: 0,
            has_errors: false,
        };
        while st.off < src.len()
            invariant
                st.ctx_size <= st.off <= src@.len(),
                ctx_run(src@, st.model()) == ctx_run(src@, ctx_start(off as int)),
            decreases src@.len() - st.off,
        {
            let ghost before = st.model();
            let r = ctx_step_exec(src, &mut st);
            match r {
                Err(e) => {
                    return Err(e);
                },
                Ok(()) => {},
            }
            proof {
                lemma_step_advances(src@, before);
            }
        }
        mark_as_last(&mut st.nodes, st.prev);
        self.ctx.reset();
        self.ctx.ctrl = st.nodes;
        self.group_stack = st.groups;
        self.ctx_size = st.ctx_size;
        self.has_errors = st.has_errors;
        self.group_depth = self.ctx.stack.len();
        Ok(())
    }

    /// Reads a record (without its framing): version, time, level, location, message
    /// and context. A record below the level of interest is read up to its level only.
    pub fn parse_log_record(&mut self, src: &[u8]) -> (r: Result<(), ErrorLogParse>)
        ensures
            match record_spec(src@, old(self).process_since_level) {
                Ok(m) => r is Ok && parser_after(*old(self), *final(self), m),
                Err(e) => r == Err::<(), ErrorLogParse>(e) && *final(self) == *old(self),
            },
    {
        if src.len() < 2 {
            return Err(ErrorLogParse::RecordTruncated);
        }
        let version = read_le(src, 0, 2);
        if version != 1 {
            return Err(ErrorLogParse::RecordVersionNotSupported(version as u16));
        }
        if src.len() < 11 {
            return Err(ErrorLogParse::RecordTruncated);
        }
        let time = read_le(src, 2, 8);
        let level = src[10];
        if level < self.process_since_level {
            self.time = time;
            self.level = level;
            return Ok(());
        }
        let mut off: usize = 11;
        if src.len() <= 11 {
            return Err(ErrorLogParse::RecordTruncated);
        }
        let location = if src[off] == 0 {
            off += 1;
            None
        } else {
            match read_str(src, off) {
                None => {
                    return Err(ErrorLogParse::RecordTruncated);
                },
                Some((start, end)) => match read_uvarint_checked(src, end) {
                    None => {
                        return Err(ErrorLogParse::RecordTruncated);
                    },
                    Some((line, n)) => {
                        off = end + n;
                        Some((end - start, start, line as usize))
                    },
                },
            }
        };
        let (mstart, mend) = match read_str(src, off) {
            None => {
                return Err(ErrorLogParse::RecordTruncated);
            },
            Some(x) => x,
        };
        let r = self.parse_ctx(src, mend);
        match r {
            Err(e) => {
                return Err(e);
            },
            Ok(()) => {},
        }
        self.time = time;
        self.level = level;
        self.location = location;
        self.msg = (mend - mstart, mstart);
        Ok(())
    }

    /// Parses input source as a log record and returns the record data stripped of
    /// its header, and the data after the record.
    pub fn parse_log_data<'a>(&mut self, src: &'a [u8]) -> (r: Result<(&'a [u8], &'a [u8]), ErrorLogParse>)
        ensures
            match header_spec(src@, old(self).max_log_size) {
                Err(e) => r == Err::<(&[u8], &[u8]), ErrorLogParse>(e) && *final(self) == *old(self),
                Ok((start, end)) => match record_spec(src@.subrange(start, end), old(self).process_since_level) {
                    Err(e) => r == Err::<(&[u8], &[u8]), ErrorLogParse>(e) && *final(self) == *old(self),
                    Ok(m) => r matches Ok((record, rest))
                        && record@ == src@.subrange(start, end)
                        && rest@ == src@.subrange(end, src@.len() as int)
                        && parser_after(*old(self), *final(self), m),
                },
            },
    {
        let (record, rest) = match log_parse_header(src, self.max_log_size) {
            Ok(x) => x,
            Err(e) => {
                return Err(e);
            },
        };
        let r = self.parse_log_record(record);
        match r {
            Err(e) => Err(e),
            Ok(()) => Ok((record, rest)),
        }
    }

    /// Number of nodes built so far.
    pub fn ctrl_len(&self) -> (n: u32)
        ensures
            n == self.ctx.ctrl@.len() as u32,
    {
        self.ctx.ctrl.len() as u32
    }
}

} // verus!
