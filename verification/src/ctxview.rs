//! The linked form of the context structure: nodes that point at their next sibling
//! and at their first child, by byte position in a node array of 32-byte nodes.
use vstd::prelude::*;
use crate::itoa2::decimal;
use crate::log_parse::{read_uvarint_checked, uvarint_at};
use crate::log_parser_parse::{hi32, hi32_of, key_at, lo32, lo32_of, read_key, sign_extend8};
use crate::pointer_ext::{append, append_str, le_at, lit, read_le};
use crate::value_kind::{value_kind_of, ValueKind};

pub use crate::log_parse::read_uvarint;

verus! {

/// The kind of a [Node]. Codes are split into three regions: 0…63 values,
/// 64…127 slices, 128…255 hierarchy roots.
#[derive(Debug, Clone, Copy, PartialEq, Eq, Structural)]
pub enum NodeKind {
    Bool,
    Time,
    Dur,
    Int,
    I8,
    I16,
    I32,
    I64,
    Uint,
    U8,
    U16,
    U32,
    U64,
    F32,
    F64,
    Str,
    Bytes,
    ErrTxt,
    ErrTxtFragment,
    ErrLoc,
    Bools,
    Ints,
    I8s,
    I16s,
    I32s,
    I64s,
    Uints,
    U8s,
    U16s,
    U32s,
    U64s,
    F32s,
    F64s,
    Strs,
    Group,
    Error,
    ErrorStageNew,
    ErrorStageWrap,
    ErrorStageCtx,
}

/// Whether a node kind is a hierarchy root (code 128 or more).
pub open spec fn is_root(k: NodeKind) -> bool {
    match k {
        NodeKind::Group | NodeKind::Error | NodeKind::ErrorStageNew | NodeKind::ErrorStageWrap
        | NodeKind::ErrorStageCtx => true,
        _ => false,
    }
}

/// The name of each node kind in dumps.
pub open spec fn kind_name(k: NodeKind) -> &'static str {
    match k {
        NodeKind::Bool => "bool",
        NodeKind::Time => "time",
        NodeKind::Dur => "dur",
        NodeKind::Int => "int",
        NodeKind::I8 => "i8",
        NodeKind::I16 => "i16",
        NodeKind::I32 => "i32",
        NodeKind::I64 => "i64",
        NodeKind::Uint => "uint",
        NodeKind::U8 => "u8",
        NodeKind::U16 => "u16",
        NodeKind::U32 => "u32",
        NodeKind::U64 => "u64",
        NodeKind::F32 => "f32",
        NodeKind::F64 => "f64",
        NodeKind::Str => "str",
        NodeKind::Bytes => "bytes",
        NodeKind::ErrTxt => "error:Text",
        NodeKind::ErrTxtFragment => "error:TextFragment",
        NodeKind::ErrLoc => "error:Loc",
        NodeKind::Bools => "bools",
        NodeKind::Ints => "ints",
        NodeKind::I8s => "i8s",
        NodeKind::I16s => "i16s",
        NodeKind::I32s => "i32s",
        NodeKind::I64s => "i64s",
        NodeKind::Uints => "uints",
        NodeKind::U8s => "u8s",
        NodeKind::U16s => "u16s",
        NodeKind::U32s => "u32s",
        NodeKind::U64s => "u64s",
        NodeKind::F32s => "f32s",
        NodeKind::F64s => "f64s",
        NodeKind::Strs => "strs",
        NodeKind::Group => "group",
        NodeKind::Error => "error",
        NodeKind::ErrorStageNew => "error:New",
        NodeKind::ErrorStageWrap => "error:Wrap",
        NodeKind::ErrorStageCtx => "error:Ctx",
    }
}

impl NodeKind {
    /// Whether the kind is a hierarchy root.
    pub fn is_root(&self) -> (b: bool)
        ensures
            b == is_root(*self),
    {
        match self {
            NodeKind::Group | NodeKind::Error | NodeKind::ErrorStageNew | NodeKind::ErrorStageWrap
            | NodeKind::ErrorStageCtx => true,
            _ => false,
        }
    }

    /// The name of the kind in dumps.
    pub fn string(&self) -> (s: &'static str)
        ensures
            s == kind_name(*self),
    {
        match self {
            NodeKind::Bool => "bool",
            NodeKind::Time => "time",
            NodeKind::Dur => "dur",
            NodeKind::Int => "int",
            NodeKind::I8 => "i8",
            NodeKind::I16 => "i16",
            NodeKind::I32 => "i32",
            NodeKind::I64 => "i64",
            NodeKind::Uint => "uint",
            NodeKind::U8 => "u8",
            NodeKind::U16 => "u16",
            NodeKind::U32 => "u32",
            NodeKind::U64 => "u64",
            NodeKind::F32 => "f32",
            NodeKind::F64 => "f64",
            NodeKind::Str => "str",
            NodeKind::Bytes => "bytes",
            NodeKind::ErrTxt => "error:Text",
            NodeKind::ErrTxtFragment => "error:TextFragment",
            NodeKind::ErrLoc => "error:Loc",
            NodeKind::Bools => "bools",
            NodeKind::Ints => "ints",
            NodeKind::I8s => "i8s",
            NodeKind::I16s => "i16s",
            NodeKind::I32s => "i32s",
            NodeKind::I64s => "i64s",
            NodeKind::Uints => "uints",
            NodeKind::U8s => "u8s",
            NodeKind::U16s => "u16s",
            NodeKind::U32s => "u32s",
            NodeKind::U64s => "u64s",
            NodeKind::F32s => "f32s",
            NodeKind::F64s => "f64s",
            NodeKind::Strs => "strs",
            NodeKind::Group => "group",
            NodeKind::Error => "error",
            NodeKind::ErrorStageNew => "error:New",
            NodeKind::ErrorStageWrap => "error:Wrap",
            NodeKind::ErrorStageCtx => "error:Ctx",
        }
    }
}

/// A node of the linked context structure: its kind, the byte positions of its
/// next sibling and of its first child (0 for none; `u32::MAX` for a root whose
/// group turned out empty), and the positions of its key and value.
#[derive(Debug, Clone, Copy, PartialEq, Eq, Structural)]
pub struct Node {
    pub kind: NodeKind,
    pub next: u32,
    pub child: u32,
    pub key_len: u32,
    pub key_off: u32,
    pub val_len: u32,
    pub val_off: u32,
}

/// The byte size of a node in the node array.
pub const NODE_SIZE: usize = 32;

/// A finished context structure: the nodes in building order.
pub struct Tree<'a> {
    pub ctrl: &'a [Node],
    pub tree: bool,
}

/// The builder of the linked context structure.
pub struct TreeBuilder {
    pub ctrl: Vec<Node>,
    pub stack: Vec<usize>,
    pub last: isize,
    pub off: usize,
}

/// The abstract state of a builder.
#[verifier::ext_equal]
pub ghost struct BuildState {
    pub nodes: Seq<Node>,
    pub stack: Seq<usize>,
    pub last: int,
    pub off: int,
}

/// Whether `p` is the byte position of one of the nodes.
pub open spec fn valid_pos(nodes: Seq<Node>, p: int) -> bool {
    0 <= p && p % 32 == 0 && p / 32 < nodes.len()
}

/// The builder invariant: the next position follows the nodes, the last node is
/// a node (or there is none), and the group stack holds positions of nodes (or the
/// marker for none).
pub open spec fn build_wf(b: BuildState) -> bool {
    &&& b.off == 32 * b.nodes.len()
    &&& b.off <= isize::MAX
    &&& (b.last == -1 || valid_pos(b.nodes, b.last))
    &&& forall|i: int| 0 <= i < b.stack.len() ==> (b.stack[i] == usize::MAX || valid_pos(b.nodes, b.stack[i] as int))
}

/// A fresh node, linked to nothing yet.
pub open spec fn fresh_node(kind: NodeKind, key_len: u32, key_off: u32, val_len: u32, val_off: u32) -> Node {
    Node { kind, next: 0, child: 0, key_len, key_off, val_len, val_off }
}

/// Adding a node: it goes at the next position and becomes the first child of the
/// last node if that is a root still without a child, else its next sibling.
pub open spec fn add_spec(b: BuildState, n: Node) -> BuildState {
    if b.last < 0 {
        BuildState { nodes: b.nodes.push(n), last: b.off, off: b.off + 32, ..b }
    } else {
        let i = b.last / 32;
        let prev = b.nodes[i];
        let prev2 = if is_root(prev.kind) && prev.child == 0 {
            Node { child: b.off as u32, ..prev }
        } else {
            Node { next: b.off as u32, ..prev }
        };
        BuildState { nodes: b.nodes.update(i, prev2).push(n), last: b.off, off: b.off + 32, ..b }
    }
}

/// Leaving a group: the last node becomes the root that opened it; a root whose
/// group holds nothing is marked as such.
pub open spec fn leave_spec(b: BuildState) -> BuildState {
    let p = b.stack.last();
    let root = if p == usize::MAX { -1 } else { p as int };
    let nodes = if b.last == root && root >= 0 {
        b.nodes.update(root / 32, Node { child: u32::MAX, ..b.nodes[root / 32] })
    } else {
        b.nodes
    };
    BuildState { nodes, stack: b.stack.drop_last(), last: root, ..b }
}

impl TreeBuilder {
    /// The abstract state of the builder.
    pub open spec fn view_state(&self) -> BuildState {
        BuildState { nodes: self.ctrl@, stack: self.stack@, last: self.last as int, off: self.off as int }
    }

    /// An empty builder.
    pub fn new() -> (b: Self)
        ensures
            b.view_state() == (BuildState { nodes: Seq::empty(), stack: Seq::empty(), last: -1, off: 0 }),
            build_wf(b.view_state()),
    {
        TreeBuilder { ctrl: Vec::with_capacity(128), stack: Vec::with_capacity(16), last: -1, off: 0 }
    }

    /// Empties the builder for further reuse.
    pub fn reset(&mut self)
        ensures
            final(self).view_state() == (BuildState { nodes: Seq::empty(), stack: Seq::empty(), last: -1, off: 0 }),
            build_wf(final(self).view_state()),
    {
        self.ctrl.clear();
        self.stack.clear();
        self.last = -1;
        self.off = 0;
    }

    /// Adds a node with the given kind and positions.
    pub fn add(&mut self, kind: NodeKind, key_len: u32, key_off: u32, val_len: u32, val_off: u32)
        requires
            build_wf(old(self).view_state()),
            old(self).off + 32 <= isize::MAX,
        ensures
            final(self).view_state() == add_spec(old(self).view_state(), fresh_node(kind, key_len, key_off, val_len, val_off)),
            build_wf(final(self).view_state()),
    {
        let pos = self.off;
        if self.last >= 0 {
            let i = (self.last as usize) / 32;
            let mut prev = self.ctrl[i];
            if prev.kind.is_root() && prev.child == 0 {
                prev.child = pos as u32;
            } else {
                prev.next = pos as u32;
            }
            self.ctrl.set(i, prev);
        }
        self.ctrl.push(Node { kind, next: 0, child: 0, key_len, key_off, val_len, val_off });
        self.last = pos as isize;
        self.off = pos + 32;
        proof {
            let b = self.view_state();
            let b0 = old(self).view_state();
            assert(b.nodes.len() == b0.nodes.len() + 1);
            assert forall|k: int| 0 <= k < b.stack.len() implies (b.stack[k] == usize::MAX || valid_pos(b.nodes, b.stack[k] as int)) by {
                assert(b0.stack[k] == b.stack[k]);
                if b0.stack[k] != usize::MAX {
                    assert(valid_pos(b0.nodes, b0.stack[k] as int));
                }
            }
        }
    }

    /// Starts a group after a root node: the last node goes on the group stack.
    pub fn enter_group(&mut self)
        requires
            build_wf(old(self).view_state()),
        ensures
            final(self).view_state() == (BuildState {
                stack: old(self).stack@.push(if old(self).last < 0 { usize::MAX } else { old(self).last as usize }),
                ..old(self).view_state()
            }),
            build_wf(final(self).view_state()),
    {
        let top: usize = if self.last < 0 { usize::MAX } else { self.last as usize };
        self.stack.push(top);
        proof {
            let b = self.view_state();
            let b0 = old(self).view_state();
            assert forall|k: int| 0 <= k < b.stack.len() implies (b.stack[k] == usize::MAX || valid_pos(b.nodes, b.stack[k] as int)) by {
                if k < b0.stack.len() {
                    assert(b0.stack[k] == b.stack[k]);
                }
            }
        }
    }

    /// Ends the group that the last [TreeBuilder::enter_group] started.
    pub fn leave_group(&mut self)
        requires
            build_wf(old(self).view_state()),
            old(self).stack@.len() > 0,
        ensures
            final(self).view_state() == leave_spec(old(self).view_state()),
            build_wf(final(self).view_state()),
    {
        let last = self.last;
        let ghost b0 = self.view_state();
        proof {
            assert(b0.stack[b0.stack.len() - 1] == b0.stack.last());
        }
        let p = self.stack.pop().unwrap();
        let root: isize = if p == usize::MAX { -1 } else { p as isize };
        self.last = root;
        if last == root && root >= 0 {
            let i = (root as usize) / 32;
            let mut n = self.ctrl[i];
            n.child = u32::MAX;
            self.ctrl.set(i, n);
        }
        proof {
            let b = self.view_state();
            assert forall|k: int| 0 <= k < b.stack.len() implies (b.stack[k] == usize::MAX || valid_pos(b.nodes, b.stack[k] as int)) by {
                assert(b0.stack[k] == b.stack[k]);
            }
        }
    }

    /// The finished structure: the nodes added so far.
    pub fn finish<'a>(&'a self) -> (t: Tree<'a>)
        ensures
            t.ctrl@ == self.ctrl@,
            t.tree,
    {
        Tree { ctrl: self.ctrl.as_slice(), tree: true }
    }
}



/// Entering a group and leaving it again with nothing added marks the root as
/// having an empty group and leaves everything else as it was.
pub proof fn law_enter_leave_empty_group(b: BuildState)
    requires
        build_wf(b),
        b.last >= 0,
    ensures
        ({
            let entered = BuildState { stack: b.stack.push(b.last as usize), ..b };
            leave_spec(entered) == (BuildState {
                nodes: b.nodes.update(b.last / 32, Node { child: u32::MAX, ..b.nodes[b.last / 32] }),
                ..b
            })
        }),
{
    let entered = BuildState { stack: b.stack.push(b.last as usize), ..b };
    assert(entered.stack.last() == b.last as usize);
    assert(entered.stack.drop_last() =~= b.stack);
}

/// A node added right after a root that has no child yet becomes that root's
/// first child; after any other node it becomes that node's next sibling.
pub proof fn law_add_links(b: BuildState, n: Node)
    requires
        build_wf(b),
        b.last >= 0,
    ensures
        ({
            let i = b.last / 32;
            let after = add_spec(b, n);
            &&& after.nodes.len() == b.nodes.len() + 1
            &&& after.nodes[b.nodes.len() as int] == n
            &&& after.last == b.off
            &&& if is_root(b.nodes[i].kind) && b.nodes[i].child == 0 {
                after.nodes[i].child == b.off as u32 && after.nodes[i].next == b.nodes[i].next
            } else {
                after.nodes[i].next == b.off as u32 && after.nodes[i].child == b.nodes[i].child
            }
        }),
{
}

// ---------------------------------------------------------------------------
// dumps
// ---------------------------------------------------------------------------

/// The uppercase hexadecimal digit of `d` (below 16).
pub open spec fn hex_upper_digit(d: nat) -> u8 {
    if d < 10 {
        (48 + d) as u8
    } else {
        (55 + d) as u8
    }
}

/// The uppercase hexadecimal digits of `v`, without leading zeros.
pub open spec fn hex_upper(v: nat) -> Seq<u8>
    decreases v,
{
    if v < 16 {
        seq![hex_upper_digit(v)]
    } else {
        hex_upper(v / 16) + seq![hex_upper_digit(v % 16)]
    }
}

/// `t` with zeros in front up to three bytes.
pub open spec fn zpad3(t: Seq<u8>) -> Seq<u8> {
    if t.len() >= 3 {
        t
    } else {
        Seq::new((3 - t.len()) as nat, |i: int| 48u8) + t
    }
}

/// `t` with spaces after it up to ten bytes.
pub open spec fn rpad10(t: Seq<u8>) -> Seq<u8> {
    if t.len() >= 10 {
        t
    } else {
        t + Seq::new((10 - t.len()) as nat, |i: int| 32u8)
    }
}

/// The first half of a dump line: position, kind and links.
pub open spec fn dump_line_head(pos: nat, n: Node) -> Seq<u8> {
    zpad3(hex_upper(pos)) + seq![32u8] + rpad10(lit(kind_name(n.kind))) + lit(" next[") + zpad3(hex_upper(n.next as nat))
        + lit("] child[") + zpad3(hex_upper(n.child as nat))
}

/// The second half of a dump line: key and value positions.
pub open spec fn dump_line_tail(n: Node) -> Seq<u8> {
    lit("] key.len[") + zpad3(decimal(n.key_len as nat)) + lit("] key.off[") + zpad3(decimal(n.key_off as nat))
        + lit("] val[") + zpad3(decimal(n.val_len as nat)) + lit("] val.off[") + zpad3(decimal(n.val_off as nat))
        + lit("]\n")
}

/// The dump line of the node at byte position `pos`.
#[verifier::opaque]
pub open spec fn dump_line(pos: nat, n: Node) -> Seq<u8> {
    dump_line_head(pos, n) + dump_line_tail(n)
}

/// The dump from the node at `pos` on, depth first, with `stack` holding the roots
/// to return to; at most `fuel` lines.
pub open spec fn dump_from(nodes: Seq<Node>, pos: int, stack: Seq<usize>, fuel: nat) -> Seq<u8>
    decreases fuel, 0nat,
{
    if fuel == 0 || !valid_pos(nodes, pos) {
        Seq::empty()
    } else {
        let n = nodes[pos / 32];
        dump_line(pos as nat, n) + if is_root(n.kind) && n.child != u32::MAX {
            dump_from(nodes, n.child as int, stack.push(pos as usize), (fuel - 1) as nat)
        } else {
            dump_climb(nodes, n, stack, (fuel - 1) as nat)
        }
    }
}

/// The dump after the node `n`: its next sibling, or that of the innermost root
/// on the stack that has one.
pub open spec fn dump_climb(nodes: Seq<Node>, n: Node, stack: Seq<usize>, fuel: nat) -> Seq<u8>
    decreases fuel, stack.len() + 1,
{
    if n.next != 0 {
        dump_from(nodes, n.next as int, stack, fuel)
    } else if stack.len() == 0 {
        Seq::empty()
    } else {
        let p = stack.last() as int;
        if valid_pos(nodes, p) {
            dump_climb(nodes, nodes[p / 32], stack.drop_last(), fuel)
        } else {
            Seq::empty()
        }
    }
}

/// The dump of a node list: one line per node in depth-first order, or `empty`.
pub open spec fn dump_text(nodes: Seq<Node>) -> Seq<u8> {
    if nodes.len() == 0 {
        lit("empty\n")
    } else {
        dump_from(nodes, 0, Seq::empty(), nodes.len())
    }
}

fn append_hex_upper(dst: &mut Vec<u8>, v: u64)
    ensures
        final(dst)@ == old(dst)@ + hex_upper(v as nat),
    decreases v,
{
    if v >= 16 {
        append_hex_upper(dst, v / 16);
    }
    let d: u64 = v % 16;
    if d < 10 {
        dst.push((48 + d) as u8);
    } else {
        dst.push((55 + d) as u8);
    }
}

fn append_zpad3(dst: &mut Vec<u8>, t: &Vec<u8>)
    ensures
        final(dst)@ == old(dst)@ + zpad3(t@),
{
    let mut k: usize = t.len();
    let ghost d0 = dst@;
    while k < 3
        invariant
            t@.len() <= k <= 3 || (k == t@.len() && k >= 3),
            dst@ == d0 + Seq::new((k - t@.len()) as nat, |i: int| 48u8),
        decreases 3 - k,
    {
        dst.push(48);
        k += 1;
        assert(dst@ =~= d0 + Seq::new((k - t@.len()) as nat, |i: int| 48u8));
    }
    append(dst, t.as_slice());
    if t.len() >= 3 {
        assert(dst@ =~= d0 + t@);
    }
}

fn append_rpad10(dst: &mut Vec<u8>, s: &str)
    ensures
        final(dst)@ == old(dst)@ + rpad10(lit(s)),
{
    let ghost d0 = dst@;
    append_str(dst, s);
    let n = s.as_bytes().len();
    let mut k: usize = n;
    while k < 10
        invariant
            n == lit(s).len(),
            n <= k <= 10 || (k == n && k >= 10),
            dst@ == d0 + lit(s) + Seq::new((k - n) as nat, |i: int| 32u8),
        decreases 10 - k,
    {
        dst.push(32);
        k += 1;
        assert(dst@ =~= d0 + lit(s) + Seq::new((k - n) as nat, |i: int| 32u8));
    }
    if n >= 10 {
        assert(dst@ =~= d0 + lit(s));
    }
}

fn append_hex3(dst: &mut Vec<u8>, v: u64)
    ensures
        final(dst)@ == old(dst)@ + zpad3(hex_upper(v as nat)),
{
    let mut t: Vec<u8> = Vec::new();
    append_hex_upper(&mut t, v);
    assert(t@ =~= hex_upper(v as nat));
    append_zpad3(dst, &t);
}

fn append_dec3(dst: &mut Vec<u8>, v: u64)
    ensures
        final(dst)@ == old(dst)@ + zpad3(decimal(v as nat)),
{
    let t = crate::itoa2::utoa(v);
    append_zpad3(dst, &t);
}

fn write_dump_line_head(dst: &mut Vec<u8>, pos: usize, n: Node)
    ensures
        final(dst)@ == old(dst)@ + dump_line_head(pos as nat, n),
{
    let ghost d0 = dst@;
    append_hex3(dst, pos as u64);
    dst.push(32);
    let ghost d1 = dst@;
    assert(d1 =~= d0 + (zpad3(hex_upper(pos as nat)) + seq![32u8]));
    append_rpad10(dst, n.kind.string());
    append_str(dst, " next[");
    append_hex3(dst, n.next as u64);
    let ghost d2 = dst@;
    assert(d2 =~= d0 + (zpad3(hex_upper(pos as nat)) + seq![32u8] + rpad10(lit(kind_name(n.kind))) + lit(" next[")
        + zpad3(hex_upper(n.next as nat))));
    append_str(dst, "] child[");
    append_hex3(dst, n.child as u64);
    assert(dst@ =~= d0 + dump_line_head(pos as nat, n));
}

fn write_dump_line_tail(dst: &mut Vec<u8>, n: Node)
    ensures
        final(dst)@ == old(dst)@ + dump_line_tail(n),
{
    let ghost d0 = dst@;
    append_str(dst, "] key.len[");
    append_dec3(dst, n.key_len as u64);
    append_str(dst, "] key.off[");
    append_dec3(dst, n.key_off as u64);
    let ghost d1 = dst@;
    assert(d1 =~= d0 + (lit("] key.len[") + zpad3(decimal(n.key_len as nat)) + lit("] key.off[")
        + zpad3(decimal(n.key_off as nat))));
    append_str(dst, "] val[");
    append_dec3(dst, n.val_len as u64);
    append_str(dst, "] val.off[");
    append_dec3(dst, n.val_off as u64);
    append_str(dst, "]\n");
    assert(dst@ =~= d0 + dump_line_tail(n));
}

/// Writes the dump line of node `n` at byte position `pos`.
fn write_dump_line(dst: &mut Vec<u8>, pos: usize, n: Node)
    ensures
        final(dst)@ == old(dst)@ + dump_line(pos as nat, n),
{
    reveal(dump_line);
    let ghost d0 = dst@;
    write_dump_line_head(dst, pos, n);
    write_dump_line_tail(dst, n);
    assert(dst@ =~= d0 + dump_line(pos as nat, n));
}

/// Climbs from the node `n` to the next node of the dump: its next sibling, or
/// that of the innermost root on `stack` that has one (`None` when there is none).
fn climb(nodes: &Vec<Node>, stack: &mut Vec<usize>, n: Node, Ghost(fuel): Ghost<nat>) -> (r: Option<usize>)
    ensures
        match r {
            Some(p) => dump_climb(nodes@, n, old(stack)@, fuel) == dump_from(nodes@, p as int, final(stack)@, fuel),
            None => dump_climb(nodes@, n, old(stack)@, fuel) == Seq::<u8>::empty(),
        },
{
    let mut cur = n;
    loop
        invariant
            dump_climb(nodes@, cur, stack@, fuel) == dump_climb(nodes@, n, old(stack)@, fuel),
        decreases stack@.len(),
    {
        if cur.next != 0 {
            return Some(cur.next as usize);
        }
        if stack.len() == 0 {
            return None;
        }
        let p = stack.pop().unwrap();
        if !is_valid_pos(nodes, p) {
            return None;
        }
        cur = nodes[p / 32];
    }
}

fn is_valid_pos(nodes: &Vec<Node>, p: usize) -> (b: bool)
    ensures
        b == valid_pos(nodes@, p as int),
{
    p % 32 == 0 && p / 32 < nodes.len()
}

impl TreeBuilder {
    /// The dump of the nodes added so far: one line per node, depth first, with its
    /// position, kind, links, key and value; `empty` when there is none.
    pub fn show(&self) -> (text: Vec<u8>)
        ensures
            text@ == dump_text(self.ctrl@),
    {
        let mut out: Vec<u8> = Vec::new();
        if self.ctrl.len() == 0 {
            append_str(&mut out, "empty\n");
            return out;
        }
        let ghost nodes = self.ctrl@;
        let ghost total = dump_from(nodes, 0, Seq::empty(), nodes.len());
        let mut pos: usize = 0;
        let mut stack: Vec<usize> = Vec::new();
        let mut fuel: usize = self.ctrl.len();
        loop
            invariant
                nodes == self.ctrl@,
                nodes.len() > 0,
                total == dump_text(nodes),
                out@ + dump_from(nodes, pos as int, stack@, fuel as nat) == total,
            decreases fuel,
        {
            if fuel == 0 || !is_valid_pos(&self.ctrl, pos) {
                assert(out@ + Seq::<u8>::empty() == out@);
                return out;
            }
            let n = self.ctrl[pos / 32];
            let ghost before = out@;
            let ghost rest = if is_root(n.kind) && n.child != u32::MAX {
                dump_from(nodes, n.child as int, stack@.push(pos), (fuel - 1) as nat)
            } else {
                dump_climb(nodes, n, stack@, (fuel - 1) as nat)
            };
            assert(dump_from(nodes, pos as int, stack@, fuel as nat) == dump_line(pos as nat, n) + rest);
            write_dump_line(&mut out, pos, n);
            assert(out@ + rest =~= before + (dump_line(pos as nat, n) + rest));
            fuel -= 1;
            if n.kind.is_root() && n.child != u32::MAX {
                stack.push(pos);
                pos = n.child as usize;
                assert(out@ + dump_from(nodes, pos as int, stack@, fuel as nat) == total);
                continue;
            }
            match climb(&self.ctrl, &mut stack, n, Ghost(fuel as nat)) {
                Some(next) => {
                    pos = next;
                },
                None => {
                    assert(out@ + Seq::<u8>::empty() == out@);
                    return out;
                },
            }
        }
    }
}


// ---------------------------------------------------------------------------
// building the structure from a context
// ---------------------------------------------------------------------------

/// Builds the linked context structure of a record context.
pub struct CtxParser {
    pub need_tree: bool,
    pub builder: TreeBuilder,
}

/// The state of building between two elements.
#[verifier::ext_equal]
pub ghost struct CvState {
    pub b: BuildState,
    pub off: int,
    /// Whether an error stage group is open.
    pub had: bool,
}

/// The 32-bit sign extension of a 16-bit word.
pub open spec fn sign_extend16(v: nat) -> u32 {
    if v < 0x8000 {
        v as u32
    } else {
        (v + 0xFFFF_0000) as u32
    }
}

/// The node kind and width of the fixed-width value kinds. Durations are kept as
/// times, 64-bit signed values as plain integers.
pub open spec fn cv_fixed(k: ValueKind) -> Option<(NodeKind, nat)> {
    match k {
        ValueKind::Bool => Some((NodeKind::Bool, 1nat)),
        ValueKind::Time | ValueKind::Duration => Some((NodeKind::Time, 8nat)),
        ValueKind::I64 => Some((NodeKind::Int, 8nat)),
        ValueKind::I8 => Some((NodeKind::I8, 1nat)),
        ValueKind::I16 => Some((NodeKind::I16, 2nat)),
        ValueKind::I32 => Some((NodeKind::I32, 4nat)),
        ValueKind::U8 => Some((NodeKind::U8, 1nat)),
        ValueKind::U16 => Some((NodeKind::U16, 2nat)),
        ValueKind::U32 => Some((NodeKind::U32, 4nat)),
        ValueKind::U64 => Some((NodeKind::U64, 8nat)),
        ValueKind::Float32 => Some((NodeKind::F32, 4nat)),
        ValueKind::Float64 => Some((NodeKind::F64, 8nat)),
        _ => None,
    }
}

/// The value fields of a fixed-width value `v` of kind `k` that is `w` bytes wide:
/// a 64-bit word split over both fields, a narrower one in the value offset
/// (signed 8 and 16-bit values sign-extended).
pub open spec fn cv_encode(k: ValueKind, w: nat, v: nat) -> (u32, u32) {
    if w == 8 {
        (lo32(v), hi32(v))
    } else if k == ValueKind::I8 {
        (0u32, sign_extend8(v as u8))
    } else if k == ValueKind::I16 {
        (0u32, sign_extend16(v))
    } else {
        (0u32, v as u32)
    }
}

/// The node kind and item width of the slice kinds; boolean slices are kept as a
/// plain boolean node.
pub open spec fn cv_slice(k: ValueKind) -> Option<(NodeKind, nat)> {
    match k {
        ValueKind::SliceBool => Some((NodeKind::Bool, 1nat)),
        ValueKind::SliceI8 => Some((NodeKind::I8s, 1nat)),
        ValueKind::SliceI16 => Some((NodeKind::I16s, 2nat)),
        ValueKind::SliceI32 => Some((NodeKind::I32s, 4nat)),
        ValueKind::SliceI64 => Some((NodeKind::I64s, 8nat)),
        ValueKind::SliceU8 => Some((NodeKind::U8s, 1nat)),
        ValueKind::SliceU16 => Some((NodeKind::U16s, 2nat)),
        ValueKind::SliceU32 => Some((NodeKind::U32s, 4nat)),
        ValueKind::SliceU64 => Some((NodeKind::U64s, 8nat)),
        ValueKind::SliceF32 => Some((NodeKind::F32s, 4nat)),
        ValueKind::SliceF64 => Some((NodeKind::F64s, 8nat)),
        ValueKind::String => Some((NodeKind::Str, 1nat)),
        ValueKind::Bytes => Some((NodeKind::Bytes, 1nat)),
        _ => None,
    }
}

/// `v`, but no more than `m`.
pub open spec fn at_most(v: int, m: int) -> int {
    if v > m { m } else { v }
}

/// Closes the error stage group that is open, if any; a stage group is open after.
pub open spec fn cv_leave(st: CvState) -> CvState {
    CvState { b: if st.had { leave_spec(st.b) } else { st.b }, had: true, ..st }
}

/// A stage root: the open stage group closed, the root added and a group opened.
pub open spec fn cv_stage(st: CvState, kind: NodeKind, kl: u32, ko: u32, vl: u32, vo: u32, off: int) -> CvState {
    let st1 = cv_leave(st);
    let b2 = add_spec(st1.b, fresh_node(kind, kl, ko, vl, vo));
    CvState { b: BuildState { stack: b2.stack.push(b2.last as usize), ..b2 }, off, ..st1 }
}

/// The state with a node added and the offset moved to `off`.
pub open spec fn cv_add(st: CvState, n: Node, off: int) -> CvState {
    CvState { b: add_spec(st.b, n), off, ..st }
}

/// An element with a key, its value starting at `o2`; `None` when it runs short.
pub open spec fn cv_keyed(s: Seq<u8>, st: CvState, k: ValueKind, kl: u32, ko: u32, o2: int) -> Option<CvState> {
    let len = s.len() as int;
    if let Some((nk, w)) = cv_fixed(k) {
        if o2 + w <= len {
            let (vl, vo) = cv_encode(k, w, le_at(s, o2, w));
            Some(cv_add(st, fresh_node(nk, kl, ko, vl, vo), o2 + w))
        } else {
            None
        }
    } else if let Some((nk, w)) = cv_slice(k) {
        match uvarint_at(s, o2) {
            Some((count, n)) => Some(cv_add(st, fresh_node(nk, kl, ko, count as u32, (o2 + n) as u32), at_most(o2 + n + count * w, len))),
            None => None,
        }
    } else {
        match k {
            ValueKind::NewNode | ValueKind::WrapNode => match uvarint_at(s, o2) {
                Some((l, n)) => Some(cv_stage(st, if k == ValueKind::NewNode { NodeKind::ErrorStageNew } else { NodeKind::ErrorStageWrap },
                    kl, ko, l as u32, (o2 + n) as u32, at_most(o2 + n + l, len))),
                None => None,
            },
            ValueKind::LocationNode => match uvarint_at(s, o2) {
                Some((line, n)) => Some(cv_add(st, fresh_node(NodeKind::ErrLoc, kl, ko, 0, line as u32), o2 + n)),
                None => None,
            },
            ValueKind::ForeignErrorText => Some(cv_add(st, fresh_node(NodeKind::ErrTxtFragment, kl, ko, 0, 0), o2)),
            _ => Some(CvState { off: o2, ..st }),
        }
    }
}

/// One element of the context from `st.off`; `None` stops the building.
pub open spec fn cv_step(s: Seq<u8>, st: CvState) -> Option<CvState> {
    let b = s[st.off];
    let off = st.off + 1;
    match value_kind_of(b) {
        Some(ValueKind::JustContextNode) => Some(cv_stage(st, NodeKind::ErrorStageCtx, 0, 0, 0, 0, off)),
        Some(ValueKind::PhantomContextNode) => Some(CvState { off, ..st }),
        Some(k) => match key_at(s, off) {
            Some((kl, ko, o2)) => cv_keyed(s, st, k, kl, ko, o2),
            None => None,
        },
        None => match key_at(s, off) {
            Some((_kl, _ko, o2)) => Some(CvState { off: o2, ..st }),
            None => None,
        },
    }
}

/// The building from `st.off` to the end of the context.
pub open spec fn cv_run(s: Seq<u8>, st: CvState) -> CvState
    decreases s.len() - st.off,
{
    if st.off >= s.len() || st.off < 0 {
        st
    } else {
        match cv_step(s, st) {
            None => st,
            Some(next) => if st.off < next.off <= s.len() { cv_run(s, next) } else { next },
        }
    }
}

/// The structure that building from a context gives.
pub open spec fn ctx_structure(s: Seq<u8>) -> BuildState {
    cv_run(s, CvState { b: BuildState { nodes: Seq::empty(), stack: Seq::empty(), last: -1, off: 0 }, off: 0, had: false }).b
}


/// The building state that a parser, an offset and the stage flag make.
pub open spec fn cvstate(p: CtxParser, off: int, had: bool) -> CvState {
    CvState { b: p.builder.view_state(), off, had }
}

/// The parser invariant: a well-formed builder, an open stage group on its stack
/// when there is one, and room for one more node per byte of `len`.
pub open spec fn cv_wf(b: BuildState, had: bool, off: int, len: int) -> bool {
    &&& build_wf(b)
    &&& (had ==> b.stack.len() > 0)
    &&& b.nodes.len() <= off
    &&& 32 * (len + 1) <= isize::MAX
}

impl CtxParser {
    /// A parser with an empty structure.
    pub fn new() -> (p: Self)
        ensures
            !p.need_tree,
            p.builder.view_state() == (BuildState { nodes: Seq::empty(), stack: Seq::empty(), last: -1, off: 0 }),
    {
        CtxParser { need_tree: false, builder: TreeBuilder::new() }
    }

    /// Closes the error stage group that is open, if any; tells that one is open now.
    pub fn leave_stage_group_if_needed(&mut self, had_stages: bool) -> (r: bool)
        requires
            build_wf(old(self).builder.view_state()),
            had_stages ==> old(self).builder.stack@.len() > 0,
        ensures
            r,
            final(self).builder.view_state() == (if had_stages { leave_spec(old(self).builder.view_state()) } else { old(self).builder.view_state() }),
            build_wf(final(self).builder.view_state()),
            final(self).need_tree == old(self).need_tree,
    {
        if had_stages {
            self.builder.leave_group();
        }
        true
    }

    /// Adds a node for the counted value at `off` (a count, then `siz` bytes per
    /// item); gives the offset after it, no further than the end of `src`.
    pub fn slice(&mut self, src: &[u8], off: usize, nkind: NodeKind, key_len: u32, key_off: u32, siz: usize) -> (r: Option<usize>)
        requires
            build_wf(old(self).builder.view_state()),
            old(self).builder.off + 32 <= isize::MAX,
            siz <= 8,
        ensures
            match uvarint_at(src@, off as int) {
                Some((count, n)) => r matches Some(o) && o as int == at_most(off + n + count * siz, src@.len() as int)
                    && final(self).builder.view_state() == add_spec(old(self).builder.view_state(),
                        fresh_node(nkind, key_len, key_off, count as u32, (off + n) as u32)),
                None => r is None && final(self).builder.view_state() == old(self).builder.view_state(),
            },
            build_wf(final(self).builder.view_state()),
            final(self).need_tree == old(self).need_tree,
    {
        match read_uvarint_checked(src, off) {
            Some((count, n)) => {
                let start = off + n;
                self.builder.add(nkind, key_len, key_off, count as u32, start as u32);
                let room = (src.len() - start) as u64;
                if siz == 0 || count <= room / (siz as u64) {
                    proof {
                        if siz > 0 {
                            assert(count * siz <= room) by (nonlinear_arith)
                                requires count <= room / (siz as u64), siz > 0;
                        }
                    }
                    let next = start + (count as usize) * siz;
                    Some(next)
                } else {
                    proof {
                        assert(count * siz > room) by (nonlinear_arith)
                            requires count > room / (siz as u64), siz > 0;
                    }
                    Some(src.len())
                }
            },
            None => None,
        }
    }

    /// Adds a node for the length-prefixed value at `off`; gives the offset after it,
    /// no further than the end of `src`.
    pub fn varthing(&mut self, src: &[u8], off: usize, nkind: NodeKind, key_len: u32, key_off: u32) -> (r: Option<usize>)
        requires
            build_wf(old(self).builder.view_state()),
            old(self).builder.off + 32 <= isize::MAX,
        ensures
            match uvarint_at(src@, off as int) {
                Some((count, n)) => r matches Some(o) && o as int == at_most(off + n + count, src@.len() as int)
                    && final(self).builder.view_state() == add_spec(old(self).builder.view_state(),
                        fresh_node(nkind, key_len, key_off, count as u32, (off + n) as u32)),
                None => r is None && final(self).builder.view_state() == old(self).builder.view_state(),
            },
            build_wf(final(self).builder.view_state()),
            final(self).need_tree == old(self).need_tree,
    {
        self.slice(src, off, nkind, key_len, key_off, 1)
    }
}


fn cv_fixed_exec(k: ValueKind) -> (r: Option<(NodeKind, usize)>)
    ensures
        match cv_fixed(k) {
            Some((nk, w)) => r matches Some((a, b)) && a == nk && b as nat == w,
            None => r is None,
        },
{
    match k {
        ValueKind::Bool => Some((NodeKind::Bool, 1)),
        ValueKind::Time | ValueKind::Duration => Some((NodeKind::Time, 8)),
        ValueKind::I64 => Some((NodeKind::Int, 8)),
        ValueKind::I8 => Some((NodeKind::I8, 1)),
        ValueKind::I16 => Some((NodeKind::I16, 2)),
        ValueKind::I32 => Some((NodeKind::I32, 4)),
        ValueKind::U8 => Some((NodeKind::U8, 1)),
        ValueKind::U16 => Some((NodeKind::U16, 2)),
        ValueKind::U32 => Some((NodeKind::U32, 4)),
        ValueKind::U64 => Some((NodeKind::U64, 8)),
        ValueKind::Float32 => Some((NodeKind::F32, 4)),
        ValueKind::Float64 => Some((NodeKind::F64, 8)),
        _ => None,
    }
}

fn cv_slice_exec(k: ValueKind) -> (r: Option<(NodeKind, usize)>)
    ensures
        match cv_slice(k) {
            Some((nk, w)) => r matches Some((a, b)) && a == nk && b as nat == w,
            None => r is None,
        },
{
    match k {
        ValueKind::SliceBool => Some((NodeKind::Bool, 1)),
        ValueKind::SliceI8 => Some((NodeKind::I8s, 1)),
        ValueKind::SliceI16 => Some((NodeKind::I16s, 2)),
        ValueKind::SliceI32 => Some((NodeKind::I32s, 4)),
        ValueKind::SliceI64 => Some((NodeKind::I64s, 8)),
        ValueKind::SliceU8 => Some((NodeKind::U8s, 1)),
        ValueKind::SliceU16 => Some((NodeKind::U16s, 2)),
        ValueKind::SliceU32 => Some((NodeKind::U32s, 4)),
        ValueKind::SliceU64 => Some((NodeKind::U64s, 8)),
        ValueKind::SliceF32 => Some((NodeKind::F32s, 4)),
        ValueKind::SliceF64 => Some((NodeKind::F64s, 8)),
        ValueKind::String => Some((NodeKind::Str, 1)),
        ValueKind::Bytes => Some((NodeKind::Bytes, 1)),
        _ => None,
    }
}

/// The value fields of a fixed-width value.
fn cv_encode_exec(k: ValueKind, w: usize, v: u64) -> (r: (u32, u32))
    requires
        w == 1 || w == 2 || w == 4 || w == 8,
        w < 8 ==> v < 0x1_0000_0000,
        w == 1 ==> v < 0x100,
        w == 2 ==> v < 0x1_0000,
        k == ValueKind::I8 ==> w == 1,
        k == ValueKind::I16 ==> w == 2,
    ensures
        r == cv_encode(k, w as nat, v as nat),
{
    if w == 8 {
        (lo32_of(v), hi32_of(v))
    } else if k == ValueKind::I8 {
        let b = v as u8;
        let ext: u32 = if b < 128 { b as u32 } else { b as u32 + 0xFFFF_FF00 };
        (0, ext)
    } else if k == ValueKind::I16 {
        let ext: u32 = if v < 0x8000 { v as u32 } else { v as u32 + 0xFFFF_0000 };
        (0, ext)
    } else {
        (0, v as u32)
    }
}

impl CtxParser {
    /// Handles an element with a key whose value starts at `o2`.
    #[verifier::spinoff_prover]
    fn cv_keyed_exec(&mut self, src: &[u8], had: &mut bool, k: ValueKind, kl: u32, ko: u32, o2: usize) -> (r: Option<usize>)
        requires
            o2 <= src@.len(),
            cv_wf(old(self).builder.view_state(), *old(had), o2 as int, src@.len() as int),
        ensures
            match cv_keyed(src@, cvstate(*old(self), 0, *old(had)), k, kl, ko, o2 as int) {
                Some(st) => r matches Some(o) && cvstate(*final(self), o as int, *final(had)) == st,
                None => r is None,
            },
            build_wf(final(self).builder.view_state()),
            *final(had) ==> final(self).builder.stack@.len() > 0,
            final(self).builder.ctrl@.len() <= old(self).builder.ctrl@.len() + 1,
            final(self).need_tree == old(self).need_tree,
            r is None ==> final(self).builder.view_state() == old(self).builder.view_state() && *final(had) == *old(had),
    {
        match cv_fixed_exec(k) {
            Some((nk, w)) => {
                if w > src.len() - o2 {
                    return None;
                }
                let v = read_le(src, o2, w);
                proof {
                    crate::pointer_ext::lemma_le_at_bound(src@, o2 as int, w as nat);
                    reveal_with_fuel(crate::pointer_ext::p256, 9);
                }
                let (vl, vo) = cv_encode_exec(k, w, v);
                self.builder.add(nk, kl, ko, vl, vo);
                return Some(o2 + w);
            },
            None => {},
        }
        match cv_slice_exec(k) {
            Some((nk, w)) => {
                return self.slice(src, o2, nk, kl, ko, w);
            },
            None => {},
        }
        match k {
            ValueKind::NewNode | ValueKind::WrapNode => match read_uvarint_checked(src, o2) {
                Some((l, n)) => {
                    *had = self.leave_stage_group_if_needed(*had);
                    let start = o2 + n;
                    let nk = if k == ValueKind::NewNode { NodeKind::ErrorStageNew } else { NodeKind::ErrorStageWrap };
                    self.builder.add(nk, kl, ko, l as u32, start as u32);
                    self.builder.enter_group();
                    if l > (src.len() - start) as u64 {
                        Some(src.len())
                    } else {
                        Some(start + l as usize)
                    }
                },
                None => None,
            },
            ValueKind::LocationNode => match read_uvarint_checked(src, o2) {
                Some((line, n)) => {
                    self.builder.add(NodeKind::ErrLoc, kl, ko, 0, line as u32);
                    Some(o2 + n)
                },
                None => None,
            },
            ValueKind::ForeignErrorText => {
                self.builder.add(NodeKind::ErrTxtFragment, kl, ko, 0, 0);
                Some(o2)
            },
            _ => Some(o2),
        }
    }

    /// Handles one element of the context at `off`.
    #[verifier::spinoff_prover]
    fn cv_step_exec(&mut self, src: &[u8], had: &mut bool, off: usize) -> (r: Option<usize>)
        requires
            off < src@.len(),
            cv_wf(old(self).builder.view_state(), *old(had), off as int, src@.len() as int),
        ensures
            match cv_step(src@, cvstate(*old(self), off as int, *old(had))) {
                Some(st) => r matches Some(o) && cvstate(*final(self), o as int, *final(had)) == st,
                None => r is None,
            },
            build_wf(final(self).builder.view_state()),
            *final(had) ==> final(self).builder.stack@.len() > 0,
            final(self).builder.ctrl@.len() <= old(self).builder.ctrl@.len() + 1,
            final(self).need_tree == old(self).need_tree,
            r is None ==> final(self).builder.view_state() == old(self).builder.view_state() && *final(had) == *old(had),
    {
        let b = src[off];
        let off1 = off + 1;
        match ValueKind::from_code(b) {
            Some(ValueKind::JustContextNode) => {
                *had = self.leave_stage_group_if_needed(*had);
                self.builder.add(NodeKind::ErrorStageCtx, 0, 0, 0, 0);
                self.builder.enter_group();
                Some(off1)
            },
            Some(ValueKind::PhantomContextNode) => Some(off1),
            Some(k) => match read_key(src, off1) {
                Some((kl, ko, o2)) => {
                    let ghost before = cvstate(*self, 0, *had);
                    let r = self.cv_keyed_exec(src, had, k, kl, ko, o2);
                    r
                },
                None => None,
            },
            None => match read_key(src, off1) {
                Some((_kl, _ko, o2)) => Some(o2),
                None => None,
            },
        }
    }

    /// Builds the linked structure of the context `src` from scratch.
    pub fn build_struct(&mut self, src: &[u8])
        requires
            32 * (src@.len() + 1) <= isize::MAX,
        ensures
            final(self).builder.view_state() == ctx_structure(src@),
            build_wf(final(self).builder.view_state()),
            final(self).need_tree == old(self).need_tree,
    {
        self.builder.reset();
        let mut off: usize = 0;
        let mut had: bool = false;
        let ghost init = cvstate(*self, 0, false);
        loop
            invariant_except_break
                off <= src@.len(),
                cv_wf(self.builder.view_state(), had, off as int, src@.len() as int),
                cv_run(src@, cvstate(*self, off as int, had)) == cv_run(src@, init),
            invariant
                32 * (src@.len() + 1) <= isize::MAX,
                init == (CvState { b: BuildState { nodes: Seq::empty(), stack: Seq::empty(), last: -1, off: 0 }, off: 0, had: false }),
                self.need_tree == old(self).need_tree,
                build_wf(self.builder.view_state()),
            ensures
                self.builder.view_state() == cv_run(src@, init).b,
            decreases src@.len() - off,
        {
            if off >= src.len() {
                break;
            }
            match self.cv_step_exec(src, &mut had, off) {
                None => {
                    break;
                },
                Some(next) => {
                    if next <= off || next > src.len() {
                        break;
                    }
                    off = next;
                },
            }
        }
    }
}

} // verus!
