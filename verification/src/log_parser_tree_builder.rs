//! Builder of the flat context structure: a list of nodes in record order.
use vstd::prelude::*;
use crate::itoa2::{append_utoa, decimal};
use crate::log_parser_node::{node_kind_name, Node, NodeKind};
use crate::pointer_ext::{append, append_str, lit};

verus! {

/// blog context structure builder type.
pub struct TreeBuilder {
    pub ctrl: Vec<Node>,
    pub stack: Vec<usize>,
    pub last: isize,
    pub off: usize,
}

/// A node with the given kind and positions that is not (yet) marked last.
pub open spec fn mk_node(kind: NodeKind, key_len: u32, key_off: u32, val_len: u32, val_off: u32) -> Node {
    Node { kind, is_last: 0, key_len, key_off, val_len, val_off }
}

impl TreeBuilder {
    /// Constructs new [TreeBuilder] instance with preallocated data.
    pub fn new() -> (b: Self)
        ensures
            b.ctrl@ == Seq::<Node>::empty(),
            b.stack@ == Seq::<usize>::empty(),
            b.last == -1,
            b.off == 0,
    {
        TreeBuilder { ctrl: Vec::with_capacity(128), stack: Vec::with_capacity(16), last: -1, off: 0 }
    }

    /// Resets the state of builder for further reuse.
    pub fn reset(&mut self)
        ensures
            final(self).ctrl@ == Seq::<Node>::empty(),
            final(self).stack@ == Seq::<usize>::empty(),
            final(self).last == -1,
            final(self).off == 0,
    {
        self.ctrl.clear();
        self.stack.clear();
        self.last = -1;
        self.off = 0;
    }

    /// Adds a new node with given type and data.
    pub fn add(&mut self, kind: NodeKind, key_len: u32, key_off: u32, val_len: u32, val_off: u32)
        ensures
            final(self).ctrl@ == old(self).ctrl@.push(mk_node(kind, key_len, key_off, val_len, val_off)),
            final(self).stack@ == old(self).stack@,
            final(self).last == old(self).last,
            final(self).off == old(self).off,
    {
        self.ctrl.push(Node { kind, is_last: 0, key_len, key_off, val_len, val_off });
    }
}

/// The uppercase hexadecimal digit of `d` (below 16).
pub open spec fn hex_digit_upper(d: nat) -> u8 {
    if d < 10 {
        (48 + d) as u8
    } else {
        (55 + d) as u8
    }
}

/// The uppercase hexadecimal digits of `v`, without leading zeros.
pub open spec fn hex_upper(v: nat) -> Seq<u8>
    decreases v,
{
    if v < 16 {
        seq![hex_digit_upper(v)]
    } else {
        hex_upper(v / 16) + seq![hex_digit_upper(v % 16)]
    }
}

/// `s` with '0' bytes in front up to the width `w`.
pub open spec fn zero_pad(s: Seq<u8>, w: nat) -> Seq<u8> {
    if s.len() < w {
        Seq::new((w - s.len()) as nat, |i: int| 48u8) + s
    } else {
        s
    }
}

/// `s` with spaces after it up to the width `w`.
pub open spec fn space_pad(s: Seq<u8>, w: nat) -> Seq<u8> {
    if s.len() < w {
        s + Seq::new((w - s.len()) as nat, |i: int| 32u8)
    } else {
        s
    }
}

/// The dump line of node number `i`: its number in hex, its kind, whether it is the
/// last of its group, and its four positions, each to at least three digits.
pub open spec fn node_line(i: nat, n: Node) -> Seq<u8> {
    node_head(i, n.kind) + lit(" last[") + lit(if n.is_last != 0 { "true" } else { "false" })
        + node_positions(n)
}

/// The dump of a node list: one line per node, in order.
pub open spec fn nodes_dump_text(nodes: Seq<Node>) -> Seq<u8>
    decreases nodes.len(),
{
    if nodes.len() == 0 {
        Seq::empty()
    } else {
        nodes_dump_text(nodes.drop_last()) + node_line((nodes.len() - 1) as nat, nodes.last())
    }
}

fn append_hex_upper(dst: &mut Vec<u8>, v: u64)
    ensures
        final(dst)@ == old(dst)@ + hex_upper(v as nat),
    decreases v,
{
    if v >= 16 {
        append_hex_upper(dst, v / 16);
    }
    let d: u64 = v % 16;
    if d < 10 {
        dst.push(48 + d as u8);
    } else {
        dst.push(55 + d as u8);
    }
}

fn append_padded(dst: &mut Vec<u8>, s: &[u8], w: usize, fill: u8, front: bool)
    ensures
        fill == 48 && front ==> final(dst)@ == old(dst)@ + zero_pad(s@, w as nat),
        fill == 32 && !front ==> final(dst)@ == old(dst)@ + space_pad(s@, w as nat),
{
    let ghost d0 = dst@;
    if !front {
        append(dst, s);
    }
    let ghost d1 = dst@;
    let mut k: usize = s.len();
    while k < w
        invariant
            s@.len() <= k <= w || (k == s@.len() && k >= w),
            dst@ == d1 + Seq::new((k - s@.len()) as nat, |i: int| fill),
        decreases w - k,
    {
        dst.push(fill);
        k += 1;
        assert(dst@ =~= d1 + Seq::new((k - s@.len()) as nat, |i: int| fill));
    }
    let ghost d2 = dst@;
    if front {
        append(dst, s);
    }
    proof {
        if s@.len() >= w {
            assert(d2 =~= d1);
        }
        if fill == 48 && front {
            if s@.len() < w {
                assert(Seq::new((w - s@.len()) as nat, |i: int| 48u8) =~= Seq::new((k - s@.len()) as nat, |i: int| fill));
            }
            assert(dst@ =~= old(dst)@ + zero_pad(s@, w as nat));
        }
        if fill == 32 && !front {
            if s@.len() < w {
                assert(Seq::new((w - s@.len()) as nat, |i: int| 32u8) =~= Seq::new((k - s@.len()) as nat, |i: int| fill));
            }
            assert(dst@ =~= old(dst)@ + space_pad(s@, w as nat));
        }
    }
}

fn append_decimal3(dst: &mut Vec<u8>, v: u32)
    ensures
        final(dst)@ == old(dst)@ + zero_pad(decimal(v as nat), 3),
{
    let mut digits: Vec<u8> = Vec::new();
    append_utoa(&mut digits, v as u64);
    assert(digits@ =~= decimal(v as nat));
    append_padded(dst, digits.as_slice(), 3, 48, true);
}

/// The start of a dump line: the node number and the kind.
pub open spec fn node_head(i: nat, k: NodeKind) -> Seq<u8> {
    zero_pad(hex_upper(i), 3) + seq![32u8] + space_pad(lit(node_kind_name(k)), 10)
}

/// The positions part of a dump line.
pub open spec fn node_positions(n: Node) -> Seq<u8> {
    lit("] key.len[") + zero_pad(decimal(n.key_len as nat), 3)
        + lit("] key.off[") + zero_pad(decimal(n.key_off as nat), 3)
        + lit("] val[") + zero_pad(decimal(n.val_len as nat), 3)
        + lit("] val.off[") + zero_pad(decimal(n.val_off as nat), 3) + lit("]") + seq![10u8]
}

fn append_node_head(out: &mut Vec<u8>, i: usize, k: NodeKind)
    ensures
        final(out)@ == old(out)@ + node_head(i as nat, k),
{
    let mut num: Vec<u8> = Vec::new();
    append_hex_upper(&mut num, i as u64);
    append_padded(out, num.as_slice(), 3, 48, true);
    out.push(32);
    let name = k.string();
    append_padded(out, name.as_bytes(), 10, 32, false);
    assert(out@ =~= old(out)@ + node_head(i as nat, k));
}

fn append_node_positions(out: &mut Vec<u8>, n: Node)
    ensures
        final(out)@ == old(out)@ + node_positions(n),
{
    let ghost o0 = out@;
    append_str(out, "] key.len[");
    append_decimal3(out, n.key_len);
    append_str(out, "] key.off[");
    append_decimal3(out, n.key_off);
    let ghost o1 = out@;
    append_str(out, "] val[");
    append_decimal3(out, n.val_len);
    append_str(out, "] val.off[");
    append_decimal3(out, n.val_off);
    append_str(out, "]");
    out.push(10);
    assert(o1 =~= o0 + lit("] key.len[") + zero_pad(decimal(n.key_len as nat), 3)
        + lit("] key.off[") + zero_pad(decimal(n.key_off as nat), 3));
    assert(out@ =~= o0 + node_positions(n));
}

fn append_node_line(out: &mut Vec<u8>, i: usize, n: Node)
    ensures
        final(out)@ == old(out)@ + node_line(i as nat, n),
{
    append_node_head(out, i, n.kind);
    let ghost o1 = out@;
    append_str(out, " last[");
    if n.is_last != 0 {
        append_str(out, "true");
    } else {
        append_str(out, "false");
    }
    let ghost o2 = out@;
    append_node_positions(out, n);
    assert(o2 =~= o1 + lit(" last[") + lit(if n.is_last != 0 { "true" } else { "false" }));
    assert(out@ =~= old(out)@ + node_line(i as nat, n));
}

/// The dump of the node list `ctrl`: for each node, its number in hex, its kind, whether
/// it is the last of its group and its four positions.
pub fn dump_nodes(ctrl: &[Node]) -> (text: Vec<u8>)
    ensures
        text@ == nodes_dump_text(ctrl@),
{
    let mut out: Vec<u8> = Vec::new();
    let mut i: usize = 0;
    while i < ctrl.len()
        invariant
            i <= ctrl@.len(),
            out@ == nodes_dump_text(ctrl@.take(i as int)),
        decreases ctrl@.len() - i,
    {
        let n = ctrl[i];
        append_node_line(&mut out, i, n);
        proof {
            let t = ctrl@.take(i as int + 1);
            assert(t.drop_last() =~= ctrl@.take(i as int));
            assert(t.last() == n);
        }
        i += 1;
    }
    assert(ctrl@.take(i as int) =~= ctrl@);
    out
}

} // verus!
