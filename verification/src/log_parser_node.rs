//! Nodes of the flat context structure that the record parser builds.
use vstd::prelude::*;
use crate::pointer_ext::{bytes_at, lit, sub_slice};

verus! {

/// Represents the kind of a [Node]. Codes are split into three regions:
/// 0…63 values, 64…127 slices (and the group end marker), 128…255 hierarchy roots.
#[derive(Debug, Clone, Copy, PartialEq, Eq, Structural)]
pub enum NodeKind {
    Bool,
    Time,
    Dur,
    Int,
    I8,
    I16,
    I32,
    I64,
    Uint,
    U8,
    U16,
    U32,
    U64,
    F32,
    F64,
    Str,
    Bytes,
    ErrTxt,
    ErrTxtFragment,
    ErrLoc,
    ErrEmbedText,
    IVar,
    UVar,
    Bools,
    Ints,
    I8s,
    I16s,
    I32s,
    I64s,
    Uints,
    U8s,
    U16s,
    U32s,
    U64s,
    F32s,
    F64s,
    Strs,
    GroupEnd,
    Group,
    Error,
    ErrorEmbed,
    ErrorStageNew,
    ErrorStageWrap,
    ErrorStageCtx,
}

/// The numeric code of each node kind.
pub open spec fn node_kind_code(k: NodeKind) -> u32 {
    match k {
        NodeKind::Bool => 0,
        NodeKind::Time => 1,
        NodeKind::Dur => 2,
        NodeKind::Int => 3,
        NodeKind::I8 => 4,
        NodeKind::I16 => 5,
        NodeKind::I32 => 6,
        NodeKind::I64 => 7,
        NodeKind::Uint => 8,
        NodeKind::U8 => 10,
        NodeKind::U16 => 11,
        NodeKind::U32 => 12,
        NodeKind::U64 => 13,
        NodeKind::F32 => 14,
        NodeKind::F64 => 15,
        NodeKind::Str => 16,
        NodeKind::Bytes => 17,
        NodeKind::ErrTxt => 18,
        NodeKind::ErrTxtFragment => 19,
        NodeKind::ErrLoc => 20,
        NodeKind::ErrEmbedText => 21,
        NodeKind::IVar => 22,
        NodeKind::UVar => 23,
        NodeKind::Bools => 64,
        NodeKind::Ints => 65,
        NodeKind::I8s => 66,
        NodeKind::I16s => 67,
        NodeKind::I32s => 68,
        NodeKind::I64s => 69,
        NodeKind::Uints => 70,
        NodeKind::U8s => 71,
        NodeKind::U16s => 72,
        NodeKind::U32s => 73,
        NodeKind::U64s => 74,
        NodeKind::F32s => 75,
        NodeKind::F64s => 76,
        NodeKind::Strs => 77,
        NodeKind::GroupEnd => 127,
        NodeKind::Group => 128,
        NodeKind::Error => 129,
        NodeKind::ErrorEmbed => 130,
        NodeKind::ErrorStageNew => 131,
        NodeKind::ErrorStageWrap => 132,
        NodeKind::ErrorStageCtx => 133,
    }
}

/// The name under which each node kind is shown.
pub open spec fn node_kind_name(k: NodeKind) -> &'static str {
    match k {
        NodeKind::Bool => "bool",
        NodeKind::Time => "time",
        NodeKind::Dur => "dur",
        NodeKind::Int => "int",
        NodeKind::I8 => "i8",
        NodeKind::I16 => "i16",
        NodeKind::I32 => "i32",
        NodeKind::I64 => "i64",
        NodeKind::Uint => "uint",
        NodeKind::U8 => "u8",
        NodeKind::U16 => "u16",
        NodeKind::U32 => "u32",
        NodeKind::U64 => "u64",
        NodeKind::F32 => "f32",
        NodeKind::F64 => "f64",
        NodeKind::Str => "str",
        NodeKind::Bytes => "bytes",
        NodeKind::ErrTxt => "error:Text",
        NodeKind::ErrTxtFragment => "error:TextFragment",
        NodeKind::ErrLoc => "error:Loc",
        NodeKind::ErrEmbedText => "error:EmbedText",
        NodeKind::IVar => "ivar",
        NodeKind::UVar => "uvar",
        NodeKind::Bools => "bools",
        NodeKind::Ints => "ints",
        NodeKind::I8s => "i8s",
        NodeKind::I16s => "i16s",
        NodeKind::I32s => "i32s",
        NodeKind::I64s => "i64s",
        NodeKind::Uints => "uints",
        NodeKind::U8s => "u8s",
        NodeKind::U16s => "u16s",
        NodeKind::U32s => "u32s",
        NodeKind::U64s => "u64s",
        NodeKind::F32s => "f32s",
        NodeKind::F64s => "f64s",
        NodeKind::Strs => "strs",
        NodeKind::GroupEnd => "group:end",
        NodeKind::Group => "group",
        NodeKind::Error => "error",
        NodeKind::ErrorEmbed => "error:embed",
        NodeKind::ErrorStageNew => "error:New",
        NodeKind::ErrorStageWrap => "error:Wrap",
        NodeKind::ErrorStageCtx => "error:Ctx",
    }
}

/// Kinds that root a nested part of the context.
pub open spec fn spec_is_group(k: NodeKind) -> bool {
    node_kind_code(k) >= 128
}

impl NodeKind {
    /// The numeric code of the kind.
    pub fn code(&self) -> (c: u32)
        ensures
            c == node_kind_code(*self),
    {
        match self {
            NodeKind::Bool => 0,
            NodeKind::Time => 1,
            NodeKind::Dur => 2,
            NodeKind::Int => 3,
            NodeKind::I8 => 4,
            NodeKind::I16 => 5,
            NodeKind::I32 => 6,
            NodeKind::I64 => 7,
            NodeKind::Uint => 8,
            NodeKind::U8 => 10,
            NodeKind::U16 => 11,
            NodeKind::U32 => 12,
            NodeKind::U64 => 13,
            NodeKind::F32 => 14,
            NodeKind::F64 => 15,
            NodeKind::Str => 16,
            NodeKind::Bytes => 17,
            NodeKind::ErrTxt => 18,
            NodeKind::ErrTxtFragment => 19,
            NodeKind::ErrLoc => 20,
            NodeKind::ErrEmbedText => 21,
            NodeKind::IVar => 22,
            NodeKind::UVar => 23,
            NodeKind::Bools => 64,
            NodeKind::Ints => 65,
            NodeKind::I8s => 66,
            NodeKind::I16s => 67,
            NodeKind::I32s => 68,
            NodeKind::I64s => 69,
            NodeKind::Uints => 70,
            NodeKind::U8s => 71,
            NodeKind::U16s => 72,
            NodeKind::U32s => 73,
            NodeKind::U64s => 74,
            NodeKind::F32s => 75,
            NodeKind::F64s => 76,
            NodeKind::Strs => 77,
            NodeKind::GroupEnd => 127,
            NodeKind::Group => 128,
            NodeKind::Error => 129,
            NodeKind::ErrorEmbed => 130,
            NodeKind::ErrorStageNew => 131,
            NodeKind::ErrorStageWrap => 132,
            NodeKind::ErrorStageCtx => 133,
        }
    }

    /// The name under which the kind is shown.
    pub fn string(&self) -> (s: &'static str)
        ensures
            s == node_kind_name(*self),
    {
        match self {
            NodeKind::Bool => "bool",
            NodeKind::Time => "time",
            NodeKind::Dur => "dur",
            NodeKind::Int => "int",
            NodeKind::I8 => "i8",
            NodeKind::I16 => "i16",
            NodeKind::I32 => "i32",
            NodeKind::I64 => "i64",
            NodeKind::Uint => "uint",
            NodeKind::U8 => "u8",
            NodeKind::U16 => "u16",
            NodeKind::U32 => "u32",
            NodeKind::U64 => "u64",
            NodeKind::F32 => "f32",
            NodeKind::F64 => "f64",
            NodeKind::Str => "str",
            NodeKind::Bytes => "bytes",
            NodeKind::ErrTxt => "error:Text",
            NodeKind::ErrTxtFragment => "error:TextFragment",
            NodeKind::ErrLoc => "error:Loc",
            NodeKind::ErrEmbedText => "error:EmbedText",
            NodeKind::IVar => "ivar",
            NodeKind::UVar => "uvar",
            NodeKind::Bools => "bools",
            NodeKind::Ints => "ints",
            NodeKind::I8s => "i8s",
            NodeKind::I16s => "i16s",
            NodeKind::I32s => "i32s",
            NodeKind::I64s => "i64s",
            NodeKind::Uints => "uints",
            NodeKind::U8s => "u8s",
            NodeKind::U16s => "u16s",
            NodeKind::U32s => "u32s",
            NodeKind::U64s => "u64s",
            NodeKind::F32s => "f32s",
            NodeKind::F64s => "f64s",
            NodeKind::Strs => "strs",
            NodeKind::GroupEnd => "group:end",
            NodeKind::Group => "group",
            NodeKind::Error => "error",
            NodeKind::ErrorEmbed => "error:embed",
            NodeKind::ErrorStageNew => "error:New",
            NodeKind::ErrorStageWrap => "error:Wrap",
            NodeKind::ErrorStageCtx => "error:Ctx",
        }
    }

    /// Whether the kind roots a nested part of the context.
    pub fn is_group(&self) -> (b: bool)
        ensures
            b == spec_is_group(*self),
    {
        self.code() >= 128
    }
}

/// A node of the blog context structure: its kind, whether it is the last one of
/// its group, and the positions (or immediate values) of its key and value.
#[derive(Debug, Clone, Copy, PartialEq, Eq, Structural)]
pub struct Node {
    pub kind: NodeKind,
    pub is_last: u8,
    pub key_len: u32,
    pub key_off: u32,
    pub val_len: u32,
    pub val_off: u32,
}

/// The 64-bit value kept in the value fields: `val_len` low, `val_off` high.
pub open spec fn val_u64(n: Node) -> u64 {
    (n.val_len as nat + n.val_off as nat * 0x1_0000_0000) as u64
}

/// The value bytes of a node inside the record `s`.
pub open spec fn val_bytes(n: Node, s: Seq<u8>) -> Seq<u8> {
    bytes_at(s, n.val_off as int, n.val_len as int)
}

/// The key of a node whose key is not given literally.
pub open spec fn indexed_key(n: Node) -> Seq<u8> {
    if n.key_off >= 3 {
        lit("!unknown-key")
    } else {
        lit("@location")
    }
}

/// The key bytes of a node inside the record `s`, location nodes excepted.
pub open spec fn key_bytes_direct(n: Node, s: Seq<u8>) -> Seq<u8> {
    if n.key_len != 0 {
        bytes_at(s, n.key_off as int, n.key_len as int)
    } else {
        indexed_key(n)
    }
}

/// The key bytes of a node inside the record `s`; location nodes show `@location`.
pub open spec fn key_bytes(n: Node, s: Seq<u8>) -> Seq<u8> {
    if n.kind == NodeKind::ErrLoc {
        lit("@location")
    } else {
        key_bytes_direct(n, s)
    }
}

impl Node {
    /// The 64-bit value kept in the value fields.
    pub fn val_as_u64(&self) -> (v: u64)
        ensures
            v == val_u64(*self),
    {
        self.val_len as u64 + (self.val_off as u64) * 0x1_0000_0000
    }

    /// The value bytes of the node inside `src` (empty when they lie outside it).
    pub fn val_as_slice<'a>(&self, src: &'a [u8]) -> (r: &'a [u8])
        ensures
            r@ == val_bytes(*self, src@),
    {
        sub_slice(src, self.val_off as usize, self.val_len as usize)
    }

    /// The key bytes of the node inside `src`; location nodes show `@location`.
    pub fn key_as_slice<'a>(&self, src: &'a [u8]) -> (r: &'a [u8])
        ensures
            r@ == key_bytes(*self, src@),
    {
        if self.kind == NodeKind::ErrLoc {
            return "@location".as_bytes();
        }
        self.key_as_slice_direct(src)
    }

    /// The key bytes of the node inside `src`.
    pub fn key_as_slice_direct<'a>(&self, src: &'a [u8]) -> (r: &'a [u8])
        ensures
            r@ == key_bytes_direct(*self, src@),
    {
        if self.key_len != 0 {
            return sub_slice(src, self.key_off as usize, self.key_len as usize);
        }
        if self.key_off >= 3 {
            return "!unknown-key".as_bytes();
        }
        "@location".as_bytes()
    }
}


/// Whether a group root spans no element: its span (set when its group ends) is
/// one node at most.
pub open spec fn spec_group_is_empty(n: Node) -> bool {
    n.val_len <= 1
}

/// Whether the group that the root `node` opens holds no element.
pub fn group_is_empty(node: &Node) -> (b: bool)
    ensures
        b == spec_group_is_empty(*node),
{
    node.val_len <= 1
}

/// The kind whose name is `s`, told apart by the name's length and a few of its
/// characters; `None` where no kind's name matches them.
pub open spec fn node_kind_of_name(s: Seq<char>) -> Option<NodeKind> {
    if s.len() == 4 && s[0] == 'b' && s[2] == 'o' {
        Some(NodeKind::Bool)
    } else if s.len() == 4 && s[0] == 't' && s[2] == 'm' {
        Some(NodeKind::Time)
    } else if s.len() == 3 && s[0] == 'd' && s[1] == 'u' {
        Some(NodeKind::Dur)
    } else if s.len() == 3 && s[0] == 'i' && s[1] == 'n' {
        Some(NodeKind::Int)
    } else if s.len() == 2 && s[0] == 'i' && s[0] == 'i' {
        Some(NodeKind::I8)
    } else if s.len() == 3 && s[0] == 'i' && s[1] == '1' {
        Some(NodeKind::I16)
    } else if s.len() == 3 && s[0] == 'i' && s[1] == '3' {
        Some(NodeKind::I32)
    } else if s.len() == 3 && s[0] == 'i' && s[1] == '6' {
        Some(NodeKind::I64)
    } else if s.len() == 4 && s[0] == 'u' && s[2] == 'n' {
        Some(NodeKind::Uint)
    } else if s.len() == 2 && s[0] == 'u' && s[0] == 'u' {
        Some(NodeKind::U8)
    } else if s.len() == 3 && s[0] == 'u' && s[1] == '1' {
        Some(NodeKind::U16)
    } else if s.len() == 3 && s[0] == 'u' && s[1] == '3' {
        Some(NodeKind::U32)
    } else if s.len() == 3 && s[0] == 'u' && s[1] == '6' {
        Some(NodeKind::U64)
    } else if s.len() == 3 && s[0] == 'f' && s[1] == '3' {
        Some(NodeKind::F32)
    } else if s.len() == 3 && s[0] == 'f' && s[1] == '6' {
        Some(NodeKind::F64)
    } else if s.len() == 3 && s[0] == 's' && s[1] == 't' {
        Some(NodeKind::Str)
    } else if s.len() == 5 && s[0] == 'b' && s[3] == 'e' {
        Some(NodeKind::Bytes)
    } else if s.len() == 10 && s[0] == 'e' && s[8] == 'x' {
        Some(NodeKind::ErrTxt)
    } else if s.len() == 18 && s[0] == 'e' && s[16] == 'n' {
        Some(NodeKind::ErrTxtFragment)
    } else if s.len() == 9 && s[0] == 'e' && s[7] == 'o' {
        Some(NodeKind::ErrLoc)
    } else if s.len() == 15 && s[0] == 'e' && s[13] == 'x' {
        Some(NodeKind::ErrEmbedText)
    } else if s.len() == 4 && s[0] == 'i' && s[2] == 'a' {
        Some(NodeKind::IVar)
    } else if s.len() == 4 && s[0] == 'u' && s[2] == 'a' {
        Some(NodeKind::UVar)
    } else if s.len() == 5 && s[0] == 'b' && s[3] == 'l' {
        Some(NodeKind::Bools)
    } else if s.len() == 4 && s[0] == 'i' && s[2] == 't' {
        Some(NodeKind::Ints)
    } else if s.len() == 3 && s[0] == 'i' && s[1] == '8' {
        Some(NodeKind::I8s)
    } else if s.len() == 4 && s[0] == 'i' && s[2] == '6' {
        Some(NodeKind::I16s)
    } else if s.len() == 4 && s[0] == 'i' && s[2] == '2' {
        Some(NodeKind::I32s)
    } else if s.len() == 4 && s[0] == 'i' && s[2] == '4' {
        Some(NodeKind::I64s)
    } else if s.len() == 5 && s[0] == 'u' && s[3] == 't' {
        Some(NodeKind::Uints)
    } else if s.len() == 3 && s[0] == 'u' && s[1] == '8' {
        Some(NodeKind::U8s)
    } else if s.len() == 4 && s[0] == 'u' && s[2] == '6' {
        Some(NodeKind::U16s)
    } else if s.len() == 4 && s[0] == 'u' && s[2] == '2' {
        Some(NodeKind::U32s)
    } else if s.len() == 4 && s[0] == 'u' && s[2] == '4' {
        Some(NodeKind::U64s)
    } else if s.len() == 4 && s[0] == 'f' && s[2] == '2' {
        Some(NodeKind::F32s)
    } else if s.len() == 4 && s[0] == 'f' && s[2] == '4' {
        Some(NodeKind::F64s)
    } else if s.len() == 4 && s[0] == 's' && s[2] == 'r' {
        Some(NodeKind::Strs)
    } else if s.len() == 9 && s[0] == 'g' && s[7] == 'n' {
        Some(NodeKind::GroupEnd)
    } else if s.len() == 5 && s[0] == 'g' && s[3] == 'u' {
        Some(NodeKind::Group)
    } else if s.len() == 5 && s[0] == 'e' && s[3] == 'o' {
        Some(NodeKind::Error)
    } else if s.len() == 11 && s[0] == 'e' && s[9] == 'e' {
        Some(NodeKind::ErrorEmbed)
    } else if s.len() == 9 && s[0] == 'e' && s[7] == 'e' {
        Some(NodeKind::ErrorStageNew)
    } else if s.len() == 10 && s[0] == 'e' && s[8] == 'a' {
        Some(NodeKind::ErrorStageWrap)
    } else if s.len() == 9 && s[0] == 'e' && s[7] == 't' {
        Some(NodeKind::ErrorStageCtx)
    } else {
        None
    }
}

#[verifier::rlimit(100)]
proof fn lemma_node_kind_of_name(k: NodeKind)
    ensures
        node_kind_of_name(node_kind_name(k)@) == Some(k),
{
    reveal_strlit("bool");
    reveal_strlit("time");
    reveal_strlit("dur");
    reveal_strlit("int");
    reveal_strlit("i8");
    reveal_strlit("i16");
    reveal_strlit("i32");
    reveal_strlit("i64");
    reveal_strlit("uint");
    reveal_strlit("u8");
    reveal_strlit("u16");
    reveal_strlit("u32");
    reveal_strlit("u64");
    reveal_strlit("f32");
    reveal_strlit("f64");
    reveal_strlit("str");
    reveal_strlit("bytes");
    reveal_strlit("error:Text");
    reveal_strlit("error:TextFragment");
    reveal_strlit("error:Loc");
    reveal_strlit("error:EmbedText");
    reveal_strlit("ivar");
    reveal_strlit("uvar");
    reveal_strlit("bools");
    reveal_strlit("ints");
    reveal_strlit("i8s");
    reveal_strlit("i16s");
    reveal_strlit("i32s");
    reveal_strlit("i64s");
    reveal_strlit("uints");
    reveal_strlit("u8s");
    reveal_strlit("u16s");
    reveal_strlit("u32s");
    reveal_strlit("u64s");
    reveal_strlit("f32s");
    reveal_strlit("f64s");
    reveal_strlit("strs");
    reveal_strlit("group:end");
    reveal_strlit("group");
    reveal_strlit("error");
    reveal_strlit("error:embed");
    reveal_strlit("error:New");
    reveal_strlit("error:Wrap");
    reveal_strlit("error:Ctx");
}

/// No two node kinds share a name, so a dump names each kind unambiguously.
pub proof fn law_node_kind_names_distinct(a: NodeKind, b: NodeKind)
    requires
        node_kind_name(a)@ == node_kind_name(b)@,
    ensures
        a == b,
{
    lemma_node_kind_of_name(a);
    lemma_node_kind_of_name(b);
}

} // verus!
