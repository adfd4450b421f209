//! Kinds of the values that a record context carries, as they are coded on the wire.
use vstd::prelude::*;
use crate::log_parse::ErrorLogParse;

verus! {

/// The kind of a context element, coded as one byte on the wire (see [ValueKind::code]).
#[derive(Debug, Clone, Copy, PartialEq, Eq, Structural)]
pub enum ValueKind {
    NewNode,
    WrapNode,
    JustContextNode,
    LocationNode,
    ForeignErrorText,
    PhantomContextNode,
    Group,
    Error,
    ErrorEmbed,
    GroupEnd,
    Bool,
    Time,
    Duration,
    Ivar,
    I8,
    I16,
    I32,
    I64,
    Uvar,
    U8,
    U16,
    U32,
    U64,
    Float32,
    Float64,
    String,
    Bytes,
    ErrorRaw,
    SliceBool,
    SliceI8,
    SliceI16,
    SliceI32,
    SliceI64,
    SliceU8,
    SliceU16,
    SliceU32,
    SliceU64,
    SliceF32,
    SliceF64,
    SliceString,
}

/// The wire code of each kind.
pub open spec fn value_kind_code(k: ValueKind) -> u8 {
    match k {
        ValueKind::NewNode => 1,
        ValueKind::WrapNode => 2,
        ValueKind::JustContextNode => 3,
        ValueKind::LocationNode => 4,
        ValueKind::ForeignErrorText => 5,
        ValueKind::PhantomContextNode => 6,
        ValueKind::Group => 7,
        ValueKind::Error => 8,
        ValueKind::ErrorEmbed => 9,
        ValueKind::GroupEnd => 10,
        ValueKind::Bool => 11,
        ValueKind::Time => 12,
        ValueKind::Duration => 13,
        ValueKind::Ivar => 14,
        ValueKind::I8 => 15,
        ValueKind::I16 => 16,
        ValueKind::I32 => 17,
        ValueKind::I64 => 18,
        ValueKind::Uvar => 19,
        ValueKind::U8 => 20,
        ValueKind::U16 => 21,
        ValueKind::U32 => 22,
        ValueKind::U64 => 23,
        ValueKind::Float32 => 24,
        ValueKind::Float64 => 25,
        ValueKind::String => 26,
        ValueKind::Bytes => 27,
        ValueKind::ErrorRaw => 28,
        ValueKind::SliceBool => 29,
        ValueKind::SliceI8 => 30,
        ValueKind::SliceI16 => 31,
        ValueKind::SliceI32 => 32,
        ValueKind::SliceI64 => 33,
        ValueKind::SliceU8 => 34,
        ValueKind::SliceU16 => 35,
        ValueKind::SliceU32 => 36,
        ValueKind::SliceU64 => 37,
        ValueKind::SliceF32 => 38,
        ValueKind::SliceF64 => 39,
        ValueKind::SliceString => 40,
    }
}

/// The kind that a wire code stands for, if any.
pub open spec fn value_kind_of(b: u8) -> Option<ValueKind> {
    if 1 <= b <= 40 {
        Some(choose|k: ValueKind| value_kind_code(k) == b)
    } else {
        None
    }
}

/// The name under which each kind is shown.
pub open spec fn value_kind_name(k: ValueKind) -> &'static str {
    match k {
        ValueKind::NewNode => "error.New",
        ValueKind::WrapNode => "error.Wrap",
        ValueKind::JustContextNode => "error.Ctx",
        ValueKind::LocationNode => "location",
        ValueKind::ForeignErrorText => "error.(foreign text)",
        ValueKind::PhantomContextNode => "errors.Ctx(phantom)",
        ValueKind::Group => "blog.Group",
        ValueKind::Error => "beer.Error",
        ValueKind::ErrorEmbed => "error.Intermixed",
        ValueKind::GroupEnd => "group.end",
        ValueKind::Bool => "bool",
        ValueKind::Time => "time.UnixNano",
        ValueKind::Duration => "time.Duration",
        ValueKind::Ivar => "vaint",
        ValueKind::I8 => "int8",
        ValueKind::I16 => "int16",
        ValueKind::I32 => "int32",
        ValueKind::I64 => "int64",
        ValueKind::Uvar => "uvarint",
        ValueKind::U8 => "uint8",
        ValueKind::U16 => "uint16",
        ValueKind::U32 => "uint32",
        ValueKind::U64 => "uint64",
        ValueKind::Float32 => "float32",
        ValueKind::Float64 => "float64",
        ValueKind::String => "string",
        ValueKind::Bytes => "[]byte",
        ValueKind::ErrorRaw => "error",
        ValueKind::SliceBool => "[]bool",
        ValueKind::SliceI8 => "[]int8",
        ValueKind::SliceI16 => "[]int16",
        ValueKind::SliceI32 => "[]int32",
        ValueKind::SliceI64 => "[]int64",
        ValueKind::SliceU8 => "[]uint8",
        ValueKind::SliceU16 => "[]uint16",
        ValueKind::SliceU32 => "[]uint32",
        ValueKind::SliceU64 => "[]uint64",
        ValueKind::SliceF32 => "[]float32",
        ValueKind::SliceF64 => "[]float64",
        ValueKind::SliceString => "[]string",
    }
}

impl ValueKind {
    /// The wire code of the kind.
    pub fn code(self) -> (c: u8)
        ensures
            c == value_kind_code(self),
    {
        match self {
            ValueKind::NewNode => 1,
            ValueKind::WrapNode => 2,
            ValueKind::JustContextNode => 3,
            ValueKind::LocationNode => 4,
            ValueKind::ForeignErrorText => 5,
            ValueKind::PhantomContextNode => 6,
            ValueKind::Group => 7,
            ValueKind::Error => 8,
            ValueKind::ErrorEmbed => 9,
            ValueKind::GroupEnd => 10,
            ValueKind::Bool => 11,
            ValueKind::Time => 12,
            ValueKind::Duration => 13,
            ValueKind::Ivar => 14,
            ValueKind::I8 => 15,
            ValueKind::I16 => 16,
            ValueKind::I32 => 17,
            ValueKind::I64 => 18,
            ValueKind::Uvar => 19,
            ValueKind::U8 => 20,
            ValueKind::U16 => 21,
            ValueKind::U32 => 22,
            ValueKind::U64 => 23,
            ValueKind::Float32 => 24,
            ValueKind::Float64 => 25,
            ValueKind::String => 26,
            ValueKind::Bytes => 27,
            ValueKind::ErrorRaw => 28,
            ValueKind::SliceBool => 29,
            ValueKind::SliceI8 => 30,
            ValueKind::SliceI16 => 31,
            ValueKind::SliceI32 => 32,
            ValueKind::SliceI64 => 33,
            ValueKind::SliceU8 => 34,
            ValueKind::SliceU16 => 35,
            ValueKind::SliceU32 => 36,
            ValueKind::SliceU64 => 37,
            ValueKind::SliceF32 => 38,
            ValueKind::SliceF64 => 39,
            ValueKind::SliceString => 40,
        }
    }

    /// The kind that the wire byte `b` codes, `None` for a byte that codes no kind.
    pub fn from_code(b: u8) -> (k: Option<ValueKind>)
        ensures
            k == value_kind_of(b),
            k matches Some(kk) ==> value_kind_code(kk) == b,
    {
        let r = match b {
            1 => Some(ValueKind::NewNode),
            2 => Some(ValueKind::WrapNode),
            3 => Some(ValueKind::JustContextNode),
            4 => Some(ValueKind::LocationNode),
            5 => Some(ValueKind::ForeignErrorText),
            6 => Some(ValueKind::PhantomContextNode),
            7 => Some(ValueKind::Group),
            8 => Some(ValueKind::Error),
            9 => Some(ValueKind::ErrorEmbed),
            10 => Some(ValueKind::GroupEnd),
            11 => Some(ValueKind::Bool),
            12 => Some(ValueKind::Time),
            13 => Some(ValueKind::Duration),
            14 => Some(ValueKind::Ivar),
            15 => Some(ValueKind::I8),
            16 => Some(ValueKind::I16),
            17 => Some(ValueKind::I32),
            18 => Some(ValueKind::I64),
            19 => Some(ValueKind::Uvar),
            20 => Some(ValueKind::U8),
            21 => Some(ValueKind::U16),
            22 => Some(ValueKind::U32),
            23 => Some(ValueKind::U64),
            24 => Some(ValueKind::Float32),
            25 => Some(ValueKind::Float64),
            26 => Some(ValueKind::String),
            27 => Some(ValueKind::Bytes),
            28 => Some(ValueKind::ErrorRaw),
            29 => Some(ValueKind::SliceBool),
            30 => Some(ValueKind::SliceI8),
            31 => Some(ValueKind::SliceI16),
            32 => Some(ValueKind::SliceI32),
            33 => Some(ValueKind::SliceI64),
            34 => Some(ValueKind::SliceU8),
            35 => Some(ValueKind::SliceU16),
            36 => Some(ValueKind::SliceU32),
            37 => Some(ValueKind::SliceU64),
            38 => Some(ValueKind::SliceF32),
            39 => Some(ValueKind::SliceF64),
            40 => Some(ValueKind::SliceString),
            _ => None,
        };
        proof {
            if let Some(kk) = r {
                assert(value_kind_code(kk) == b);
                lemma_code_injective(kk);
            }
        }
        r
    }
}

/// Distinct kinds have distinct codes, and every code in 1..=40 stands for one.
pub proof fn lemma_code_injective(k: ValueKind)
    ensures
        1 <= value_kind_code(k) <= 40,
        forall|j: ValueKind| value_kind_code(j) == value_kind_code(k) ==> j == k,
        value_kind_of(value_kind_code(k)) == Some(k),
{
    assert forall|j: ValueKind| value_kind_code(j) == value_kind_code(k) implies j == k by {
        match j {
            ValueKind::NewNode => {},
            ValueKind::WrapNode => {},
            ValueKind::JustContextNode => {},
            ValueKind::LocationNode => {},
            ValueKind::ForeignErrorText => {},
            ValueKind::PhantomContextNode => {},
            ValueKind::Group => {},
            ValueKind::Error => {},
            ValueKind::ErrorEmbed => {},
            ValueKind::GroupEnd => {},
            ValueKind::Bool => {},
            ValueKind::Time => {},
            ValueKind::Duration => {},
            ValueKind::Ivar => {},
            ValueKind::I8 => {},
            ValueKind::I16 => {},
            ValueKind::I32 => {},
            ValueKind::I64 => {},
            ValueKind::Uvar => {},
            ValueKind::U8 => {},
            ValueKind::U16 => {},
            ValueKind::U32 => {},
            ValueKind::U64 => {},
            ValueKind::Float32 => {},
            ValueKind::Float64 => {},
            ValueKind::String => {},
            ValueKind::Bytes => {},
            ValueKind::ErrorRaw => {},
            ValueKind::SliceBool => {},
            ValueKind::SliceI8 => {},
            ValueKind::SliceI16 => {},
            ValueKind::SliceI32 => {},
            ValueKind::SliceI64 => {},
            ValueKind::SliceU8 => {},
            ValueKind::SliceU16 => {},
            ValueKind::SliceU32 => {},
            ValueKind::SliceU64 => {},
            ValueKind::SliceF32 => {},
            ValueKind::SliceF64 => {},
            ValueKind::SliceString => {},
        }
    }
}

/// Reading a kind back from its code gives the kind.
pub proof fn law_value_kind_code_roundtrip(k: ValueKind)
    ensures
        value_kind_of(value_kind_code(k)) == Some(k),
{
    lemma_code_injective(k);
}

/// The name under which `k` is shown.
pub fn string(k: ValueKind) -> (s: String)
    ensures
        s@ == value_kind_name(k)@,
{
    let t: &str = match k {
        ValueKind::NewNode => "error.New",
        ValueKind::WrapNode => "error.Wrap",
        ValueKind::JustContextNode => "error.Ctx",
        ValueKind::LocationNode => "location",
        ValueKind::ForeignErrorText => "error.(foreign text)",
        ValueKind::PhantomContextNode => "errors.Ctx(phantom)",
        ValueKind::Group => "blog.Group",
        ValueKind::Error => "beer.Error",
        ValueKind::ErrorEmbed => "error.Intermixed",
        ValueKind::GroupEnd => "group.end",
        ValueKind::Bool => "bool",
        ValueKind::Time => "time.UnixNano",
        ValueKind::Duration => "time.Duration",
        ValueKind::Ivar => "vaint",
        ValueKind::I8 => "int8",
        ValueKind::I16 => "int16",
        ValueKind::I32 => "int32",
        ValueKind::I64 => "int64",
        ValueKind::Uvar => "uvarint",
        ValueKind::U8 => "uint8",
        ValueKind::U16 => "uint16",
        ValueKind::U32 => "uint32",
        ValueKind::U64 => "uint64",
        ValueKind::Float32 => "float32",
        ValueKind::Float64 => "float64",
        ValueKind::String => "string",
        ValueKind::Bytes => "[]byte",
        ValueKind::ErrorRaw => "error",
        ValueKind::SliceBool => "[]bool",
        ValueKind::SliceI8 => "[]int8",
        ValueKind::SliceI16 => "[]int16",
        ValueKind::SliceI32 => "[]int32",
        ValueKind::SliceI64 => "[]int64",
        ValueKind::SliceU8 => "[]uint8",
        ValueKind::SliceU16 => "[]uint16",
        ValueKind::SliceU32 => "[]uint32",
        ValueKind::SliceU64 => "[]uint64",
        ValueKind::SliceF32 => "[]float32",
        ValueKind::SliceF64 => "[]float64",
        ValueKind::SliceString => "[]string",
    };
    t.to_owned()
}

/// Kinds that open a nested part of the context.
pub open spec fn spec_is_group_start(k: ValueKind) -> bool {
    match k {
        ValueKind::NewNode | ValueKind::WrapNode | ValueKind::JustContextNode | ValueKind::Group
        | ValueKind::Error | ValueKind::ErrorEmbed => true,
        _ => false,
    }
}

/// Whether `k` opens a nested part of the context.
pub fn is_group_start(k: ValueKind) -> (b: bool)
    ensures
        b == spec_is_group_start(k),
{
    match k {
        ValueKind::NewNode | ValueKind::WrapNode | ValueKind::JustContextNode | ValueKind::Group
        | ValueKind::Error | ValueKind::ErrorEmbed => true,
        _ => false,
    }
}

/// A kind shown by name.
pub struct Kind(pub ValueKind);

impl Kind {
    /// The text under which the kind is shown.
    pub fn to_text(&self) -> (s: String)
        ensures
            s@ == value_kind_name(self.0)@,
    {
        string(self.0)
    }
}

/// Codes of the keys that a record may refer to by number.
#[derive(Debug, Clone, Copy, PartialEq, Eq, Structural)]
pub enum PredefinedKeyCode {
    INVALID,
}

impl PredefinedKeyCode {
    /// The code that `code` stands for, if any.
    pub fn from_u32(code: u32) -> (r: Option<PredefinedKeyCode>)
        ensures
            r == (if code == 0 { Some(PredefinedKeyCode::INVALID) } else { None::<PredefinedKeyCode> }),
    {
        if code == 0 {
            Some(PredefinedKeyCode::INVALID)
        } else {
            None
        }
    }
}

/// The name of a predefined key code.
pub open spec fn predefined_key_name(code: PredefinedKeyCode) -> &'static str {
    match code {
        PredefinedKeyCode::INVALID => "INVALID",
    }
}

/// The name of a predefined key code.
pub fn predefined_key(code: PredefinedKeyCode) -> (s: &'static str)
    ensures
        s == predefined_key_name(code),
{
    match code {
        PredefinedKeyCode::INVALID => "INVALID",
    }
}

/// The name of the predefined key with number `code`, or the error that reports
/// an unknown number.
pub fn predefined_key_safe(code: u32) -> (r: Result<&'static str, ErrorLogParse>)
    ensures
        code == 0 ==> r == Ok::<&'static str, ErrorLogParse>(predefined_key_name(PredefinedKeyCode::INVALID)),
        code != 0 ==> r == Err::<&'static str, ErrorLogParse>(ErrorLogParse::RecordContextNodePredefinedKeyUnknown(code)),
{
    match PredefinedKeyCode::from_u32(code) {
        Some(x) => Ok(predefined_key(x)),
        None => Err(ErrorLogParse::RecordContextNodePredefinedKeyUnknown(code)),
    }
}

/// The keys that renderers show under a number: `(i + 1) << 8` names entry `i`.
pub open spec fn predefined_keys() -> Seq<&'static str> {
    seq!["@location", "@context", "@text"]
}

/// Number of the `@location` key.
pub const PREDEFINED_NAME_LOCATION: u32 = 0x100;
/// Number of the `@context` key.
pub const PREDEFINED_NAME_CONTEXT: u32 = 0x200;
/// Number of the `@text` key.
pub const PREDEFINED_NAME_TEXT: u32 = 0x300;

/// The name a renderer shows for key number `key`.
pub open spec fn predefined_name(key: u32) -> &'static str {
    if key < 256 {
        "!invalid-predefined-key"
    } else if key / 256 == 0 || (key / 256) as int - 1 >= 3 {
        "!unknown-predefined-key"
    } else {
        predefined_keys()[(key / 256) as int - 1]
    }
}

/// The names of key numbers: below 256 a number names no key; from 256 on, the
/// number's high part less one indexes the table of predefined keys, and a number
/// past its end is an unknown key. No number makes the lookup fail.
pub proof fn law_predefined_key_names(key: u32)
    ensures
        key < 256 ==> predefined_name(key) == "!invalid-predefined-key",
        key >= 256 && key / 256 - 1 >= predefined_keys().len() ==> predefined_name(key) == "!unknown-predefined-key",
        key >= 256 && key / 256 - 1 < predefined_keys().len() ==> predefined_name(key)
            == predefined_keys()[key / 256 - 1],
{
}

/// The name a renderer shows for key number `key`.
pub fn predefined_key_name_of(key: u32) -> (s: &'static str)
    ensures
        s == predefined_name(key),
{
    if key < 256 {
        return "!invalid-predefined-key";
    }
    let index: u32 = key / 256;
    if index == 0 || index - 1 >= 3 {
        return "!unknown-predefined-key";
    }
    if index == 1 {
        "@location"
    } else if index == 2 {
        "@context"
    } else {
        "@text"
    }
}

/// The kind whose name is `s`, told apart by the name's length and a few of its
/// characters; `None` where no kind's name matches them.
pub open spec fn value_kind_of_name(s: Seq<char>) -> Option<ValueKind> {
    if s.len() == 9 && s[8] == 'w' && s[5] == '.' {
        Some(ValueKind::NewNode)
    } else if s.len() == 10 && s[9] == 'p' && s[6] == 'W' {
        Some(ValueKind::WrapNode)
    } else if s.len() == 9 && s[8] == 'x' && s[5] == '.' {
        Some(ValueKind::JustContextNode)
    } else if s.len() == 8 && s[7] == 'n' && s[4] == 't' {
        Some(ValueKind::LocationNode)
    } else if s.len() == 20 && s[19] == ')' && s[16] == 'e' {
        Some(ValueKind::ForeignErrorText)
    } else if s.len() == 19 && s[18] == ')' && s[15] == 't' {
        Some(ValueKind::PhantomContextNode)
    } else if s.len() == 10 && s[9] == 'p' && s[6] == 'r' {
        Some(ValueKind::Group)
    } else if s.len() == 10 && s[9] == 'r' && s[6] == 'r' {
        Some(ValueKind::Error)
    } else if s.len() == 16 && s[15] == 'd' && s[12] == 'i' {
        Some(ValueKind::ErrorEmbed)
    } else if s.len() == 9 && s[8] == 'd' && s[5] == '.' {
        Some(ValueKind::GroupEnd)
    } else if s.len() == 4 && s[3] == 'l' && s[0] == 'b' {
        Some(ValueKind::Bool)
    } else if s.len() == 13 && s[12] == 'o' && s[9] == 'N' {
        Some(ValueKind::Time)
    } else if s.len() == 13 && s[12] == 'n' && s[9] == 't' {
        Some(ValueKind::Duration)
    } else if s.len() == 5 && s[4] == 't' && s[1] == 'a' {
        Some(ValueKind::Ivar)
    } else if s.len() == 4 && s[3] == '8' && s[0] == 'i' {
        Some(ValueKind::I8)
    } else if s.len() == 5 && s[4] == '6' && s[1] == 'n' {
        Some(ValueKind::I16)
    } else if s.len() == 5 && s[4] == '2' && s[1] == 'n' {
        Some(ValueKind::I32)
    } else if s.len() == 5 && s[4] == '4' && s[1] == 'n' {
        Some(ValueKind::I64)
    } else if s.len() == 7 && s[6] == 't' && s[3] == 'r' {
        Some(ValueKind::Uvar)
    } else if s.len() == 5 && s[4] == '8' && s[1] == 'i' {
        Some(ValueKind::U8)
    } else if s.len() == 6 && s[5] == '6' && s[2] == 'n' {
        Some(ValueKind::U16)
    } else if s.len() == 6 && s[5] == '2' && s[2] == 'n' {
        Some(ValueKind::U32)
    } else if s.len() == 6 && s[5] == '4' && s[2] == 'n' {
        Some(ValueKind::U64)
    } else if s.len() == 7 && s[6] == '2' && s[3] == 'a' {
        Some(ValueKind::Float32)
    } else if s.len() == 7 && s[6] == '4' && s[3] == 'a' {
        Some(ValueKind::Float64)
    } else if s.len() == 6 && s[5] == 'g' && s[2] == 'r' {
        Some(ValueKind::String)
    } else if s.len() == 6 && s[5] == 'e' && s[2] == 'b' {
        Some(ValueKind::Bytes)
    } else if s.len() == 5 && s[4] == 'r' && s[1] == 'r' {
        Some(ValueKind::ErrorRaw)
    } else if s.len() == 6 && s[5] == 'l' && s[2] == 'b' {
        Some(ValueKind::SliceBool)
    } else if s.len() == 6 && s[5] == '8' && s[2] == 'i' {
        Some(ValueKind::SliceI8)
    } else if s.len() == 7 && s[6] == '6' && s[3] == 'n' {
        Some(ValueKind::SliceI16)
    } else if s.len() == 7 && s[6] == '2' && s[3] == 'n' {
        Some(ValueKind::SliceI32)
    } else if s.len() == 7 && s[6] == '4' && s[3] == 'n' {
        Some(ValueKind::SliceI64)
    } else if s.len() == 7 && s[6] == '8' && s[3] == 'i' {
        Some(ValueKind::SliceU8)
    } else if s.len() == 8 && s[7] == '6' && s[4] == 'n' {
        Some(ValueKind::SliceU16)
    } else if s.len() == 8 && s[7] == '2' && s[4] == 'n' {
        Some(ValueKind::SliceU32)
    } else if s.len() == 8 && s[7] == '4' && s[4] == 'n' {
        Some(ValueKind::SliceU64)
    } else if s.len() == 9 && s[8] == '2' && s[5] == 'a' {
        Some(ValueKind::SliceF32)
    } else if s.len() == 9 && s[8] == '4' && s[5] == 'a' {
        Some(ValueKind::SliceF64)
    } else if s.len() == 8 && s[7] == 'g' && s[4] == 'r' {
        Some(ValueKind::SliceString)
    } else {
        None
    }
}

#[verifier::rlimit(100)]
proof fn lemma_value_kind_of_name(k: ValueKind)
    ensures
        value_kind_of_name(value_kind_name(k)@) == Some(k),
{
    reveal_strlit("error.New");
    reveal_strlit("error.Wrap");
    reveal_strlit("error.Ctx");
    reveal_strlit("location");
    reveal_strlit("error.(foreign text)");
    reveal_strlit("errors.Ctx(phantom)");
    reveal_strlit("blog.Group");
    reveal_strlit("beer.Error");
    reveal_strlit("error.Intermixed");
    reveal_strlit("group.end");
    reveal_strlit("bool");
    reveal_strlit("time.UnixNano");
    reveal_strlit("time.Duration");
    reveal_strlit("vaint");
    reveal_strlit("int8");
    reveal_strlit("int16");
    reveal_strlit("int32");
    reveal_strlit("int64");
    reveal_strlit("uvarint");
    reveal_strlit("uint8");
    reveal_strlit("uint16");
    reveal_strlit("uint32");
    reveal_strlit("uint64");
    reveal_strlit("float32");
    reveal_strlit("float64");
    reveal_strlit("string");
    reveal_strlit("[]byte");
    reveal_strlit("error");
    reveal_strlit("[]bool");
    reveal_strlit("[]int8");
    reveal_strlit("[]int16");
    reveal_strlit("[]int32");
    reveal_strlit("[]int64");
    reveal_strlit("[]uint8");
    reveal_strlit("[]uint16");
    reveal_strlit("[]uint32");
    reveal_strlit("[]uint64");
    reveal_strlit("[]float32");
    reveal_strlit("[]float64");
    reveal_strlit("[]string");
}

/// No two value kinds share a name.
pub proof fn law_value_kind_names_distinct(a: ValueKind, b: ValueKind)
    requires
        value_kind_name(a)@ == value_kind_name(b)@,
    ensures
        a == b,
{
    lemma_value_kind_of_name(a);
    lemma_value_kind_of_name(b);
}

} // verus!
