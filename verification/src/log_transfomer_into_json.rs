//! Turning framed log records into plain JSON objects, one per record.
use vstd::prelude::*;
use crate::itoa2::{append_itoa, append_utoa, decimal, decimal_signed};
use crate::level;
use crate::log_parse::{frame_header, header_spec, law_frame_roundtrip, law_header_split, log_parse_header, read_uvarint_checked, uvarint_at, ErrorLogParse};
use crate::log_rend::{go_duration, render_go_duration, TimeParts};
use crate::log_rend_json::{base64_append, base64_std, json_string, push_json_string};
use crate::log_render::{fill_times, gunzip_outcome, slots_in_order, times_filled, times_of_places, Fill, Slot};
use crate::log_render_json::{quoted, to_signed, Text, tpush, tslot};
use crate::log_render_tree::tree_errs_text;
use crate::pointer_ext::{append, append_str, le_at, le_or_zero, lit, read_le, str_at};
use crate::value_kind::{predefined_key_name, predefined_key_safe, value_kind_of, PredefinedKeyCode, ValueKind};

verus! {

/// The key of the time field.
pub const JSON_TIME: &'static str = "\"time\"";
/// The key of the level field.
pub const JSON_LEVEL: &'static str = "\"level\"";
/// The level value of trace records.
pub const JSON_LEVEL_TRACE: &'static str = "\"trace\"";
/// The level value of debug records.
pub const JSON_LEVEL_DEBUG: &'static str = "\"debug\"";
/// The level value of info records.
pub const JSON_LEVEL_INFO: &'static str = "\"info\"";
/// The level value of warning records.
pub const JSON_LEVEL_WARN: &'static str = "\"warn\"";
/// The level value of error records.
pub const JSON_LEVEL_ERROR: &'static str = "\"error\"";
/// The level value of panic records.
pub const JSON_LEVEL_PANIC: &'static str = "\"panic\"";
/// The word before the code of a level without a name.
pub const JSON_LEVEL_UNKNOWN: &'static str = "unknown";
/// The key of the location field.
pub const JSON_LOCATION: &'static str = "\"location\"";
/// The key of the message field.
pub const JSON_MESSAGE: &'static str = "\"message\"";
/// The key of the stack trace field of panic records.
pub const JSON_STACKTRACE: &'static str = "\"stacktrace\"";
/// The key of an error location, with its colon.
pub const JSON_ERROR_LOC: &'static str = "\"@location\":";
/// The key of an error text, with its colon.
pub const JSON_ERROR_TXT: &'static str = "\"@text\":";
/// What an error value starts with: an object holding the error context.
pub const JSON_ERROR_CTX: &'static str = "{\"@context\":{";

/// The state of transforming a context between two elements.
#[verifier::ext_equal]
pub ghost struct TxState {
    pub off: int,
    pub out: Seq<u8>,
    pub slots: Seq<Slot>,
    /// How deep inside an error object the output is.
    pub depth: nat,
    /// Whether the next element needs a comma before it.
    pub old: bool,
    /// Whether the error being written brings its text along.
    pub embed: bool,
    /// Length and offset of that text.
    pub err_text: (usize, usize),
    /// Length and offset of the fragments of the error text, innermost last.
    pub frags: Seq<(usize, usize)>,
}

/// Whether the bits are those of a 32-bit NaN: all exponent bits set and a mantissa.
pub open spec fn is_nan32(bits: nat) -> bool {
    bits / 0x80_0000 % 0x100 == 0xFF && bits % 0x80_0000 != 0
}

/// Whether the bits are those of a 64-bit NaN.
pub open spec fn is_nan64(bits: nat) -> bool {
    bits / 0x10_0000_0000_0000 % 0x800 == 0x7FF && bits % 0x10_0000_0000_0000 != 0
}

/// The comma before an element, when one came before it at its level.
pub open spec fn comma(st: TxState) -> Seq<u8> {
    if st.old { seq![44u8] } else { Seq::empty() }
}

/// The state with `b` written.
pub open spec fn txout(st: TxState, b: Seq<u8>) -> TxState {
    TxState { out: st.out + b, ..st }
}

/// The name of a predefined key number, or the error for an unknown one.
pub open spec fn key_name_safe(code: u32) -> Result<&'static str, ErrorLogParse> {
    if code == 0 {
        Ok(predefined_key_name(PredefinedKeyCode::INVALID))
    } else {
        Err(ErrorLogParse::RecordContextNodePredefinedKeyUnknown(code))
    }
}

/// The key at `off` as JSON text, and the offset after it: a literal key is escaped,
/// a predefined one is looked up by number.
pub open spec fn tx_key(s: Seq<u8>, off: int) -> Result<(Seq<u8>, int), ErrorLogParse> {
    if off < 0 || off >= s.len() {
        Err(ErrorLogParse::RecordTruncated)
    } else if s[off] != 0 {
        match str_at(s, off) {
            Some((a, b)) => Ok((json_string(s.subrange(a, b)), b)),
            None => Err(ErrorLogParse::RecordTruncated),
        }
    } else {
        match uvarint_at(s, off + 1) {
            Some((v, n)) => match key_name_safe(v as u32) {
                Ok(name) => Ok((quoted(lit(name)), off + 1 + n)),
                Err(e) => Err(e),
            },
            None => Err(ErrorLogParse::RecordTruncated),
        }
    }
}

/// A key ends inside the record.
proof fn lemma_tx_key_bound(s: Seq<u8>, off: int)
    ensures
        tx_key(s, off) matches Ok((_t, off2)) ==> off2 <= s.len(),
{
    if 0 <= off < s.len() && s[off] == 0 {
        crate::log_parse::lemma_uvarint_at_fits(s, off + 1);
    }
}

/// The width of the fixed-width items that a kind stands for (0 for the others).
pub open spec fn tx_width(k: ValueKind) -> nat {
    match k {
        ValueKind::SliceBool | ValueKind::SliceI8 | ValueKind::SliceU8 => 1,
        ValueKind::SliceI16 | ValueKind::SliceU16 => 2,
        ValueKind::SliceI32 | ValueKind::SliceU32 | ValueKind::SliceF32 => 4,
        ValueKind::SliceI64 | ValueKind::SliceU64 | ValueKind::SliceF64 => 8,
        _ => 0,
    }
}

/// One item of kind `k` (a slice kind) at `p`, and the offset after it; `None`
/// when it runs past the end of `s`.
#[verifier::opaque]
pub open spec fn tx_item(k: ValueKind, s: Seq<u8>, t: Text, p: int) -> Option<(Text, int)> {
    let w = tx_width(k);
    if k == ValueKind::SliceString {
        match str_at(s, p) {
            Some((a, b)) => Some((tpush(t, json_string(s.subrange(a, b))), b)),
            None => None,
        }
    } else if w == 0 || p < 0 || p + w > s.len() {
        None
    } else {
        let v = le_at(s, p, w);
        let t2 = match k {
            ValueKind::SliceBool => tpush(t, if v != 0 { lit("true") } else { lit("false") }),
            ValueKind::SliceI8 => tpush(t, decimal_signed(to_signed(v, 0x80))),
            ValueKind::SliceI16 => tpush(t, decimal_signed(to_signed(v, 0x8000))),
            ValueKind::SliceI32 => tpush(t, decimal_signed(to_signed(v, 0x8000_0000))),
            ValueKind::SliceI64 => tpush(t, decimal_signed(to_signed(v, 0x8000_0000_0000_0000))),
            ValueKind::SliceF32 => if is_nan32(v) { tpush(t, quoted(lit("NaN"))) } else { tslot(t, Fill::F32(v as u32)) },
            ValueKind::SliceF64 => if is_nan64(v) { tpush(t, quoted(lit("NaN"))) } else { tslot(t, Fill::F64(v as u64)) },
            _ => tpush(t, decimal(v)),
        };
        Some((t2, p + w))
    }
}

/// The first `n` items of a slice from `p`, separated by commas.
pub open spec fn tx_items(k: ValueKind, s: Seq<u8>, t: Text, p: int, n: nat) -> Option<(Text, int)>
    decreases n,
{
    if n == 0 {
        Some((t, p))
    } else {
        match tx_items(k, s, t, p, (n - 1) as nat) {
            Some((t1, p1)) => tx_item(k, s, if n > 1 { tpush(t1, seq![44u8]) } else { t1 }, p1),
            None => None,
        }
    }
}

/// The single-item kind that a scalar kind is written as.
pub open spec fn item_kind(k: ValueKind) -> Option<ValueKind> {
    match k {
        ValueKind::Bool => Some(ValueKind::SliceBool),
        ValueKind::Time => Some(ValueKind::SliceU64),
        ValueKind::I8 => Some(ValueKind::SliceI8),
        ValueKind::I16 => Some(ValueKind::SliceI16),
        ValueKind::I32 => Some(ValueKind::SliceI32),
        ValueKind::I64 => Some(ValueKind::SliceI64),
        ValueKind::U8 => Some(ValueKind::SliceU8),
        ValueKind::U16 => Some(ValueKind::SliceU16),
        ValueKind::U32 => Some(ValueKind::SliceU32),
        ValueKind::U64 => Some(ValueKind::SliceU64),
        ValueKind::Float32 => Some(ValueKind::SliceF32),
        ValueKind::Float64 => Some(ValueKind::SliceF64),
        ValueKind::String | ValueKind::ErrorRaw => Some(ValueKind::SliceString),
        _ => None,
    }
}

/// Whether a kind is a slice kind.
pub open spec fn is_slice_value(k: ValueKind) -> bool {
    match k {
        ValueKind::SliceBool | ValueKind::SliceI8 | ValueKind::SliceI16 | ValueKind::SliceI32
        | ValueKind::SliceI64 | ValueKind::SliceU8 | ValueKind::SliceU16 | ValueKind::SliceU32
        | ValueKind::SliceU64 | ValueKind::SliceF32 | ValueKind::SliceF64 | ValueKind::SliceString => true,
        _ => false,
    }
}

/// The state with `t` as its text and places and `off` as its offset.
pub open spec fn with_text(st: TxState, t: Text, off: int) -> TxState {
    TxState { out: t.out, slots: t.slots, off, ..st }
}

/// A scalar written as a single item of kind `ik`.
pub open spec fn tx_value_item(s: Seq<u8>, st: TxState, ik: ValueKind, off: int) -> Result<TxState, ErrorLogParse> {
    match tx_item(ik, s, Text { out: st.out, slots: st.slots }, off) {
        Some((t2, off2)) => Ok(with_text(st, t2, off2)),
        None => Err(ErrorLogParse::RecordTruncated),
    }
}

/// A slice: its count, then its items between brackets.
pub open spec fn tx_value_slice(s: Seq<u8>, st: TxState, k: ValueKind, off: int) -> Result<TxState, ErrorLogParse> {
    match uvarint_at(s, off) {
        Some((count, n)) => match tx_items(k, s, tpush(Text { out: st.out, slots: st.slots }, seq![91u8]), off + n, count as nat) {
            Some((t2, off2)) => Ok(with_text(st, tpush(t2, seq![93u8]), off2)),
            None => Err(ErrorLogParse::RecordTruncated),
        },
        None => Err(ErrorLogParse::RecordTruncated),
    }
}

/// The values that are neither plain items nor slices.
pub open spec fn tx_value_other(s: Seq<u8>, st: TxState, k: ValueKind, off: int) -> Result<TxState, ErrorLogParse> {
    match k {
        ValueKind::Duration => if 0 <= off && off + 8 <= s.len() {
            Ok(TxState { off: off + 8, ..txout(st, quoted(go_duration(le_at(s, off, 8)))) })
        } else {
            Err(ErrorLogParse::RecordTruncated)
        },
        ValueKind::Ivar => match uvarint_at(s, off) {
            Some((v, n)) => Ok(TxState { off: off + n, ..txout(st, decimal_signed(to_signed(v as nat, 0x8000_0000_0000_0000))) }),
            None => Err(ErrorLogParse::RecordTruncated),
        },
        ValueKind::Uvar => match uvarint_at(s, off) {
            Some((v, n)) => Ok(TxState { off: off + n, ..txout(st, decimal(v as nat)) }),
            None => Err(ErrorLogParse::RecordTruncated),
        },
        ValueKind::Bytes => match str_at(s, off) {
            Some((a, b)) => Ok(TxState { off: b, ..txout(st, quoted(base64_std(s.subrange(a, b)))) }),
            None => Err(ErrorLogParse::RecordTruncated),
        },
        ValueKind::Group => Ok(TxState { off, old: false, ..txout(st, seq![123u8]) }),
        ValueKind::Error => Ok(TxState {
            off,
            old: false,
            embed: false,
            depth: st.depth + 1,
            frags: Seq::empty(),
            ..txout(st, lit(JSON_ERROR_CTX))
        }),
        ValueKind::ErrorEmbed => match str_at(s, off) {
            Some((a, b)) => Ok(TxState {
                off: b,
                old: false,
                embed: true,
                depth: st.depth + 1,
                err_text: ((b - a) as usize, a as usize),
                ..txout(st, lit(JSON_ERROR_CTX))
            }),
            None => Err(ErrorLogParse::RecordTruncated),
        },
        _ => Err(ErrorLogParse::RecordContextNodeType(crate::value_kind::value_kind_code(k))),
    }
}

/// The value of an element of kind `k` that starts at `off`, after its key.
#[verifier::opaque]
pub open spec fn tx_value(s: Seq<u8>, st: TxState, k: ValueKind, off: int) -> Result<TxState, ErrorLogParse> {
    if let Some(ik) = item_kind(k) {
        tx_value_item(s, st, ik, off)
    } else if is_slice_value(k) {
        tx_value_slice(s, st, k, off)
    } else {
        tx_value_other(s, st, k, off)
    }
}

/// The end of a group or of an error object; at the end of the outermost error
/// object, its text follows.
pub open spec fn tx_group_end(s: Seq<u8>, st: TxState, off: int) -> TxState {
    let st1 = TxState { off, old: true, ..st };
    if st.depth != 1 {
        TxState { depth: if st.depth == 0 { 0 } else { (st.depth - 1) as nat }, ..txout(st1, seq![125u8]) }
    } else {
        let text = if st.embed {
            crate::pointer_ext::bytes_at(s, st.err_text.1 as int, st.err_text.0 as int)
        } else {
            tree_errs_text(st.frags, s, st.frags.len())
        };
        TxState { depth: 0, ..txout(st1, seq![125u8, 44u8] + lit(JSON_ERROR_TXT) + json_string(text) + seq![125u8]) }
    }
}

/// An error stage element: its name as an object key, the object opened.
pub open spec fn tx_stage(s: Seq<u8>, st: TxState, off: int) -> Result<TxState, ErrorLogParse> {
    match str_at(s, off) {
        Some((a, e)) => Ok(TxState {
            off: e,
            old: false,
            depth: st.depth + 1,
            frags: if !st.embed { st.frags.push(((e - a) as usize, a as usize)) } else { st.frags },
            ..txout(st, comma(st) + json_string(lit("NEW: ") + s.subrange(a, e)) + lit(":{"))
        }),
        None => Err(ErrorLogParse::RecordTruncated),
    }
}

/// A fragment of an error text: kept for the error text, nothing written.
pub open spec fn tx_foreign(s: Seq<u8>, st: TxState, off: int) -> Result<TxState, ErrorLogParse> {
    match str_at(s, off) {
        Some((a, e)) => Ok(TxState {
            off: e,
            frags: if !st.embed { st.frags.push(((e - a) as usize, a as usize)) } else { st.frags },
            ..st
        }),
        None => Err(ErrorLogParse::RecordTruncated),
    }
}

/// An error location: `"@location":"file:line"`.
pub open spec fn tx_location(s: Seq<u8>, st: TxState, off: int) -> Result<TxState, ErrorLogParse> {
    match str_at(s, off) {
        Some((a, e)) => match uvarint_at(s, e) {
            Some((line, n)) => Ok(TxState {
                off: e + n,
                old: true,
                ..txout(st, comma(st) + lit(JSON_ERROR_LOC) + json_string(s.subrange(a, e)).drop_last()
                    + seq![58u8] + decimal(line as nat) + seq![34u8])
            }),
            None => Err(ErrorLogParse::RecordTruncated),
        },
        None => Err(ErrorLogParse::RecordTruncated),
    }
}

/// An element with a key: the key, a colon and the value.
pub open spec fn tx_keyed(s: Seq<u8>, st: TxState, k: ValueKind, off: int) -> Result<TxState, ErrorLogParse> {
    match tx_key(s, off) {
        Err(e) => Err(e),
        Ok((key, off2)) => tx_value(s, TxState { old: true, ..txout(st, comma(st) + key + seq![58u8]) }, k, off2),
    }
}

/// One element of the context, from `st.off`.
#[verifier::opaque]
pub open spec fn tx_step(s: Seq<u8>, st: TxState) -> Result<TxState, ErrorLogParse> {
    let b = s[st.off];
    let off = st.off + 1;
    match value_kind_of(b) {
        None => Err(ErrorLogParse::RecordContextNodeType(b)),
        Some(k) => match k {
            ValueKind::JustContextNode => Ok(TxState {
                off,
                old: false,
                depth: st.depth + 1,
                ..txout(st, comma(st) + lit("\"CTX\":{"))
            }),
            ValueKind::PhantomContextNode => Ok(TxState { off, ..st }),
            ValueKind::NewNode | ValueKind::WrapNode => tx_stage(s, st, off),
            ValueKind::ForeignErrorText => tx_foreign(s, st, off),
            ValueKind::LocationNode => tx_location(s, st, off),
            ValueKind::GroupEnd => Ok(tx_group_end(s, st, off)),
            _ => tx_keyed(s, st, k, off),
        },
    }
}

/// The context from `st.off` to the end of the record.
pub open spec fn tx_run(s: Seq<u8>, st: TxState) -> Result<TxState, ErrorLogParse>
    decreases s.len() - st.off,
{
    if st.off >= s.len() || st.off < 0 {
        Ok(st)
    } else {
        match tx_step(s, st) {
            Err(e) => Err(e),
            Ok(next) => if st.off < next.off <= s.len() {
                tx_run(s, next)
            } else {
                Err(ErrorLogParse::RecordTruncated)
            },
        }
    }
}



/// An element whose kind byte codes no element kind ends the transformation of a
/// context with `RecordContextNodeType` of that byte, whatever follows it.
pub proof fn law_tx_unknown_kind(s: Seq<u8>, st: TxState)
    requires
        0 <= st.off < s.len(),
        value_kind_of(s[st.off]) is None,
    ensures
        tx_step(s, st) == Err::<TxState, ErrorLogParse>(ErrorLogParse::RecordContextNodeType(s[st.off])),
        tx_run(s, st) == Err::<TxState, ErrorLogParse>(ErrorLogParse::RecordContextNodeType(s[st.off])),
{
    reveal(tx_step);
}

/// The integer items of the JSON object: a signed item is the decimal text of its
/// two's complement value and an unsigned one the decimal text of its word; each
/// takes its width. (Scalars are written as single items of these kinds.)
pub proof fn law_tx_int_items(k: ValueKind, s: Seq<u8>, t: Text, p: int)
    requires
        0 <= p,
        p + 8 <= s.len(),
    ensures
        k == ValueKind::SliceI8 ==> tx_item(k, s, t, p) == Some((tpush(t, decimal_signed((s[p] as i8) as int)), p + 1)),
        k == ValueKind::SliceI16 ==> tx_item(k, s, t, p)
            == Some((tpush(t, decimal_signed(((le_at(s, p, 2) as u16) as i16) as int)), p + 2)),
        k == ValueKind::SliceI32 ==> tx_item(k, s, t, p)
            == Some((tpush(t, decimal_signed(((le_at(s, p, 4) as u32) as i32) as int)), p + 4)),
        k == ValueKind::SliceI64 ==> tx_item(k, s, t, p)
            == Some((tpush(t, decimal_signed(((le_at(s, p, 8) as u64) as i64) as int)), p + 8)),
        k == ValueKind::SliceU8 ==> tx_item(k, s, t, p) == Some((tpush(t, decimal(s[p] as nat)), p + 1)),
        k == ValueKind::SliceU16 ==> tx_item(k, s, t, p) == Some((tpush(t, decimal(le_at(s, p, 2))), p + 2)),
        k == ValueKind::SliceU32 ==> tx_item(k, s, t, p) == Some((tpush(t, decimal(le_at(s, p, 4))), p + 4)),
        k == ValueKind::SliceU64 ==> tx_item(k, s, t, p) == Some((tpush(t, decimal(le_at(s, p, 8))), p + 8)),
        item_kind(ValueKind::I8) == Some(ValueKind::SliceI8) && item_kind(ValueKind::I16) == Some(ValueKind::SliceI16)
            && item_kind(ValueKind::I32) == Some(ValueKind::SliceI32) && item_kind(ValueKind::I64) == Some(ValueKind::SliceI64)
            && item_kind(ValueKind::U8) == Some(ValueKind::SliceU8) && item_kind(ValueKind::U16) == Some(ValueKind::SliceU16)
            && item_kind(ValueKind::U32) == Some(ValueKind::SliceU32) && item_kind(ValueKind::U64) == Some(ValueKind::SliceU64)
            && item_kind(ValueKind::Bool) == Some(ValueKind::SliceBool),
{
    reveal(tx_item);
    crate::log_render_json::lemma_word_bounds(s, p);
    crate::log_render_json::lemma_small_casts(s[p] as nat);
    crate::log_render_json::lemma_small_casts(le_at(s, p, 2));
    crate::log_render_json::lemma_small_casts(le_at(s, p, 4));
    crate::log_render_json::lemma_small_casts(le_at(s, p, 8));
    assert((s[p] as u8) as i8 == s[p] as i8);
}

/// A boolean is written as `false` when its byte is 0 and as `true` otherwise,
/// both as a Bool element's value and as an item of a `[]bool` slice; it takes one
/// byte.
pub proof fn law_tx_bool_values(s: Seq<u8>, st: TxState, off: int, t: Text, p: int)
    ensures
        0 <= off < s.len() ==> (tx_value(s, st, ValueKind::Bool, off) matches Ok(next)
            && next.off == off + 1
            && (next.out == st.out + lit("false") <==> s[off] == 0)
            && (next.out == st.out + lit("true") <==> s[off] != 0)),
        0 <= p < s.len() ==> (tx_item(ValueKind::SliceBool, s, t, p) matches Some((t2, q))
            && q == p + 1
            && (t2.out == t.out + lit("false") <==> s[p] == 0)
            && (t2.out == t.out + lit("true") <==> s[p] != 0)),
{
    reveal(tx_value);
    reveal(tx_item);
    crate::pointer_ext::lemma_lit_bools();
    assert(le_at(s, off, 1) == s[off] as nat + 256 * le_at(s, off + 1, 0));
    assert(le_at(s, p, 1) == s[p] as nat + 256 * le_at(s, p + 1, 0));
    assert((st.out + lit("false")).len() != (st.out + lit("true")).len());
    assert((t.out + lit("false")).len() != (t.out + lit("true")).len());
}

/// The level value of a record: a name for the known levels, else `"unknown(N)"`.
pub open spec fn level_json(lvl: u8) -> Seq<u8> {
    if lvl == level::TRACE {
        lit(JSON_LEVEL_TRACE)
    } else if lvl == level::DEBUG {
        lit(JSON_LEVEL_DEBUG)
    } else if lvl == level::INFO {
        lit(JSON_LEVEL_INFO)
    } else if lvl == level::WARN {
        lit(JSON_LEVEL_WARN)
    } else if lvl == level::ERROR {
        lit(JSON_LEVEL_ERROR)
    } else if lvl == level::PANIC {
        lit(JSON_LEVEL_PANIC)
    } else {
        seq![34u8] + lit(JSON_LEVEL_UNKNOWN) + seq![40u8] + decimal(lvl as nat) + seq![41u8, 34u8]
    }
}

/// What a gunzipped stack trace leaves: the bytes decompressed, then the error
/// message when decompression failed.
pub open spec fn gz_raw(data: Seq<u8>) -> Seq<u8> {
    gunzip_outcome(data).0 + match gunzip_outcome(data).1 {
        Some(e) => e,
        None => Seq::empty(),
    }
}

/// The fields before the context: time, level and, if the record has one, the
/// location; gives the text and the offset of the message.
pub open spec fn tx_head(s: Seq<u8>, format_time: bool, t: Text) -> Option<(Text, int)> {
    let time = le_at(s, 2, 8);
    let lvl = s[10];
    let t0 = tpush(t, seq![123u8] + lit(JSON_TIME) + seq![58u8]);
    let t1 = if format_time {
        tpush(tslot(tpush(t0, seq![34u8]), Fill::Time(time as i64)), seq![34u8])
    } else {
        tpush(t0, decimal(time))
    };
    let t2 = tpush(t1, seq![44u8] + lit(JSON_LEVEL) + seq![58u8] + level_json(lvl) + seq![44u8]);
    if s[11] != 0 {
        match str_at(s, 11) {
            Some((a, b)) => match uvarint_at(s, b) {
                Some((line, n)) => Some((
                    tpush(t2, lit(JSON_LOCATION) + seq![58u8, 34u8] + json_string(s.subrange(a, b)) + decimal(line as nat) + seq![44u8]),
                    b + n,
                )),
                None => None,
            },
            None => None,
        }
    } else {
        Some((t2, 12))
    }
}

/// A record (without its framing) as one JSON object, written after `t`: the head
/// fields, the message (for a panic the decompressed stack trace, as it is), then
/// the context elements; `None` marks a record that runs short.
pub open spec fn tx_record(s: Seq<u8>, format_time: bool, t: Text) -> Result<TxState, ErrorLogParse> {
    if s.len() < 12 {
        Err(ErrorLogParse::RecordTruncated)
    } else {
        match tx_head(s, format_time, t) {
            None => Err(ErrorLogParse::RecordTruncated),
            Some((t3, off)) => match str_at(s, off) {
                None => Err(ErrorLogParse::RecordTruncated),
                Some((ma, mb)) => {
                    let t4 = if s[10] != level::PANIC {
                        tpush(t3, lit(JSON_MESSAGE) + seq![58u8] + json_string(s.subrange(ma, mb)))
                    } else {
                        tpush(t3, lit(JSON_STACKTRACE) + seq![58u8] + gz_raw(s.subrange(ma, mb)))
                    };
                    let init = TxState {
                        off: mb,
                        out: t4.out,
                        slots: t4.slots,
                        depth: 0,
                        old: true,
                        embed: false,
                        err_text: (0, 0),
                        frags: Seq::empty(),
                    };
                    match tx_run(s, init) {
                        Ok(st) => Ok(txout(st, seq![125u8])),
                        Err(e) => Err(e),
                    }
                },
            },
        }
    }
}

/// Transforming the framed record at the start of `src`: the record read from
/// its framing, its version checked, then the record written as JSON (with places
/// counted from the start of the JSON text); gives the JSON, its places and the
/// offset of the data after the record.
pub open spec fn transform_spec(src: Seq<u8>, max_log_size: usize, format_time: bool) -> Result<(TxState, int), ErrorLogParse> {
    match header_spec(src, max_log_size) {
        Err(e) => Err(e),
        Ok((start, end)) => {
            let rec = src.subrange(start, end);
            if rec.len() < 2 {
                Err(ErrorLogParse::RecordTruncated)
            } else if le_at(rec, 0, 2) != 1 {
                Err(ErrorLogParse::RecordVersionNotSupported(le_at(rec, 0, 2) as u16))
            } else {
                match tx_record(rec, format_time, Text { out: Seq::empty(), slots: Seq::empty() }) {
                    Ok(st) => Ok((st, end)),
                    Err(e) => Err(e),
                }
            }
        },
    }
}

/// Records in a row are transformed one per call: for a framed record followed by
/// anything, the transformation is that of the record alone (it does not depend on
/// what follows), and what it hands back is exactly what follows.
pub proof fn law_transform_one_frame(rec: Seq<u8>, rest: Seq<u8>, max_log_size: usize, format_time: bool)
    requires
        rec.len() <= max_log_size,
    ensures
        ({
            let src = frame_header(rec) + rec + rest;
            &&& transform_spec(src, max_log_size, format_time) matches Ok((st, end)) ==>
                src.subrange(end, src.len() as int) == rest
            &&& transform_spec(src, max_log_size, format_time)
                == transform_spec(frame_header(rec) + rec, max_log_size, format_time)
        }),
{
    let h = frame_header(rec);
    let src = h + rec + rest;
    law_frame_roundtrip(rec, rest, max_log_size);
    law_frame_roundtrip(rec, Seq::empty(), max_log_size);
    assert(h + rec + Seq::<u8>::empty() =~= h + rec);
    assert(src.subrange(h.len() as int, (h.len() + rec.len()) as int) =~= rec);
    assert((h + rec).subrange(h.len() as int, (h.len() + rec.len()) as int) =~= rec);
    assert(src.subrange((h.len() + rec.len()) as int, src.len() as int) =~= rest);
}

/// Transforms log records into plain JSON objects.
pub struct LogTransfomer {
    pub buf: Vec<u8>,
    pub err_frags: Vec<(usize, usize)>,
    pub fmtbuf: Vec<u8>,
    pub max_log_size: usize,
    /// Whether times are written as local civil time rather than as nanoseconds.
    pub format_time: bool,
    /// The places left for the caller's texts, in the order of their positions.
    pub slots: Vec<Slot>,
}

/// The executable counterpart of the scalar parts of [TxState].
#[derive(Debug, Clone, Copy)]
pub struct TxCursor {
    pub off: usize,
    pub depth: usize,
    pub old: bool,
    pub embed: bool,
    pub err_text: (usize, usize),
}

/// The transformation state that a cursor, a text, places and fragments make.
pub open spec fn txstate(c: TxCursor, out: Seq<u8>, slots: Seq<Slot>, frags: Seq<(usize, usize)>) -> TxState {
    TxState {
        off: c.off as int,
        out,
        slots,
        depth: c.depth as nat,
        old: c.old,
        embed: c.embed,
        err_text: c.err_text,
        frags,
    }
}

/// Reads the string at `off`: its start and end.
fn read_str_at(src: &[u8], off: usize) -> (r: Option<(usize, usize)>)
    ensures
        match str_at(src@, off as int) {
            Some((a, b)) => r matches Some((x, y)) && x as int == a && y as int == b,
            None => r is None,
        },
        r matches Some((a, b)) ==> a <= b <= src@.len(),
{
    match read_uvarint_checked(src, off) {
        Some((len, n)) => {
            let start = off + n;
            if len > (src.len() - start) as u64 {
                return None;
            }
            Some((start, start + len as usize))
        },
        None => None,
    }
}

/// Writes the key at `off`; gives the offset after it.
fn tx_key_exec(dst: &mut Vec<u8>, src: &[u8], off: usize) -> (r: Result<usize, ErrorLogParse>)
    ensures
        match tx_key(src@, off as int) {
            Ok((text, off2)) => r == Ok::<usize, ErrorLogParse>(off2 as usize) && final(dst)@ == old(dst)@ + text,
            Err(e) => r == Err::<usize, ErrorLogParse>(e) && final(dst)@ == old(dst)@,
        },
{
    if off >= src.len() {
        return Err(ErrorLogParse::RecordTruncated);
    }
    if src[off] != 0 {
        match read_str_at(src, off) {
            Some((a, b)) => {
                push_json_string(dst, vstd::slice::slice_subrange(src, a, b));
                Ok(b)
            },
            None => Err(ErrorLogParse::RecordTruncated),
        }
    } else {
        match read_uvarint_checked(src, off + 1) {
            Some((v, n)) => match predefined_key_safe(v as u32) {
                Ok(name) => {
                    dst.push(34);
                    append_str(dst, name);
                    dst.push(34);
                    Ok(off + 1 + n)
                },
                Err(e) => Err(e),
            },
            None => Err(ErrorLogParse::RecordTruncated),
        }
    }
}

impl LogTransfomer {
    /// Writes one item of kind `k` (a slice kind) at `p`; gives the offset after it.
    fn tx_item_exec(&mut self, dst: &mut Vec<u8>, src: &[u8], k: ValueKind, p: usize) -> (r: Option<usize>)
        requires
            src@.len() <= usize::MAX / 4,
        ensures
            match tx_item(k, src@, Text { out: old(dst)@, slots: old(self).slots@ }, p as int) {
                Some((t, p2)) => r matches Some(q) && q as int == p2 && final(dst)@ == t.out && final(self).slots@ == t.slots,
                None => r is None,
            },
            *final(self) == (LogTransfomer { slots: final(self).slots, ..*old(self) }),
            slots_in_order(old(self).slots@, old(dst)@.len()) ==> slots_in_order(final(self).slots@, final(dst)@.len()),
    {
        reveal(tx_item);
        if k == ValueKind::SliceString {
            return match read_str_at(src, p) {
                Some((a, b)) => {
                    push_json_string(dst, vstd::slice::slice_subrange(src, a, b));
                    Some(b)
                },
                None => None,
            };
        }
        let w: usize = match k {
            ValueKind::SliceBool | ValueKind::SliceI8 | ValueKind::SliceU8 => 1,
            ValueKind::SliceI16 | ValueKind::SliceU16 => 2,
            ValueKind::SliceI32 | ValueKind::SliceU32 | ValueKind::SliceF32 => 4,
            ValueKind::SliceI64 | ValueKind::SliceU64 | ValueKind::SliceF64 => 8,
            _ => 0,
        };
        if w == 0 || p > src.len() || w > src.len() - p {
            return None;
        }
        let v = read_le(src, p, w);
        proof {
            crate::pointer_ext::lemma_le_at_bound(src@, p as int, w as nat);
            reveal_with_fuel(crate::pointer_ext::p256, 9);
        }
        match k {
            ValueKind::SliceBool => {
                if v != 0 {
                    append_str(dst, "true");
                } else {
                    append_str(dst, "false");
                }
            },
            ValueKind::SliceI8 => append_itoa(dst, crate::log_render_json::signed_of(v, 0x80)),
            ValueKind::SliceI16 => append_itoa(dst, crate::log_render_json::signed_of(v, 0x8000)),
            ValueKind::SliceI32 => append_itoa(dst, crate::log_render_json::signed_of(v, 0x8000_0000)),
            ValueKind::SliceI64 => append_itoa(dst, crate::log_render_json::signed_of(v, 0x8000_0000_0000_0000)),
            ValueKind::SliceF32 => {
                if v / 0x80_0000 % 0x100 == 0xFF && v % 0x80_0000 != 0 {
                    dst.push(34);
                    append_str(dst, "NaN");
                    dst.push(34);
                } else {
                    self.slots.push(Slot { at: dst.len(), fill: Fill::F32(v as u32) });
                }
            },
            ValueKind::SliceF64 => {
                if v / 0x10_0000_0000_0000 % 0x800 == 0x7FF && v % 0x10_0000_0000_0000 != 0 {
                    dst.push(34);
                    append_str(dst, "NaN");
                    dst.push(34);
                } else {
                    self.slots.push(Slot { at: dst.len(), fill: Fill::F64(v) });
                }
            },
            _ => append_utoa(dst, v),
        }
        Some(p + w)
    }
}


/// Once the items run past the end, so do all longer runs.
proof fn lemma_tx_items_none(k: ValueKind, s: Seq<u8>, t: Text, p: int, n: nat, m: nat)
    requires
        n <= m,
        tx_items(k, s, t, p, n) is None,
    ensures
        tx_items(k, s, t, p, m) is None,
    decreases m - n,
{
    if n < m {
        lemma_tx_items_none(k, s, t, p, n, (m - 1) as nat);
    }
}

impl LogTransfomer {
    /// Writes `count` items of kind `k` from `p`, separated by commas.
    fn tx_items_exec(&mut self, dst: &mut Vec<u8>, src: &[u8], k: ValueKind, p0: usize, count: u64) -> (r: Option<usize>)
        requires
            src@.len() <= usize::MAX / 4,
        ensures
            match tx_items(k, src@, Text { out: old(dst)@, slots: old(self).slots@ }, p0 as int, count as nat) {
                Some((t, p2)) => r matches Some(q) && q as int == p2 && final(dst)@ == t.out && final(self).slots@ == t.slots,
                None => r is None,
            },
            *final(self) == (LogTransfomer { slots: final(self).slots, ..*old(self) }),
            slots_in_order(old(self).slots@, old(dst)@.len()) ==> slots_in_order(final(self).slots@, final(dst)@.len()),
    {
        let ghost t0 = Text { out: dst@, slots: self.slots@ };
        let ghost r0 = *self;
        let mut p = p0;
        let mut i: u64 = 0;
        while i < count
            invariant
                src@.len() <= usize::MAX / 4,
                i <= count,
                tx_items(k, src@, t0, p0 as int, i as nat) is Some,
                tx_items(k, src@, t0, p0 as int, i as nat).unwrap().0 == (Text { out: dst@, slots: self.slots@ }),
                tx_items(k, src@, t0, p0 as int, i as nat).unwrap().1 == p as int,
                *self == (LogTransfomer { slots: self.slots, ..r0 }),
                r0 == *old(self),
                t0 == (Text { out: old(dst)@, slots: old(self).slots@ }),
                slots_in_order(old(self).slots@, old(dst)@.len()) ==> slots_in_order(self.slots@, dst@.len()),
            decreases count - i,
        {
            let ghost t1 = Text { out: dst@, slots: self.slots@ };
            if i > 0 {
                dst.push(44);
            }
            let ghost t2 = Text { out: dst@, slots: self.slots@ };
            assert(t2 == (if i + 1 > 1 { tpush(t1, seq![44u8]) } else { t1 }));
            let ghost pold = p;
            assert(tx_items(k, src@, t0, p0 as int, (i + 1) as nat) == tx_item(k, src@, t2, pold as int));
            match self.tx_item_exec(dst, src, k, p) {
                Some(q) => {
                    p = q;
                },
                None => {
                    proof {
                        lemma_tx_items_none(k, src@, t0, p0 as int, (i + 1) as nat, count as nat);
                    }
                    return None;
                },
            }
            i += 1;
        }
        Some(p)
    }
}


/// Whether `k` is a slice kind.
fn is_slice_value_exec(k: ValueKind) -> (b: bool)
    ensures
        b == is_slice_value(k),
{
    match k {
        ValueKind::SliceBool | ValueKind::SliceI8 | ValueKind::SliceI16 | ValueKind::SliceI32
        | ValueKind::SliceI64 | ValueKind::SliceU8 | ValueKind::SliceU16 | ValueKind::SliceU32
        | ValueKind::SliceU64 | ValueKind::SliceF32 | ValueKind::SliceF64 | ValueKind::SliceString => true,
        _ => false,
    }
}

/// The single-item kind that a scalar kind is written as.
fn item_kind_exec(k: ValueKind) -> (r: Option<ValueKind>)
    ensures
        r == item_kind(k),
{
    match k {
        ValueKind::Bool => Some(ValueKind::SliceBool),
        ValueKind::Time => Some(ValueKind::SliceU64),
        ValueKind::I8 => Some(ValueKind::SliceI8),
        ValueKind::I16 => Some(ValueKind::SliceI16),
        ValueKind::I32 => Some(ValueKind::SliceI32),
        ValueKind::I64 => Some(ValueKind::SliceI64),
        ValueKind::U8 => Some(ValueKind::SliceU8),
        ValueKind::U16 => Some(ValueKind::SliceU16),
        ValueKind::U32 => Some(ValueKind::SliceU32),
        ValueKind::U64 => Some(ValueKind::SliceU64),
        ValueKind::Float32 => Some(ValueKind::SliceF32),
        ValueKind::Float64 => Some(ValueKind::SliceF64),
        ValueKind::String | ValueKind::ErrorRaw => Some(ValueKind::SliceString),
        _ => None,
    }
}

impl LogTransfomer {
    /// Writes a value that is neither a plain item nor a slice.
    #[verifier::spinoff_prover]
    fn tx_value_other_exec(&mut self, dst: &mut Vec<u8>, src: &[u8], c: &mut TxCursor, k: ValueKind, off: usize)
        -> (r: Result<(), ErrorLogParse>)
        requires
            src@.len() <= usize::MAX / 4,
            old(c).depth < usize::MAX,
            off <= src@.len(),
        ensures
            match tx_value_other(src@, txstate(*old(c), old(dst)@, old(self).slots@, old(self).err_frags@), k, off as int) {
                Ok(st) => r is Ok && txstate(*final(c), final(dst)@, final(self).slots@, final(self).err_frags@) == st,
                Err(e) => r == Err::<(), ErrorLogParse>(e),
            },
            *final(self) == (LogTransfomer { slots: final(self).slots, err_frags: final(self).err_frags, ..*old(self) }),
            final(c).depth <= old(c).depth + 1,
            slots_in_order(old(self).slots@, old(dst)@.len()) ==> slots_in_order(final(self).slots@, final(dst)@.len()),
    {
        match k {
            ValueKind::Duration => {
                if off > src.len() || 8 > src.len() - off {
                    return Err(ErrorLogParse::RecordTruncated);
                }
                let v = read_le(src, off, 8);
                dst.push(34);
                render_go_duration(dst, v);
                dst.push(34);
                c.off = off + 8;
                Ok(())
            },
            ValueKind::Ivar => match read_uvarint_checked(src, off) {
                Some((v, n)) => {
                    append_itoa(dst, crate::log_render_json::signed_of(v, 0x8000_0000_0000_0000));
                    c.off = off + n;
                    Ok(())
                },
                None => Err(ErrorLogParse::RecordTruncated),
            },
            ValueKind::Uvar => match read_uvarint_checked(src, off) {
                Some((v, n)) => {
                    append_utoa(dst, v);
                    c.off = off + n;
                    Ok(())
                },
                None => Err(ErrorLogParse::RecordTruncated),
            },
            ValueKind::Bytes => match read_str_at(src, off) {
                Some((a, b)) => {
                    dst.push(34);
                    base64_append(dst, vstd::slice::slice_subrange(src, a, b));
                    dst.push(34);
                    c.off = b;
                    Ok(())
                },
                None => Err(ErrorLogParse::RecordTruncated),
            },
            ValueKind::Group => {
                dst.push(123);
                c.old = false;
                c.off = off;
                Ok(())
            },
            ValueKind::Error => {
                append_str(dst, JSON_ERROR_CTX);
                c.old = false;
                c.embed = false;
                c.depth = c.depth + 1;
                self.err_frags.clear();
                c.off = off;
                Ok(())
            },
            ValueKind::ErrorEmbed => match read_str_at(src, off) {
                Some((a, b)) => {
                    append_str(dst, JSON_ERROR_CTX);
                    c.old = false;
                    c.embed = true;
                    c.depth = c.depth + 1;
                    c.err_text = (b - a, a);
                    c.off = b;
                    Ok(())
                },
                None => Err(ErrorLogParse::RecordTruncated),
            },
            _ => Err(ErrorLogParse::RecordContextNodeType(k.code())),
        }
    }

    /// Writes the value of an element of kind `k` that starts at `off`.
    #[verifier::spinoff_prover]
    fn tx_value_exec(&mut self, dst: &mut Vec<u8>, src: &[u8], c: &mut TxCursor, k: ValueKind, off: usize)
        -> (r: Result<(), ErrorLogParse>)
        requires
            src@.len() <= usize::MAX / 4,
            old(c).depth < usize::MAX,
            off <= src@.len(),
        ensures
            match tx_value(src@, txstate(*old(c), old(dst)@, old(self).slots@, old(self).err_frags@), k, off as int) {
                Ok(st) => r is Ok && txstate(*final(c), final(dst)@, final(self).slots@, final(self).err_frags@) == st,
                Err(e) => r == Err::<(), ErrorLogParse>(e),
            },
            *final(self) == (LogTransfomer { slots: final(self).slots, err_frags: final(self).err_frags, ..*old(self) }),
            final(c).depth <= old(c).depth + 1,
            slots_in_order(old(self).slots@, old(dst)@.len()) ==> slots_in_order(final(self).slots@, final(dst)@.len()),
    {
        reveal(tx_value);
        match item_kind_exec(k) {
            Some(ik) => {
                return match self.tx_item_exec(dst, src, ik, off) {
                    Some(q) => {
                        c.off = q;
                        Ok(())
                    },
                    None => Err(ErrorLogParse::RecordTruncated),
                };
            },
            None => {},
        }
        if is_slice_value_exec(k) {
            return match read_uvarint_checked(src, off) {
                Some((count, n)) => {
                    dst.push(91);
                    assert(Text { out: dst@, slots: self.slots@ } == tpush(Text { out: old(dst)@, slots: old(self).slots@ }, seq![91u8]));
                    match self.tx_items_exec(dst, src, k, off + n, count) {
                        Some(q) => {
                            let ghost before = dst@;
                            dst.push(93);
                            assert(dst@ =~= before + seq![93u8]);
                            c.off = q;
                            Ok(())
                        },
                        None => Err(ErrorLogParse::RecordTruncated),
                    }
                },
                None => Err(ErrorLogParse::RecordTruncated),
            };
        }
        self.tx_value_other_exec(dst, src, c, k, off)
    }
}


impl LogTransfomer {
    /// Writes the end of a group or of an error object.
    #[verifier::spinoff_prover]
    fn tx_group_end_exec(&mut self, dst: &mut Vec<u8>, src: &[u8], c: &mut TxCursor, off: usize)
        ensures
            txstate(*final(c), final(dst)@, final(self).slots@, final(self).err_frags@)
                == tx_group_end(src@, txstate(*old(c), old(dst)@, old(self).slots@, old(self).err_frags@), off as int),
            *final(self) == *old(self),
            slots_in_order(old(self).slots@, old(dst)@.len()) ==> slots_in_order(final(self).slots@, final(dst)@.len()),
    {
        c.off = off;
        c.old = true;
        if c.depth != 1 {
            dst.push(125);
            if c.depth != 0 {
                c.depth = c.depth - 1;
            }
            return;
        }
        c.depth = 0;
        dst.push(125);
        dst.push(44);
        append_str(dst, JSON_ERROR_TXT);
        let mut text: Vec<u8> = Vec::new();
        if c.embed {
            append(&mut text, crate::pointer_ext::sub_slice(src, c.err_text.1, c.err_text.0));
        } else {
            let len = self.err_frags.len();
            let mut i: usize = 0;
            while i < len
                invariant
                    i <= len == self.err_frags@.len(),
                    text@ == tree_errs_text(self.err_frags@, src@, i as nat),
                decreases len - i,
            {
                let (l, o) = self.err_frags[len - 1 - i];
                if i > 0 {
                    append_str(&mut text, ": ");
                }
                append(&mut text, crate::pointer_ext::sub_slice(src, o, l));
                i += 1;
            }
        }
        push_json_string(dst, text.as_slice());
        dst.push(125);
    }

    /// Writes an error stage element.
    #[verifier::spinoff_prover]
    fn tx_stage_exec(&mut self, dst: &mut Vec<u8>, src: &[u8], c: &mut TxCursor, off: usize) -> (r: Result<(), ErrorLogParse>)
        requires
            old(c).depth < usize::MAX,
        ensures
            match tx_stage(src@, txstate(*old(c), old(dst)@, old(self).slots@, old(self).err_frags@), off as int) {
                Ok(st) => r is Ok && txstate(*final(c), final(dst)@, final(self).slots@, final(self).err_frags@) == st,
                Err(e) => r == Err::<(), ErrorLogParse>(e),
            },
            *final(self) == (LogTransfomer { err_frags: final(self).err_frags, ..*old(self) }),
            final(c).depth <= old(c).depth + 1,
            slots_in_order(old(self).slots@, old(dst)@.len()) ==> slots_in_order(final(self).slots@, final(dst)@.len()),
    {
        match read_str_at(src, off) {
            Some((a, e)) => {
                let ghost st0 = txstate(*c, dst@, self.slots@, self.err_frags@);
                let ghost d0 = dst@;
                if c.old {
                    dst.push(44);
                }
                assert(dst@ =~= d0 + comma(st0));
                let mut text: Vec<u8> = Vec::new();
                append_str(&mut text, "NEW: ");
                append(&mut text, vstd::slice::slice_subrange(src, a, e));
                assert(text@ =~= lit("NEW: ") + src@.subrange(a as int, e as int));
                push_json_string(dst, text.as_slice());
                append_str(dst, ":{");
                assert(dst@ =~= d0 + (comma(st0) + json_string(lit("NEW: ") + src@.subrange(a as int, e as int)) + lit(":{")));
                if !c.embed {
                    self.err_frags.push((e - a, a));
                }
                c.old = false;
                c.depth = c.depth + 1;
                c.off = e;
                Ok(())
            },
            None => Err(ErrorLogParse::RecordTruncated),
        }
    }

    /// Keeps a fragment of an error text.
    #[verifier::spinoff_prover]
    fn tx_foreign_exec(&mut self, src: &[u8], c: &mut TxCursor, off: usize) -> (r: Result<(), ErrorLogParse>)
        ensures
            match tx_foreign(src@, txstate(*old(c), Seq::empty(), old(self).slots@, old(self).err_frags@), off as int) {
                Ok(st) => r is Ok && txstate(*final(c), Seq::empty(), final(self).slots@, final(self).err_frags@) == st,
                Err(e) => r == Err::<(), ErrorLogParse>(e),
            },
            *final(self) == (LogTransfomer { err_frags: final(self).err_frags, ..*old(self) }),
            final(c).depth == old(c).depth,
    {
        let ghost st0 = txstate(*c, Seq::empty(), self.slots@, self.err_frags@);
        match read_str_at(src, off) {
            Some((a, e)) => {
                if !c.embed {
                    self.err_frags.push((e - a, a));
                }
                c.off = e;
                Ok(())
            },
            None => Err(ErrorLogParse::RecordTruncated),
        }
    }

    /// Writes an error location.
    #[verifier::spinoff_prover]
    fn tx_location_exec(&self, dst: &mut Vec<u8>, src: &[u8], c: &mut TxCursor, off: usize) -> (r: Result<(), ErrorLogParse>)
        ensures
            match tx_location(src@, txstate(*old(c), old(dst)@, self.slots@, self.err_frags@), off as int) {
                Ok(st) => r is Ok && txstate(*final(c), final(dst)@, self.slots@, self.err_frags@) == st,
                Err(e) => r == Err::<(), ErrorLogParse>(e),
            },
            final(c).depth == old(c).depth,
            final(dst)@.len() >= old(dst)@.len(),
    {
        match read_str_at(src, off) {
            Some((a, e)) => match read_uvarint_checked(src, e) {
                Some((line, n)) => {
                    let ghost st0 = txstate(*c, dst@, self.slots@, self.err_frags@);
                    let ghost d0 = dst@;
                    if c.old {
                        dst.push(44);
                    }
                    assert(dst@ =~= d0 + comma(st0));
                    append_str(dst, JSON_ERROR_LOC);
                    let mut file: Vec<u8> = Vec::new();
                    push_json_string(&mut file, vstd::slice::slice_subrange(src, a, e));
                    let flen = file.len() - 1;
                    assert(file@.subrange(0, flen as int) =~= file@.drop_last());
                    append(dst, vstd::slice::slice_subrange(file.as_slice(), 0, flen));
                    dst.push(58);
                    append_utoa(dst, line);
                    dst.push(34);
                    assert(dst@ =~= d0 + (comma(st0) + lit(JSON_ERROR_LOC) + json_string(src@.subrange(a as int, e as int)).drop_last()
                        + seq![58u8] + decimal(line as nat) + seq![34u8]));
                    c.old = true;
                    c.off = e + n;
                    Ok(())
                },
                None => Err(ErrorLogParse::RecordTruncated),
            },
            None => Err(ErrorLogParse::RecordTruncated),
        }
    }

    /// Writes an element with a key.
    #[verifier::spinoff_prover]
    fn tx_keyed_exec(&mut self, dst: &mut Vec<u8>, src: &[u8], c: &mut TxCursor, k: ValueKind, off: usize)
        -> (r: Result<(), ErrorLogParse>)
        requires
            src@.len() <= usize::MAX / 4,
            old(c).depth < usize::MAX,
        ensures
            match tx_keyed(src@, txstate(*old(c), old(dst)@, old(self).slots@, old(self).err_frags@), k, off as int) {
                Ok(st) => r is Ok && txstate(*final(c), final(dst)@, final(self).slots@, final(self).err_frags@) == st,
                Err(e) => r == Err::<(), ErrorLogParse>(e),
            },
            *final(self) == (LogTransfomer { slots: final(self).slots, err_frags: final(self).err_frags, ..*old(self) }),
            final(c).depth <= old(c).depth + 1,
            slots_in_order(old(self).slots@, old(dst)@.len()) ==> slots_in_order(final(self).slots@, final(dst)@.len()),
    {
        let ghost st0 = txstate(*c, dst@, self.slots@, self.err_frags@);
        let ghost d0 = dst@;
        if c.old {
            dst.push(44);
        }
        assert(dst@ =~= d0 + comma(st0));
        match tx_key_exec(dst, src, off) {
            Err(e) => Err(e),
            Ok(off2) => {
                dst.push(58);
                assert(dst@ =~= d0 + (comma(st0) + tx_key(src@, off as int).unwrap().0 + seq![58u8]));
                c.old = true;
                proof {
                    lemma_tx_key_bound(src@, off as int);
                }
                self.tx_value_exec(dst, src, c, k, off2)
            },
        }
    }

    /// Writes one element of the context, from `c.off`.
    #[verifier::spinoff_prover]
    fn tx_step_exec(&mut self, dst: &mut Vec<u8>, src: &[u8], c: &mut TxCursor) -> (r: Result<(), ErrorLogParse>)
        requires
            src@.len() <= usize::MAX / 4,
            old(c).off < src@.len(),
            old(c).depth < usize::MAX,
        ensures
            match tx_step(src@, txstate(*old(c), old(dst)@, old(self).slots@, old(self).err_frags@)) {
                Ok(st) => r is Ok && txstate(*final(c), final(dst)@, final(self).slots@, final(self).err_frags@) == st,
                Err(e) => r == Err::<(), ErrorLogParse>(e),
            },
            *final(self) == (LogTransfomer { slots: final(self).slots, err_frags: final(self).err_frags, ..*old(self) }),
            final(c).depth <= old(c).depth + 1,
            slots_in_order(old(self).slots@, old(dst)@.len()) ==> slots_in_order(final(self).slots@, final(dst)@.len()),
    {
        reveal(tx_step);
        let b = src[c.off];
        let off = c.off + 1;
        match ValueKind::from_code(b) {
            None => Err(ErrorLogParse::RecordContextNodeType(b)),
            Some(k) => match k {
                ValueKind::JustContextNode => {
                    if c.old {
                        dst.push(44);
                    }
                    append_str(dst, "\"CTX\":{");
                    c.old = false;
                    c.depth = c.depth + 1;
                    c.off = off;
                    Ok(())
                },
                ValueKind::PhantomContextNode => {
                    c.off = off;
                    Ok(())
                },
                ValueKind::NewNode | ValueKind::WrapNode => self.tx_stage_exec(dst, src, c, off),
                ValueKind::ForeignErrorText => self.tx_foreign_exec(src, c, off),
                ValueKind::LocationNode => self.tx_location_exec(dst, src, c, off),
                ValueKind::GroupEnd => {
                    self.tx_group_end_exec(dst, src, c, off);
                    Ok(())
                },
                _ => self.tx_keyed_exec(dst, src, c, k, off),
            },
        }
    }
}


/// Writes the level value of a record.
fn write_level_json(dst: &mut Vec<u8>, lvl: u8)
    ensures
        final(dst)@ == old(dst)@ + level_json(lvl),
{
    if lvl == level::TRACE {
        append_str(dst, JSON_LEVEL_TRACE);
    } else if lvl == level::DEBUG {
        append_str(dst, JSON_LEVEL_DEBUG);
    } else if lvl == level::INFO {
        append_str(dst, JSON_LEVEL_INFO);
    } else if lvl == level::WARN {
        append_str(dst, JSON_LEVEL_WARN);
    } else if lvl == level::ERROR {
        append_str(dst, JSON_LEVEL_ERROR);
    } else if lvl == level::PANIC {
        append_str(dst, JSON_LEVEL_PANIC);
    } else {
        dst.push(34);
        append_str(dst, JSON_LEVEL_UNKNOWN);
        dst.push(40);
        append_utoa(dst, lvl as u64);
        dst.push(41);
        dst.push(34);
    }
}

impl LogTransfomer {
    /// A transformer with a 1 MiB record limit that writes times as nanoseconds.
    pub fn new() -> (t: Self)
        ensures
            t.buf@ == Seq::<u8>::empty(),
            t.err_frags@ == Seq::<(usize, usize)>::empty(),
            t.fmtbuf@ == Seq::<u8>::empty(),
            t.max_log_size == 1024 * 1024,
            !t.format_time,
            t.slots@ == Seq::<Slot>::empty(),
    {
        LogTransfomer {
            buf: Vec::with_capacity(4096),
            err_frags: Vec::with_capacity(16),
            fmtbuf: Vec::with_capacity(4096),
            max_log_size: 1 * 1024 * 1024,
            format_time: false,
            slots: Vec::new(),
        }
    }

    /// Writes the context elements from `c.off` to the end of the record.
    #[verifier::spinoff_prover]
    fn tx_ctx(&mut self, dst: &mut Vec<u8>, src: &[u8], c: &mut TxCursor) -> (r: Result<(), ErrorLogParse>)
        requires
            src@.len() <= usize::MAX / 4,
            old(c).depth <= old(c).off <= src@.len(),
        ensures
            match tx_run(src@, txstate(*old(c), old(dst)@, old(self).slots@, old(self).err_frags@)) {
                Ok(st) => r is Ok && txstate(*final(c), final(dst)@, final(self).slots@, final(self).err_frags@) == st,
                Err(e) => r == Err::<(), ErrorLogParse>(e),
            },
            *final(self) == (LogTransfomer { slots: final(self).slots, err_frags: final(self).err_frags, ..*old(self) }),
            slots_in_order(old(self).slots@, old(dst)@.len()) ==> slots_in_order(final(self).slots@, final(dst)@.len()),
    {
        let ghost init = txstate(*c, dst@, self.slots@, self.err_frags@);
        let ghost r0 = *self;
        while c.off < src.len()
            invariant
                src@.len() <= usize::MAX / 4,
                c.depth <= c.off <= src@.len(),
                tx_run(src@, txstate(*c, dst@, self.slots@, self.err_frags@)) == tx_run(src@, init),
                *self == (LogTransfomer { slots: self.slots, err_frags: self.err_frags, ..r0 }),
                r0 == *old(self),
                init == txstate(*old(c), old(dst)@, old(self).slots@, old(self).err_frags@),
                slots_in_order(old(self).slots@, old(dst)@.len()) ==> slots_in_order(self.slots@, dst@.len()),
            decreases src@.len() - c.off,
        {
            let ghost before = txstate(*c, dst@, self.slots@, self.err_frags@);
            let off0 = c.off;
            match self.tx_step_exec(dst, src, c) {
                Err(e) => {
                    return Err(e);
                },
                Ok(()) => {},
            }
            if c.off <= off0 || c.off > src.len() {
                return Err(ErrorLogParse::RecordTruncated);
            }
        }
        Ok(())
    }

    /// Writes the fields before the message; gives the offset of the message.
    #[verifier::spinoff_prover]
    #[verifier::rlimit(40)]
    fn tx_head_exec(&mut self, dst: &mut Vec<u8>, src: &[u8]) -> (r: Option<usize>)
        requires
            src@.len() >= 12,
        ensures
            match tx_head(src@, old(self).format_time, Text { out: old(dst)@, slots: old(self).slots@ }) {
                Some((t, off)) => r matches Some(o) && o as int == off && final(dst)@ == t.out && final(self).slots@ == t.slots,
                None => r is None,
            },
            r matches Some(o) ==> o <= src@.len(),
            *final(self) == (LogTransfomer { slots: final(self).slots, ..*old(self) }),
            slots_in_order(old(self).slots@, old(dst)@.len()) ==> slots_in_order(final(self).slots@, final(dst)@.len()),
    {
        let ghost t = Text { out: dst@, slots: self.slots@ };
        let time = read_le(src, 2, 8);
        let lvl = src[10];
        dst.push(123);
        append_str(dst, JSON_TIME);
        dst.push(58);
        let ghost t0 = Text { out: dst@, slots: self.slots@ };
        assert(t0 == tpush(t, seq![123u8] + lit(JSON_TIME) + seq![58u8]));
        if self.format_time {
            dst.push(34);
            self.slots.push(Slot { at: dst.len(), fill: Fill::Time(time as i64) });
            dst.push(34);
        } else {
            append_utoa(dst, time);
        }
        let ghost t1 = Text { out: dst@, slots: self.slots@ };
        assert(t1 == (if self.format_time {
            tpush(tslot(tpush(t0, seq![34u8]), Fill::Time(time as i64)), seq![34u8])
        } else {
            tpush(t0, decimal(time as nat))
        }));
        dst.push(44);
        append_str(dst, JSON_LEVEL);
        dst.push(58);
        write_level_json(dst, lvl);
        dst.push(44);
        let ghost t2 = Text { out: dst@, slots: self.slots@ };
        assert(t2 == tpush(t1, seq![44u8] + lit(JSON_LEVEL) + seq![58u8] + level_json(lvl) + seq![44u8]));
        if src[11] != 0 {
            match read_str_at(src, 11) {
                Some((a, b)) => match read_uvarint_checked(src, b) {
                    Some((line, n)) => {
                        append_str(dst, JSON_LOCATION);
                        dst.push(58);
                        dst.push(34);
                        push_json_string(dst, vstd::slice::slice_subrange(src, a, b));
                        append_utoa(dst, line);
                        dst.push(44);
                        assert(dst@ =~= t2.out + (lit(JSON_LOCATION) + seq![58u8, 34u8] + json_string(src@.subrange(a as int, b as int))
                            + decimal(line as nat) + seq![44u8]));
                        Some(b + n)
                    },
                    None => None,
                },
                None => None,
            }
        } else {
            Some(12)
        }
    }

    /// Writes a record (without its framing) as one JSON object.
    #[verifier::spinoff_prover]
    fn tx_record_exec(&mut self, dst: &mut Vec<u8>, src: &[u8]) -> (r: Result<(), ErrorLogParse>)
        requires
            src@.len() <= usize::MAX / 4,
        ensures
            match tx_record(src@, old(self).format_time, Text { out: old(dst)@, slots: old(self).slots@ }) {
                Ok(st) => r is Ok && final(dst)@ == st.out && final(self).slots@ == st.slots,
                Err(e) => r == Err::<(), ErrorLogParse>(e),
            },
            final(self).max_log_size == old(self).max_log_size,
            final(self).format_time == old(self).format_time,
            slots_in_order(old(self).slots@, old(dst)@.len()) ==> slots_in_order(final(self).slots@, final(dst)@.len()),
    {
        if src.len() < 12 {
            return Err(ErrorLogParse::RecordTruncated);
        }
        self.err_frags.clear();
        let lvl = src[10];
        let off = match self.tx_head_exec(dst, src) {
            Some(o) => o,
            None => {
                return Err(ErrorLogParse::RecordTruncated);
            },
        };
        let (ma, mb) = match read_str_at(src, off) {
            Some(x) => x,
            None => {
                return Err(ErrorLogParse::RecordTruncated);
            },
        };
        let ghost d3 = dst@;
        let msg = vstd::slice::slice_subrange(src, ma, mb);
        if lvl != level::PANIC {
            append_str(dst, JSON_MESSAGE);
            dst.push(58);
            push_json_string(dst, msg);
            assert(dst@ =~= d3 + (lit(JSON_MESSAGE) + seq![58u8] + json_string(src@.subrange(ma as int, mb as int))));
        } else {
            append_str(dst, JSON_STACKTRACE);
            dst.push(58);
            let (data, err) = crate::log_render::gunzip(msg);
            append(dst, data.as_slice());
            match err {
                Some(e) => append(dst, e.as_slice()),
                None => {},
            }
            assert(dst@ =~= d3 + (lit(JSON_STACKTRACE) + seq![58u8] + gz_raw(src@.subrange(ma as int, mb as int))));
        }
        let mut c = TxCursor { off: mb, depth: 0, old: true, embed: false, err_text: (0, 0) };
        match self.tx_ctx(dst, src, &mut c) {
            Err(e) => {
                return Err(e);
            },
            Ok(()) => {},
        }
        let ghost d5 = dst@;
        dst.push(125);
        assert(dst@ =~= d5 + seq![125u8]);
        Ok(())
    }

    /// Appends `text` with its time places filled in as local civil time; the other
    /// places stay in `slots`, counted from the start of `text`.
    fn put_times(&mut self, dst: &mut Vec<u8>, text: &[u8])
        requires
            slots_in_order(old(self).slots@, text@.len()),
        ensures
            exists|ps: Seq<TimeParts>| times_of_places(old(self).slots@, ps)
                && final(dst)@ == old(dst)@ + times_filled(text@, old(self).slots@, ps).0
                && final(self).slots@ == times_filled(text@, old(self).slots@, ps).1,
            slots_in_order(final(self).slots@, (final(dst)@.len() - old(dst)@.len()) as nat),
            *final(self) == (LogTransfomer { slots: final(self).slots, ..*old(self) }),
    {
        match fill_times(text, self.slots.as_slice()) {
            Some((filled, places)) => {
                append(dst, filled.as_slice());
                self.slots = places;
            },
            None => {
                assert(false);
            },
        }
    }

    /// Transforms the framed record at the start of `src` into one JSON object
    /// appended to `dst`; gives the data after the record. Times (when written as
    /// text) are filled in as local civil time; floating-point numbers are left as
    /// places in `slots`, counted from where the object starts in `dst`. On an error
    /// nothing is written and no place is left.
    #[verifier::spinoff_prover]
    #[verifier::rlimit(60)]
    pub fn transform_json<'a>(&mut self, dst: &mut Vec<u8>, src: &'a [u8]) -> (r: Result<&'a [u8], ErrorLogParse>)
        requires
            src@.len() <= usize::MAX / 4,
        ensures
            match transform_spec(src@, old(self).max_log_size, old(self).format_time) {
                Ok((st, end)) => r matches Ok(rest) && rest@ == src@.subrange(end, src@.len() as int)
                    && exists|ps: Seq<TimeParts>| times_of_places(st.slots, ps)
                        && final(dst)@ == old(dst)@ + times_filled(st.out, st.slots, ps).0
                        && final(self).slots@ == times_filled(st.out, st.slots, ps).1,
                Err(e) => r == Err::<&[u8], ErrorLogParse>(e) && final(dst)@ == old(dst)@
                    && final(self).slots@ == Seq::<Slot>::empty(),
            },
            slots_in_order(final(self).slots@, (final(dst)@.len() - old(dst)@.len()) as nat),
            r matches Ok(rest) ==> rest@.len() + 7 <= src@.len()
                && rest@ == src@.subrange(src@.len() - rest@.len(), src@.len() as int),
            final(self).max_log_size == old(self).max_log_size,
            final(self).format_time == old(self).format_time,
    {
        self.slots.clear();
        let (record, rest) = match log_parse_header(src, self.max_log_size) {
            Ok(x) => x,
            Err(e) => {
                return Err(e);
            },
        };
        if record.len() < 2 {
            return Err(ErrorLogParse::RecordTruncated);
        }
        let version = read_le(record, 0, 2);
        if version != 1 {
            return Err(ErrorLogParse::RecordVersionNotSupported(version as u16));
        }
        let mut out: Vec<u8> = Vec::new();
        match self.tx_record_exec(&mut out, record) {
            Err(e) => {
                self.slots.clear();
                Err(e)
            },
            Ok(()) => {
                let ghost slots0 = self.slots@;
                self.put_times(dst, out.as_slice());
                proof {
                    let ps = choose|ps: Seq<TimeParts>| times_of_places(slots0, ps)
                        && dst@ == old(dst)@ + times_filled(out@, slots0, ps).0
                        && self.slots@ == times_filled(out@, slots0, ps).1;
                    assert(times_of_places(slots0, ps));
                    let (st, _end) = transform_spec(src@, self.max_log_size, self.format_time).unwrap();
                    assert(st.out == out@ && st.slots == slots0);
                    assert(exists|qs: Seq<TimeParts>| times_of_places(st.slots, qs)
                        && dst@ == old(dst)@ + times_filled(st.out, st.slots, qs).0
                        && self.slots@ == times_filled(st.out, st.slots, qs).1);
                }
                proof {
                    law_header_split(src@, self.max_log_size);
                }
                Ok(rest)
            },
        }
    }
}

} // verus!
