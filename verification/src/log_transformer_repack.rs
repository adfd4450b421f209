//! Repacking framed log records: header fields and message kept, framed anew.
use vstd::prelude::*;
use crate::log_parse::{frame_header, header_spec, law_frame_roundtrip, log_parse_header, uvarint_at, write_record_header, ErrorLogParse};
use crate::log_parser_parse::{location_at, record_spec};
use crate::pointer_ext::{append, copy, copy_str, copy_uvarint, le_at, lemma_le_at_prefix, lemma_str_at_prefix, read_le, str_at};

verus! {

/// Repacks framed records.
pub struct LogTransformerRepack {
    pub buf: Vec<u8>,
    pub max_log_size: usize,
}

/// Where the message of the record `s` ends: after the version, time and level,
/// the location (a 0 byte, or a file name and a line) and the message.
pub open spec fn repack_end(s: Seq<u8>) -> Option<int> {
    if s.len() < 12 {
        None
    } else {
        let loc_end = if s[11] == 0 {
            Some(12int)
        } else {
            match str_at(s, 11) {
                Some((_a, b)) => match uvarint_at(s, b) {
                    Some((_line, n)) => Some(b + n),
                    None => None,
                },
                None => None,
            }
        };
        match loc_end {
            Some(off) => match str_at(s, off) {
                Some((_a, b)) => Some(b),
                None => None,
            },
            None => None,
        }
    }
}

/// The repacked form of the record `s`: its fields up to the end of the message;
/// the context is not carried over.
pub open spec fn repack_record(s: Seq<u8>) -> Result<Seq<u8>, ErrorLogParse> {
    match repack_end(s) {
        Some(end) => Ok(s.subrange(0, end)),
        None => Err(ErrorLogParse::RecordTruncated),
    }
}

/// Repacking the framed record at the start of `src`: the record read from its
/// framing, its version checked, its repacked form framed anew; gives the new frame
/// and the offset of the data after the record.
pub open spec fn repack_spec(src: Seq<u8>, max_log_size: usize) -> Result<(Seq<u8>, int), ErrorLogParse> {
    match header_spec(src, max_log_size) {
        Err(e) => Err(e),
        Ok((start, end)) => {
            let rec = src.subrange(start, end);
            if rec.len() < 2 {
                Err(ErrorLogParse::RecordTruncated)
            } else if le_at(rec, 0, 2) != 1 {
                Err(ErrorLogParse::RecordVersionNotSupported(le_at(rec, 0, 2) as u16))
            } else {
                match repack_record(rec) {
                    Ok(r) => Ok((frame_header(r) + r, end)),
                    Err(e) => Err(e),
                }
            }
        },
    }
}

impl LogTransformerRepack {
    /// A repacker with a 1 MiB record limit.
    pub fn new() -> (t: Self)
        ensures
            t.buf@ == Seq::<u8>::empty(),
            t.max_log_size == 1024 * 1024,
    {
        LogTransformerRepack { buf: Vec::with_capacity(4096), max_log_size: 1 * 1024 * 1024 }
    }

    /// Appends the repacked form of the record `src` (without its framing).
    fn transform_repack_v1(&self, dst: &mut Vec<u8>, src: &[u8]) -> (r: Result<(), ErrorLogParse>)
        ensures
            match repack_record(src@) {
                Ok(rec) => r is Ok && final(dst)@ == old(dst)@ + rec,
                Err(e) => r == Err::<(), ErrorLogParse>(e),
            },
    {
        if src.len() < 12 {
            return Err(ErrorLogParse::RecordTruncated);
        }
        let mut off: usize = match copy(dst, src, 0, 11) {
            Some(o) => o,
            None => {
                return Err(ErrorLogParse::RecordTruncated);
            },
        };
        if src[11] == 0 {
            dst.push(0);
            off = 12;
            assert(src@.subrange(0, 12) =~= src@.subrange(0, 11) + seq![src@[11]]);
            assert(dst@ =~= old(dst)@ + src@.subrange(0, 12));
        } else {
            off = match copy_str(dst, src, 11) {
                Some(o) => o,
                None => {
                    return Err(ErrorLogParse::RecordTruncated);
                },
            };
            let ghost b = off;
            proof {
                crate::log_parse::lemma_uvarint_at_fits(src@, 11);
                crate::log_parse::lemma_uvarint_at_fits(src@, b as int);
            }
            assert(dst@ =~= old(dst)@ + src@.subrange(0, b as int));
            off = match copy_uvarint(dst, src, off) {
                Some(o) => o,
                None => {
                    return Err(ErrorLogParse::RecordTruncated);
                },
            };
            assert(dst@ =~= old(dst)@ + src@.subrange(0, off as int));
        }
        let ghost mid = dst@;
        assert(mid =~= old(dst)@ + src@.subrange(0, off as int));
        proof {
            crate::log_parse::lemma_uvarint_at_fits(src@, off as int);
        }
        match copy_str(dst, src, off) {
            Some(end) => {
                assert(dst@ =~= old(dst)@ + src@.subrange(0, end as int));
                Ok(())
            },
            None => Err(ErrorLogParse::RecordTruncated),
        }
    }

    /// Packs the framed record at the start of `src` into `dst`, framed anew; gives
    /// the bounds of the new frame in `dst` and the data after the record. The
    /// context of the record is not carried over. On an error nothing is written.
    pub fn transform<'a>(&mut self, dst: &mut Vec<u8>, src: &'a [u8]) -> (r: Result<((usize, usize), &'a [u8]), ErrorLogParse>)
        ensures
            match repack_spec(src@, old(self).max_log_size) {
                Ok((frame, end)) => r matches Ok((range, rest))
                    && final(dst)@ == old(dst)@ + frame
                    && range == (old(dst)@.len() as usize, final(dst)@.len() as usize)
                    && rest@ == src@.subrange(end, src@.len() as int),
                Err(e) => r == Err::<((usize, usize), &[u8]), ErrorLogParse>(e) && final(dst)@ == old(dst)@,
            },
            *final(self) == *old(self),
    {
        let (record, rest) = match log_parse_header(src, self.max_log_size) {
            Ok(x) => x,
            Err(e) => {
                return Err(e);
            },
        };
        if record.len() < 2 {
            return Err(ErrorLogParse::RecordTruncated);
        }
        let version = read_le(record, 0, 2);
        if version != 1 {
            return Err(ErrorLogParse::RecordVersionNotSupported(version as u16));
        }
        let mut packed: Vec<u8> = Vec::new();
        match self.transform_repack_v1(&mut packed, record) {
            Err(e) => {
                return Err(e);
            },
            Ok(()) => {},
        }
        let start = dst.len();
        write_record_header(dst, packed.as_slice());
        append(dst, packed.as_slice());
        Ok(((start, dst.len()), rest))
    }
}

/// A repacked record is a valid frame: reading its framing back gives the repacked
/// record, and the record keeps the fields of the record it was made from, up to
/// its message.
pub proof fn law_repack_frame(src: Seq<u8>, max_log_size: usize, rest: Seq<u8>)
    requires
        repack_spec(src, max_log_size) is Ok,
    ensures
        ({
            let (frame, _end) = repack_spec(src, max_log_size).unwrap();
            let (start, end) = header_spec(src, max_log_size).unwrap();
            let rec = repack_record(src.subrange(start, end)).unwrap();
            &&& frame == frame_header(rec) + rec
            &&& header_spec(frame + rest, max_log_size)
                == Ok::<(int, int), ErrorLogParse>((frame_header(rec).len() as int, (frame_header(rec).len() + rec.len()) as int))
            &&& rec == src.subrange(start, end).subrange(0, rec.len() as int)
        }),
{
    let (start, end) = header_spec(src, max_log_size).unwrap();
    let input = src.subrange(start, end);
    let rec = repack_record(input).unwrap();
    let e = repack_end(input).unwrap();
    assert(e <= input.len()) by {
        lemma_repack_end_bound(input);
    }
    assert(input.len() <= max_log_size) by {
        lemma_header_length(src, max_log_size);
    }
    assert(frame_header(rec) + rec + rest == (frame_header(rec) + rec) + rest);
    law_frame_roundtrip(rec, rest, max_log_size);
}

/// Reading a repacked record back gives what reading the record it was made from
/// gives of its time, level, location and message, and an empty context.
pub proof fn law_repack_keeps_fields(input: Seq<u8>, since: u8)
    requires
        repack_record(input) is Ok,
        le_at(input, 0, 2) == 1,
    ensures
        ({
            let rec = repack_record(input).unwrap();
            &&& record_spec(rec, since) is Ok
            &&& record_spec(rec, since).unwrap().ctx.nodes.len() == 0
            &&& record_spec(rec, since).unwrap().ctx.ctx_size == 0
            &&& !record_spec(rec, since).unwrap().ctx.has_errors
            &&& (record_spec(input, since) matches Ok(m) ==> {
                let m2 = record_spec(rec, since).unwrap();
                &&& m2.time == m.time
                &&& m2.level == m.level
                &&& m2.skipped == m.skipped
                &&& m2.location == m.location
                &&& m2.msg == m.msg
            })
        }),
{
    let e = repack_end(input).unwrap();
    let rec = input.subrange(0, e);
    lemma_repack_end_bound(input);
    let loc_end: int = if input[11] == 0 {
        12
    } else {
        let (_a, b) = str_at(input, 11).unwrap();
        crate::log_parse::lemma_uvarint_at_fits(input, 11);
        crate::log_parse::lemma_uvarint_at_fits(input, b);
        b + uvarint_at(input, b).unwrap().1
    };
    crate::log_parse::lemma_uvarint_at_fits(input, loc_end);
    assert(str_at(input, loc_end) matches Some((_a, b)) && b == e);
    assert(loc_end < e);
    lemma_le_at_prefix(input, e, 0, 2);
    lemma_le_at_prefix(input, e, 2, 8);
    assert(rec[10] == input[10]);
    assert(rec[11] == input[11]);
    if input[11] != 0 {
        let (_a, b) = str_at(input, 11).unwrap();
        lemma_str_at_prefix(input, e, 11);
        crate::log_parse::lemma_uvarint_at_prefix(input, e, b);
    }
    assert(location_at(rec, 11) == location_at(input, 11));
    lemma_str_at_prefix(input, e, loc_end);
}

/// Repacking never makes a record wider: the new frame is no longer than the
/// bytes of the frame it was made from.
pub proof fn law_repack_not_wider(src: Seq<u8>, max_log_size: usize)
    requires
        repack_spec(src, max_log_size) is Ok,
    ensures
        repack_spec(src, max_log_size).unwrap().0.len() <= repack_spec(src, max_log_size).unwrap().1,
{
    let (start, end) = header_spec(src, max_log_size).unwrap();
    let input = src.subrange(start, end);
    let rec = repack_record(input).unwrap();
    lemma_repack_end_bound(input);
    lemma_header_length(src, max_log_size);
    crate::log_parse::lemma_header_length_field(src, max_log_size);
    crate::log_parse::lemma_encode_len_mono(rec.len(), input.len());
}

proof fn lemma_repack_end_bound(s: Seq<u8>)
    ensures
        repack_end(s) matches Some(e) ==> 0 <= e <= s.len(),
{
    if s.len() >= 12 && s[11] != 0 {
        if let Some((_a, b)) = str_at(s, 11) {
            crate::log_parse::lemma_uvarint_at_fits(s, b);
        }
    }
}

proof fn lemma_header_length(s: Seq<u8>, max_log_size: usize)
    ensures
        header_spec(s, max_log_size) matches Ok((a, b)) ==> 0 <= a <= b <= s.len() && b - a <= max_log_size,
{
}

} // verus!
