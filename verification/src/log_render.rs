//! The record renderer: its state, its settings and the parts of a record line.
use vstd::prelude::*;
use crate::itoa2::{append_itoa, append_utoa, decimal, decimal_signed};
use crate::level;
use crate::log_parser_node::Node;
use crate::log_rend::{civil_time_of, go_duration, render_go_duration, time_parts_valid, time_text, TimeParts};
use crate::log_render_color::{reset_text, ColorProfile};
use crate::log_render_json::{json_context, tslot, Text};
use crate::log_render_tree::tree_context;
use crate::pointer_ext::{append, append_str, bytes_at, lit, sub_slice};

verus! {

/// A value whose text the library leaves to its caller: a point in time (local
/// civil time, which rests on the machine's time zone) or a floating-point number,
/// given by its bits.
#[derive(Debug, Clone, Copy, PartialEq, Eq, Structural)]
pub enum Fill {
    /// Nanoseconds since the Unix epoch, shown as local civil time.
    Time(i64),
    /// A 32-bit float shown as such.
    F32(u32),
    /// A 32-bit float widened to 64 bits and shown as a 64-bit float.
    F32Wide(u32),
    /// A 64-bit float.
    F64(u64),
}

/// A place in a rendered text where the text of a [Fill] goes.
#[derive(Debug, Clone, Copy, PartialEq, Eq, Structural)]
pub struct Slot {
    pub at: usize,
    pub fill: Fill,
}

/// Renders parsed log records as colored text lines, with the context either as
/// a JSON-like object or as a tree.
pub struct LogRender {
    pub buf: Vec<u8>,
    pub need_tree: bool,
    pub err_stack: Vec<(usize, usize)>,
    pub tree_always: bool,
    pub tree_prefix: u64,
    pub tree_depth: i64,
    pub expand_array_since: usize,
    pub expand_context_since: usize,
    pub color_profile: ColorProfile,
    pub color_back: Option<&'static str>,
    pub time: u64,
    pub level: u8,
    pub loc: Option<(usize, usize, usize)>,
    pub msg: (usize, usize),
    pub ctx: Vec<Node>,
    /// The places left for the caller's texts, in the order of their positions.
    pub slots: Vec<Slot>,
}

/// The text of a level that has no name: `!` and its code, right-aligned to four.
pub open spec fn unknown_level_text(lvl: u8) -> Seq<u8> {
    if lvl < 10 {
        seq![32u8, 32u8, 32u8, 33u8] + decimal(lvl as nat)
    } else if lvl < 100 {
        seq![32u8, 32u8, 33u8] + decimal(lvl as nat)
    } else {
        seq![32u8, 33u8] + decimal(lvl as nat)
    }
}

/// The level name in its color, as the level column shows it before the reset.
pub open spec fn level_head(p: ColorProfile, lvl: u8) -> Seq<u8> {
    if lvl == level::TRACE {
        lit(" ") + lit(p.trace) + lit("TRACE")
    } else if lvl == level::DEBUG {
        lit(" ") + lit(p.debug) + lit("DEBUG")
    } else if lvl == level::INFO {
        lit("  ") + lit(p.info) + lit("INFO")
    } else if lvl == level::WARN {
        lit("  ") + lit(p.warn) + lit("WARN")
    } else if lvl == level::ERROR {
        lit(" ") + lit(p.error) + lit("ERROR")
    } else if lvl == level::PANIC {
        lit(" ") + lit(p.panic) + lit("PANIC")
    } else {
        lit(p.levelu) + unknown_level_text(lvl)
    }
}

/// The level column of a record line, followed by a space.
pub open spec fn level_column(r: LogRender, lvl: u8) -> Seq<u8> {
    level_head(r.color_profile, lvl) + reset_text(r) + lit(" ")
}

fn write_unknown_level(dst: &mut Vec<u8>, lvl: u8)
    ensures
        final(dst)@ == old(dst)@ + unknown_level_text(lvl),
{
    if lvl < 10 {
        dst.push(32);
        dst.push(32);
        dst.push(32);
        dst.push(33);
    } else if lvl < 100 {
        dst.push(32);
        dst.push(32);
        dst.push(33);
    } else {
        dst.push(32);
        dst.push(33);
    }
    append_utoa(dst, lvl as u64);
}

fn write_level_head(p: &ColorProfile, dst: &mut Vec<u8>, lvl: u8)
    ensures
        final(dst)@ == old(dst)@ + level_head(*p, lvl),
{
    if lvl == level::TRACE {
        append_str(dst, " ");
        append_str(dst, p.trace);
        append_str(dst, "TRACE");
    } else if lvl == level::DEBUG {
        append_str(dst, " ");
        append_str(dst, p.debug);
        append_str(dst, "DEBUG");
    } else if lvl == level::INFO {
        append_str(dst, "  ");
        append_str(dst, p.info);
        append_str(dst, "INFO");
    } else if lvl == level::WARN {
        append_str(dst, "  ");
        append_str(dst, p.warn);
        append_str(dst, "WARN");
    } else if lvl == level::ERROR {
        append_str(dst, " ");
        append_str(dst, p.error);
        append_str(dst, "ERROR");
    } else if lvl == level::PANIC {
        append_str(dst, " ");
        append_str(dst, p.panic);
        append_str(dst, "PANIC");
    } else {
        append_str(dst, p.levelu);
        write_unknown_level(dst, lvl);
    }
}

/// The location column: `(file:line) ` in the location color, or nothing.
pub open spec fn location_column(r: LogRender, s: Seq<u8>) -> Seq<u8> {
    match r.loc {
        Some((len, off, line)) => lit(r.color_profile.loc) + seq![40u8] + bytes_at(s, off as int, len as int)
            + seq![58u8] + decimal(line as nat) + seq![41u8, 32u8] + reset_text(r),
        None => Seq::empty(),
    }
}

impl LogRender {
    /// A renderer with the given colors: context shown as a tree from 6 values on,
    /// arrays expanded from 8 items on.
    pub fn new(color_profile: ColorProfile) -> (r: Self)
        ensures
            r.buf@ == Seq::<u8>::empty(),
            !r.need_tree,
            r.err_stack@ == Seq::<(usize, usize)>::empty(),
            !r.tree_always,
            r.tree_prefix == 0,
            r.tree_depth == 0,
            r.expand_array_since == 8,
            r.expand_context_since == 6,
            r.color_profile == color_profile,
            r.color_back is None,
            r.time == 0,
            r.level == 0,
            r.loc is None,
            r.msg == (0usize, 0usize),
            r.ctx@ == Seq::<Node>::empty(),
            r.slots@ == Seq::<Slot>::empty(),
    {
        LogRender {
            buf: Vec::with_capacity(4096),
            need_tree: false,
            err_stack: Vec::with_capacity(16),
            tree_always: false,
            tree_prefix: 0,
            tree_depth: 0,
            expand_array_since: 8,
            expand_context_since: 6,
            color_profile,
            color_back: None,
            time: 0,
            level: 0,
            loc: None,
            msg: (0, 0),
            ctx: Vec::new(),
            slots: Vec::new(),
        }
    }

    /// Forces tree view.
    pub fn tree_only(&mut self) -> (r: &mut Self)
        ensures
            *r == (LogRender { tree_always: true, ..*old(self) }),
            *final(self) == *final(r),
    {
        self.tree_always = true;
        self
    }

    /// Sets the number of context elements from which the context is shown as a tree.
    pub fn show_as_tree_since(&mut self, size: usize) -> (r: &mut Self)
        ensures
            *r == (LogRender { expand_context_since: size, ..*old(self) }),
            *final(self) == *final(r),
    {
        self.expand_context_since = size;
        self
    }

    /// Sets the array length from which arrays are shown expanded.
    pub fn show_arrays_as_tree_since_size(&mut self, size: usize) -> (r: &mut Self)
        ensures
            *r == (LogRender { expand_array_since: size, ..*old(self) }),
            *final(self) == *final(r),
    {
        self.expand_array_since = size;
        self
    }

    /// Writes the level column; tells whether the record is a panic.
    pub fn render_level(&self, dst: &mut Vec<u8>) -> (is_panic: bool)
        ensures
            final(dst)@ == old(dst)@ + level_column(*self, self.level),
            is_panic == (self.level == level::PANIC),
    {
        write_level_head(&self.color_profile, dst, self.level);
        self.color_reset(dst);
        append_str(dst, " ");
        self.level == level::PANIC
    }

    /// Writes the location column, if the record has a location.
    pub fn render_location(&self, dst: &mut Vec<u8>, src: &[u8])
        ensures
            final(dst)@ == old(dst)@ + location_column(*self, src@),
    {
        match self.loc {
            Some((len, off, line)) => {
                append_str(dst, self.color_profile.loc);
                dst.push(40);
                append(dst, sub_slice(src, off, len));
                dst.push(58);
                append_utoa(dst, line as u64);
                dst.push(41);
                dst.push(32);
                self.color_reset(dst);
            },
            None => {},
        }
    }

    /// Writes a signed integer.
    pub fn render_int(&self, dst: &mut Vec<u8>, value: i64)
        ensures
            final(dst)@ == old(dst)@ + decimal_signed(value as int),
    {
        append_itoa(dst, value);
    }

    /// Writes an unsigned integer.
    pub fn render_uint(&self, dst: &mut Vec<u8>, value: u64)
        ensures
            final(dst)@ == old(dst)@ + decimal(value as nat),
    {
        append_utoa(dst, value);
    }

    /// Writes a duration in the style of Go.
    pub fn render_go_duration(&self, dst: &mut Vec<u8>, nanos: u64, in_ctx: bool)
        ensures
            final(dst)@ == old(dst)@ + go_duration(nanos as nat),
    {
        render_go_duration(dst, nanos);
    }

    /// Writes a point in time: the time color, the local civil time text
    /// `YYYY-MM-DD hh:mm:ss.mmm` of the instant `nanos`, and the color reset.
    pub fn render_time(&mut self, dst: &mut Vec<u8>, nanos: i64, in_ctx: bool)
        ensures
            exists|p: TimeParts| time_parts_valid(p) && civil_time_of(nanos as int, p)
                && final(dst)@ == old(dst)@ + lit(old(self).color_profile.time) + time_text(p) + reset_text(*old(self)),
            *final(self) == *old(self),
    {
        let ghost d0 = dst@;
        append_str(dst, self.color_profile.time);
        let ghost d1 = dst@;
        crate::log_rend::render_time(dst, nanos);
        let ghost d2 = dst@;
        self.color_reset(dst);
        proof {
            let p = choose|p: TimeParts| time_parts_valid(p) && civil_time_of(nanos as int, p)
                && d2 == d1 + time_text(p);
            assert(dst@ == d0 + lit(self.color_profile.time) + time_text(p) + reset_text(*self));
        }
    }

    /// Writes a point in time for later filling: the time color, a place for the
    /// local civil time text, and the color reset.
    pub(crate) fn render_time_slot(&mut self, dst: &mut Vec<u8>, nanos: i64)
        ensures
            final(dst)@ == old(dst)@ + lit(old(self).color_profile.time) + reset_text(*old(self)),
            final(self).slots@ == old(self).slots@.push(
                Slot { at: (old(dst)@.len() + lit(old(self).color_profile.time).len()) as usize, fill: Fill::Time(nanos) },
            ),
            *final(self) == (LogRender { slots: final(self).slots, ..*old(self) }),
            slots_in_order(old(self).slots@, old(dst)@.len()) ==> slots_in_order(final(self).slots@, final(dst)@.len()),
    {
        append_str(dst, self.color_profile.time);
        self.slots.push(Slot { at: dst.len(), fill: Fill::Time(nanos) });
        self.color_reset(dst);
    }
}


// ---------------------------------------------------------------------------
// stack traces
// ---------------------------------------------------------------------------

/// What gunzipping `data` gives: the bytes decompressed (up to a failure), and the
/// error message when it failed.
pub uninterp spec fn gunzip_outcome(data: Seq<u8>) -> (Seq<u8>, Option<Seq<u8>>);

/// The view of an optional buffer.
pub open spec fn opt_bytes(o: Option<Vec<u8>>) -> Option<Seq<u8>> {
    match o {
        Some(v) => Some(v@),
        None => None,
    }
}

/// Decompresses gzip data with `flate2::read::GzDecoder` and
/// `std::io::Read::read_to_end`. Trusted: the result is what the decoder gives for
/// these bytes (named `gunzip_outcome`): the bytes read and, on failure, the text of
/// the error. That the bytes are the decompressed stream is not stated here.
#[verifier::external_body]
pub(crate) fn gunzip(data: &[u8]) -> (r: (Vec<u8>, Option<Vec<u8>>))
    ensures
        (r.0@, opt_bytes(r.1)) == gunzip_outcome(data@),
{
    let mut out: Vec<u8> = Vec::new();
    let mut decoder = flate2::read::GzDecoder::new(data);
    match std::io::Read::read_to_end(&mut decoder, &mut out) {
        Ok(_) => (out, None),
        Err(e) => (out, Some(e.to_string().into_bytes())),
    }
}

/// One line of a stack trace: the dots, the text and a line end.
pub open spec fn stack_line(p: ColorProfile, line: Seq<u8>) -> Seq<u8> {
    lit(p.st_dots) + lit(".... ") + lit(p.st_text) + line + seq![10u8]
}

/// The lines of `b` from the line that starts at `start`, the scan being at `i`;
/// a last line without line end counts when it is not empty.
pub open spec fn stack_lines(p: ColorProfile, b: Seq<u8>, start: int, i: int) -> Seq<u8>
    decreases b.len() - i,
{
    if i >= b.len() || i < 0 {
        if 0 <= start < b.len() {
            stack_line(p, b.subrange(start, b.len() as int))
        } else {
            Seq::empty()
        }
    } else if b[i] == 10 {
        stack_line(p, b.subrange(start, i)) + stack_lines(p, b, i + 1, i + 1)
    } else {
        stack_lines(p, b, start, i + 1)
    }
}

/// The text that a failed decompression leaves in the buffer: its message; else
/// the bytes decompressed.
pub open spec fn stack_buffer(data: Seq<u8>) -> Seq<u8> {
    match gunzip_outcome(data) {
        (_d, Some(e)) => e,
        (d, None) => d,
    }
}

/// The stack trace of a panic record whose gzip-compressed trace is `data`: the
/// error color and a reset when decompression failed, the lines, and a reset.
pub open spec fn stack_trace_text(r: LogRender, data: Seq<u8>) -> Seq<u8> {
    let failed = gunzip_outcome(data).1 is Some;
    (if failed { lit(r.color_profile.error) + reset_text(r) } else { Seq::empty() })
        + stack_lines(r.color_profile, stack_buffer(data), 0, 0) + reset_text(r)
}

impl LogRender {
    /// Writes the lines of a decompressed stack trace `text`: each line (the last
    /// one also without a line end, when it is not empty) after the dots, in the
    /// profile's colors, and a line end.
    pub fn write_stack_lines(&self, dst: &mut Vec<u8>, text: &[u8])
        ensures
            final(dst)@ == old(dst)@ + stack_lines(self.color_profile, text@, 0, 0),
    {
        let ghost b = text@;
        let ghost p = self.color_profile;
        let mut start: usize = 0;
        let mut i: usize = 0;
        while i < text.len()
            invariant
                b == text@,
                p == self.color_profile,
                start <= i <= b.len(),
                old(dst)@ + stack_lines(p, b, 0, 0) == dst@ + stack_lines(p, b, start as int, i as int),
            decreases b.len() - i,
        {
            if text[i] == 10 {
                append_str(dst, self.color_profile.st_dots);
                append_str(dst, ".... ");
                append_str(dst, self.color_profile.st_text);
                append(dst, vstd::slice::slice_subrange(text, start, i));
                dst.push(10);
                start = i + 1;
            }
            i += 1;
        }
        if start < text.len() {
            append_str(dst, self.color_profile.st_dots);
            append_str(dst, ".... ");
            append_str(dst, self.color_profile.st_text);
            append(dst, vstd::slice::slice_subrange(text, start, text.len()));
            dst.push(10);
        }
    }

    /// Writes the stack trace that a panic record carries gzip-compressed in its
    /// message, one line each; keeps the decompressed text in `buf`.
    pub fn render_stacktrace(&mut self, dst: &mut Vec<u8>, src: &[u8])
        ensures
            final(dst)@ == old(dst)@ + stack_trace_text(*old(self), bytes_at(src@, old(self).msg.1 as int, old(self).msg.0 as int)),
            final(self).buf@ == stack_buffer(bytes_at(src@, old(self).msg.1 as int, old(self).msg.0 as int)),
            *final(self) == (LogRender { buf: final(self).buf, ..*old(self) }),
    {
        let st = sub_slice(src, self.msg.1, self.msg.0);
        let (data, err) = gunzip(st);
        match err {
            Some(e) => {
                append_str(dst, self.color_profile.error);
                self.buf = e;
                self.color_reset(dst);
            },
            None => {
                self.buf = data;
            },
        }
        self.write_stack_lines(dst, self.buf.as_slice());
        self.color_reset(dst);
    }
}


// ---------------------------------------------------------------------------
// whole records
// ---------------------------------------------------------------------------

/// What rendering a record changes.
#[verifier::ext_equal]
pub ghost struct RenderOut {
    pub out: Seq<u8>,
    pub slots: Seq<Slot>,
    pub errs: Seq<(usize, usize)>,
    pub prefix: u64,
    pub level: i64,
    pub buf: Seq<u8>,
}

/// The head of a record line after `out`: the time (a place for its text, in the
/// time color), the level column and the location column.
pub open spec fn line_head(r: LogRender, s: Seq<u8>, out: Seq<u8>, slots: Seq<Slot>) -> Text {
    let t1 = tslot(Text { out: out + lit(r.color_profile.time), slots }, Fill::Time(r.time as i64));
    Text { out: t1.out + reset_text(r) + level_column(r, r.level) + location_column(r, s), slots: t1.slots }
}

/// Rendering the current record of `r` inside the record bytes `s` after `out`, the
/// places (`slots`) before it being those given:
/// the head, then for a panic the context as an object and the stack trace, else
/// the message in bold and the context as a tree (when the record asks for one or
/// the renderer always shows trees) or as an object, on the context background.
pub open spec fn render_outcome(r: LogRender, s: Seq<u8>, out: Seq<u8>, slots: Seq<Slot>) -> RenderOut {
    let h = line_head(r, s, out, slots);
    let rb = LogRender { color_back: Some(r.color_profile.ctx), ..r };
    let rn = LogRender { color_back: None, ..r };
    let reset = lit(r.color_profile.reset);
    if r.level != level::PANIC {
        let o1 = h.out + lit(r.color_profile.bold) + bytes_at(s, r.msg.1 as int, r.msg.0 as int) + seq![32u8]
            + reset_text(r) + lit(r.color_profile.ctx);
        if r.need_tree || r.tree_always {
            let st = tree_context(rb, s, o1, h.slots);
            RenderOut { out: st.out + reset, slots: st.slots, errs: st.errs, prefix: st.prefix, level: st.level, buf: r.buf@ }
        } else {
            let st = json_context(rb, s, o1, h.slots);
            RenderOut { out: st.out + reset, slots: st.slots, errs: st.errs, prefix: r.tree_prefix, level: r.tree_depth, buf: r.buf@ }
        }
    } else {
        let st = json_context(rb, s, h.out + lit(r.color_profile.ctx), h.slots);
        let data = bytes_at(s, r.msg.1 as int, r.msg.0 as int);
        RenderOut {
            out: st.out + reset + stack_trace_text(rn, data),
            slots: st.slots,
            errs: st.errs,
            prefix: r.tree_prefix,
            level: r.tree_depth,
            buf: stack_buffer(data),
        }
    }
}

proof fn lemma_outcome_ignores_slots(r1: LogRender, r2: LogRender, s: Seq<u8>)
    requires
        r1 == (LogRender { slots: r1.slots, ..r2 }),
    ensures
        render_outcome(r1, s, Seq::empty(), Seq::empty()) == render_outcome(r2, s, Seq::empty(), Seq::empty()),
{
    assert(reset_text(r1) == reset_text(r2));
    assert(LogRender { color_back: Some(r1.color_profile.ctx), ..r1 }
        == LogRender { slots: r1.slots, ..LogRender { color_back: Some(r2.color_profile.ctx), ..r2 } });
}

impl LogRender {
    /// Writes the message in bold, a space and the color reset.
    fn render_message(&self, dst: &mut Vec<u8>, src: &[u8])
        ensures
            final(dst)@ == old(dst)@ + lit(self.color_profile.bold) + bytes_at(src@, self.msg.1 as int, self.msg.0 as int)
                + seq![32u8] + reset_text(*self),
    {
        append_str(dst, self.color_profile.bold);
        append(dst, sub_slice(src, self.msg.1, self.msg.0));
        dst.push(32);
        self.color_reset(dst);
    }

    /// Writes the current record as a text line (several for a tree or a stack
    /// trace), the points in time filled in as local civil time; floating-point
    /// values are left as places in `slots`, counted from the start of the line.
    pub fn render(&mut self, dst: &mut Vec<u8>, src: &[u8])
        requires
            src@.len() <= usize::MAX / 4,
            old(self).ctx@.len() <= 0xFFFF_FFFF,
            i64::MIN + 8 + 2 * old(self).ctx@.len() < old(self).tree_depth < i64::MAX - 8 - 2 * old(self).ctx@.len(),
        ensures
            ({
                let o = render_outcome(*old(self), src@, Seq::empty(), Seq::empty());
                &&& exists|ps: Seq<TimeParts>| times_of_places(o.slots, ps)
                    && final(dst)@ == old(dst)@ + times_filled(o.out, o.slots, ps).0
                    && final(self).slots@ == times_filled(o.out, o.slots, ps).1
                &&& final(self).err_stack@ == o.errs
                &&& final(self).tree_prefix == o.prefix
                &&& final(self).tree_depth == o.level
                &&& final(self).buf@ == o.buf
            }),
            *final(self) == (LogRender {
                slots: final(self).slots,
                err_stack: final(self).err_stack,
                tree_prefix: final(self).tree_prefix,
                tree_depth: final(self).tree_depth,
                buf: final(self).buf,
                color_back: None,
                ..*old(self)
            }),
            slots_in_order(final(self).slots@, (final(dst)@.len() - old(dst)@.len()) as nat),
    {
        self.slots.clear();
        proof {
            lemma_outcome_ignores_slots(*self, *old(self), src@);
        }
        let mut line: Vec<u8> = Vec::new();
        self.render_places(&mut line, src);
        match fill_times(line.as_slice(), self.slots.as_slice()) {
            Some((text, rest)) => {
                append(dst, text.as_slice());
                self.slots = rest;
            },
            None => {
                assert(false);
            },
        }
    }

    /// Writes the current record as a text line (several for a tree or a stack
    /// trace) after `dst`; points in time and floating-point values are left as
    /// places in `slots`, after the places already there.
    pub fn render_places(&mut self, dst: &mut Vec<u8>, src: &[u8])
        requires
            src@.len() <= usize::MAX / 4,
            old(self).ctx@.len() <= 0xFFFF_FFFF,
            i64::MIN + 8 + 2 * old(self).ctx@.len() < old(self).tree_depth < i64::MAX - 8 - 2 * old(self).ctx@.len(),
        ensures
            ({
                let o = render_outcome(*old(self), src@, old(dst)@, old(self).slots@);
                &&& final(dst)@ == o.out
                &&& final(self).slots@ == o.slots
                &&& final(self).err_stack@ == o.errs
                &&& final(self).tree_prefix == o.prefix
                &&& final(self).tree_depth == o.level
                &&& final(self).buf@ == o.buf
            }),
            *final(self) == (LogRender {
                slots: final(self).slots,
                err_stack: final(self).err_stack,
                tree_prefix: final(self).tree_prefix,
                tree_depth: final(self).tree_depth,
                buf: final(self).buf,
                color_back: None,
                ..*old(self)
            }),
            slots_in_order(old(self).slots@, old(dst)@.len()) ==> slots_in_order(final(self).slots@, final(dst)@.len()),
    {
        let ghost r0 = *self;
        self.render_time_slot(dst, self.time as i64);
        let is_panic = self.render_level(dst);
        self.render_location(dst, src);
        let ghost h = dst@;
        assert(h =~= line_head(r0, src@, old(dst)@, r0.slots@).out);
        if !is_panic {
            self.render_message(dst, src);
            self.color_set_back_ctx(dst);
            if self.need_tree || self.tree_always {
                self.render_tree(dst, src);
            } else {
                self.render_json(dst, src);
            }
            self.color_reset_back(dst);
            return;
        }
        self.color_set_back_ctx(dst);
        self.render_json(dst, src);
        self.color_reset_back(dst);
        self.render_stacktrace(dst, src);
    }
}


// ---------------------------------------------------------------------------
// filling the places
// ---------------------------------------------------------------------------

/// Whether the places lie in order inside a text of `len` bytes.
pub open spec fn slots_in_order(slots: Seq<Slot>, len: nat) -> bool {
    &&& forall|i: int| 0 <= i < slots.len() ==> slots[i].at <= len
    &&& forall|i: int, j: int| 0 <= i < j < slots.len() ==> slots[i].at <= slots[j].at
}

/// Where the text between place `k - 1` and place `k` starts.
pub open spec fn slot_from(slots: Seq<Slot>, k: int) -> int {
    if k <= 0 {
        0
    } else {
        slots[k - 1].at as int
    }
}

/// The text up to place `k`, with the first `k` fills put in.
pub open spec fn spliced_prefix(text: Seq<u8>, slots: Seq<Slot>, fills: Seq<Seq<u8>>, k: nat) -> Seq<u8>
    decreases k,
{
    if k == 0 {
        Seq::empty()
    } else {
        spliced_prefix(text, slots, fills, (k - 1) as nat)
            + text.subrange(slot_from(slots, k - 1), slots[k - 1].at as int) + fills[k - 1]
    }
}

/// The text with each fill put in at its place.
pub open spec fn spliced(text: Seq<u8>, slots: Seq<Slot>, fills: Seq<Seq<u8>>) -> Seq<u8> {
    spliced_prefix(text, slots, fills, slots.len()) + text.subrange(slot_from(slots, slots.len() as int), text.len() as int)
}

/// The views of a list of buffers.
pub open spec fn views(v: Seq<Vec<u8>>) -> Seq<Seq<u8>> {
    v.map_values(|b: Vec<u8>| b@)
}

/// Puts the text of each place into a rendered text: `fills[i]` goes where
/// `slots[i]` points. `None` when the counts differ or the places are not in order
/// inside the text.
pub fn fill_slots(text: &[u8], slots: &[Slot], fills: &[Vec<u8>]) -> (r: Option<Vec<u8>>)
    ensures
        r is Some <==> (fills@.len() == slots@.len() && slots_in_order(slots@, text@.len())),
        r matches Some(v) ==> v@ == spliced(text@, slots@, views(fills@)),
{
    if fills.len() != slots.len() {
        return None;
    }
    let mut i: usize = 0;
    let mut prev: usize = 0;
    while i < slots.len()
        invariant
            i <= slots@.len(),
            prev == slot_from(slots@, i as int),
            prev <= text@.len(),
            forall|a: int| 0 <= a < i ==> slots@[a].at <= text@.len(),
            forall|a: int, b: int| 0 <= a < b < i ==> slots@[a].at <= slots@[b].at,
            forall|a: int| 0 <= a < i ==> slots@[a].at <= prev,
        decreases slots@.len() - i,
    {
        let at = slots[i].at;
        if at < prev || at > text.len() {
            proof {
                if at < prev {
                    assert(slots@[i - 1].at > slots@[i as int].at);
                }
            }
            return None;
        }
        prev = at;
        i += 1;
    }
    let mut out: Vec<u8> = Vec::new();
    let mut k: usize = 0;
    let mut from: usize = 0;
    while k < slots.len()
        invariant
            k <= slots@.len() == fills@.len(),
            slots_in_order(slots@, text@.len()),
            from == slot_from(slots@, k as int),
            out@ == spliced_prefix(text@, slots@, views(fills@), k as nat),
        decreases slots@.len() - k,
    {
        let at = slots[k].at;
        append(&mut out, vstd::slice::slice_subrange(text, from, at));
        append(&mut out, fills[k].as_slice());
        from = at;
        k += 1;
    }
    append(&mut out, vstd::slice::slice_subrange(text, from, text.len()));
    Some(out)
}

/// The text up to place `k` with the first `k` time places filled by the civil time
/// `ps[i]`, and the float places among them, moved to where they now stand.
pub open spec fn times_prefix(text: Seq<u8>, slots: Seq<Slot>, ps: Seq<TimeParts>, k: nat) -> (Seq<u8>, Seq<Slot>)
    decreases k,
{
    if k == 0 {
        (Seq::empty(), Seq::empty())
    } else {
        let (o, r) = times_prefix(text, slots, ps, (k - 1) as nat);
        let o1 = o + text.subrange(slot_from(slots, k - 1), slots[k - 1].at as int);
        match slots[k - 1].fill {
            Fill::Time(_) => (o1 + time_text(ps[k - 1]), r),
            _ => (o1, r.push(Slot { at: o1.len() as usize, fill: slots[k - 1].fill })),
        }
    }
}

/// The text with each time place filled by the civil time `ps[i]`, and the float
/// places left, at their new positions.
pub open spec fn times_filled(text: Seq<u8>, slots: Seq<Slot>, ps: Seq<TimeParts>) -> (Seq<u8>, Seq<Slot>) {
    let (o, r) = times_prefix(text, slots, ps, slots.len());
    (o + text.subrange(slot_from(slots, slots.len() as int), text.len() as int), r)
}

/// Whether `ps` holds, for each time place, a civil time of its instant.
pub open spec fn times_of_places(slots: Seq<Slot>, ps: Seq<TimeParts>) -> bool {
    &&& ps.len() == slots.len()
    &&& forall|i: int| 0 <= i < slots.len() ==> (#[trigger] slots[i].fill matches Fill::Time(n)
        ==> time_parts_valid(ps[i]) && civil_time_of(n as int, ps[i]))
}

proof fn lemma_times_prefix_ext(text: Seq<u8>, slots: Seq<Slot>, ps: Seq<TimeParts>, qs: Seq<TimeParts>, k: nat)
    requires
        k <= ps.len(),
        k <= qs.len(),
        forall|i: int| 0 <= i < k ==> ps[i] == qs[i],
    ensures
        times_prefix(text, slots, ps, k) == times_prefix(text, slots, qs, k),
    decreases k,
{
    if k > 0 {
        lemma_times_prefix_ext(text, slots, ps, qs, (k - 1) as nat);
    }
}

/// The civil fields used where a place holds no time.
pub open spec fn no_time() -> TimeParts {
    TimeParts { year: 1970, month: 1, day: 1, hour: 0, minute: 0, second: 0, millisecond: 0 }
}

/// Fills every time place of a rendered text with the local civil time of its
/// instant and keeps the other places, moved to where they stand in the new text.
/// `None` when the places are not in order inside the text.
pub fn fill_times(text: &[u8], slots: &[Slot]) -> (r: Option<(Vec<u8>, Vec<Slot>)>)
    ensures
        r is Some <==> slots_in_order(slots@, text@.len()),
        r matches Some((out, rest)) ==> slots_in_order(rest@, out@.len()) && exists|ps: Seq<TimeParts>|
            times_of_places(slots@, ps) && (out@, rest@) == times_filled(text@, slots@, ps),
{
    let mut i: usize = 0;
    let mut prev: usize = 0;
    while i < slots.len()
        invariant
            i <= slots@.len(),
            prev == slot_from(slots@, i as int),
            prev <= text@.len(),
            forall|a: int| 0 <= a < i ==> slots@[a].at <= text@.len(),
            forall|a: int, b: int| 0 <= a < b < i ==> slots@[a].at <= slots@[b].at,
            forall|a: int| 0 <= a < i ==> slots@[a].at <= prev,
        decreases slots@.len() - i,
    {
        let at = slots[i].at;
        if at < prev || at > text.len() {
            proof {
                if at < prev {
                    assert(slots@[i - 1].at > slots@[i as int].at);
                }
            }
            return None;
        }
        prev = at;
        i += 1;
    }
    let mut out: Vec<u8> = Vec::new();
    let mut rest: Vec<Slot> = Vec::new();
    let ghost mut ps: Seq<TimeParts> = Seq::empty();
    let mut k: usize = 0;
    let mut from: usize = 0;
    while k < slots.len()
        invariant
            k <= slots@.len(),
            slots_in_order(slots@, text@.len()),
            from == slot_from(slots@, k as int),
            ps.len() == k,
            forall|i: int| 0 <= i < k ==> (#[trigger] slots@[i].fill matches Fill::Time(n)
                ==> time_parts_valid(ps[i]) && civil_time_of(n as int, ps[i])),
            (out@, rest@) == times_prefix(text@, slots@, ps, k as nat),
            slots_in_order(rest@, out@.len()),
        decreases slots@.len() - k,
    {
        let s = slots[k];
        let ghost o0 = out@;
        append(&mut out, vstd::slice::slice_subrange(text, from, s.at));
        let ghost o1 = out@;
        match s.fill {
            Fill::Time(n) => {
                crate::log_rend::render_time(&mut out, n);
                proof {
                    let p = choose|p: TimeParts| time_parts_valid(p) && civil_time_of(n as int, p)
                        && out@ == o1 + time_text(p);
                    lemma_times_prefix_ext(text@, slots@, ps, ps.push(p), k as nat);
                    ps = ps.push(p);
                }
            },
            _ => {
                rest.push(Slot { at: out.len(), fill: s.fill });
                proof {
                    lemma_times_prefix_ext(text@, slots@, ps, ps.push(no_time()), k as nat);
                    ps = ps.push(no_time());
                }
            },
        }
        from = s.at;
        k += 1;
    }
    append(&mut out, vstd::slice::slice_subrange(text, from, text.len()));
    proof {
        assert(times_of_places(slots@, ps));
    }
    Some((out, rest))
}

} // verus!
