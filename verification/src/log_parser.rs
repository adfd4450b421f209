//! The record parser and its settings.
use vstd::prelude::*;
use crate::log_parser_tree_builder::TreeBuilder;
use crate::log_parser_node::Node;
use crate::log_render::{LogRender, Slot};

verus! {

/// Parses framed log records into their header fields and a flat context structure.
pub struct LogParser {
    pub max_log_size: usize,
    pub group_stack: Vec<usize>,
    pub group_depth: usize,
    pub ctx_size: usize,
    pub has_errors: bool,
    pub process_since_level: u8,
    /// The number of context values from which a record is shown as a tree, when
    /// set on the parser; otherwise the renderer's threshold counts.
    pub use_tree_since: Option<usize>,
    // Parsing data.
    pub time: u64,
    pub level: u8,
    pub location: Option<(usize, usize, usize)>,
    pub msg: (usize, usize),
    pub ctx: TreeBuilder,
}

/// The tree threshold that counts: the parser's when it was set, else the
/// renderer's.
pub open spec fn tree_threshold(parser: Option<usize>, renderer: usize) -> usize {
    match parser {
        Some(t) => t,
        None => renderer,
    }
}

impl LogParser {
    /// A parser with a 1 MiB record limit that processes every level.
    pub fn new() -> (p: Self)
        ensures
            p.max_log_size == 1024 * 1024,
            p.group_stack@ == Seq::<usize>::empty(),
            p.group_depth == 0,
            p.ctx_size == 0,
            !p.has_errors,
            p.process_since_level == 0,
            p.use_tree_since is None,
            p.time == 0,
            p.level == 0,
            p.location is None,
            p.msg == (0usize, 0usize),
            p.ctx.ctrl@ == Seq::<Node>::empty(),
            p.ctx.stack@ == Seq::<usize>::empty(),
    {
        LogParser {
            max_log_size: 1 * 1024 * 1024,
            group_stack: Vec::with_capacity(8),
            group_depth: 0,
            ctx_size: 0,
            has_errors: false,
            process_since_level: 0,
            use_tree_since: None,
            time: 0,
            level: 0,
            location: None,
            msg: (0, 0),
            ctx: TreeBuilder::new(),
        }
    }

    /// Sets the largest record length the parser accepts.
    pub fn with_max_log_record_size(&mut self, size: usize) -> (r: &mut Self)
        ensures
            *r == (LogParser { max_log_size: size, ..*old(self) }),
            *final(self) == *final(r),
    {
        self.max_log_size = size;
        self
    }

    /// Sets the number of context values from which a record is better shown as a
    /// tree; `make_record` then uses it in place of the renderer's threshold.
    pub fn with_show_tree_after(&mut self, size: usize) -> (r: &mut Self)
        ensures
            *r == (LogParser { use_tree_since: Some(size), ..*old(self) }),
            *final(self) == *final(r),
    {
        self.use_tree_since = Some(size);
        self
    }

    /// Sets the lowest level of the records whose body is parsed.
    pub fn with_show_since_level(&mut self, level: u8) -> (r: &mut Self)
        ensures
            *r == (LogParser { process_since_level: level, ..*old(self) }),
            *final(self) == *final(r),
    {
        self.process_since_level = level;
        self
    }

    /// Whether the last record read is below the level of interest.
    pub fn should_pass(&self) -> (b: bool)
        ensures
            b == (self.level < self.process_since_level),
    {
        self.level < self.process_since_level
    }

    /// Hands the record last parsed to a renderer: its header fields and a copy of
    /// its context, with the rendering state reset. The context is shown as a tree
    /// when it holds at least the threshold of values (the parser's, set by
    /// `with_show_tree_after`, else the renderer's) or an error, and is not nested
    /// more than 16 groups deep.
    pub fn make_record(&self, dst: &mut LogRender)
        ensures
            final(dst).need_tree == ((self.ctx_size >= tree_threshold(self.use_tree_since, old(dst).expand_context_since)
                || self.has_errors) && self.group_depth <= 16),
            final(dst).time == self.time,
            final(dst).level == self.level,
            final(dst).loc == self.location,
            final(dst).msg == self.msg,
            final(dst).ctx@ == self.ctx.ctrl@,
            final(dst).err_stack@ == Seq::<(usize, usize)>::empty(),
            final(dst).slots@ == Seq::<Slot>::empty(),
            final(dst).tree_prefix == 0,
            final(dst).tree_depth == 0,
            final(dst).buf == old(dst).buf,
            final(dst).tree_always == old(dst).tree_always,
            final(dst).expand_array_since == old(dst).expand_array_since,
            final(dst).expand_context_since == old(dst).expand_context_since,
            final(dst).color_profile == old(dst).color_profile,
            final(dst).color_back == old(dst).color_back,
    {
        let threshold = match self.use_tree_since {
            Some(t) => t,
            None => dst.expand_context_since,
        };
        dst.need_tree = (self.ctx_size >= threshold || self.has_errors) && self.group_depth <= 16;
        dst.time = self.time;
        dst.level = self.level;
        dst.loc = self.location;
        dst.msg = self.msg;
        dst.err_stack.clear();
        dst.slots.clear();
        dst.tree_prefix = 0;
        dst.tree_depth = 0;
        let mut ctx: Vec<Node> = Vec::with_capacity(self.ctx.ctrl.len());
        let mut i: usize = 0;
        while i < self.ctx.ctrl.len()
            invariant
                i <= self.ctx.ctrl@.len(),
                ctx@ == self.ctx.ctrl@.take(i as int),
            decreases self.ctx.ctrl@.len() - i,
        {
            ctx.push(self.ctx.ctrl[i]);
            i += 1;
        }
        assert(ctx@ == self.ctx.ctrl@.take(i as int));
        dst.ctx = ctx;
    }
}

} // verus!
