//! Terminal color profiles and the color escapes that the renderer writes.
use vstd::prelude::*;
use crate::log_render::LogRender;
use crate::pointer_ext::{append_str, lit};

verus! {

/// The escape sequences that a renderer writes around the parts of a record.
#[derive(Debug, Clone, Copy)]
pub struct ColorProfile {
    pub reset: &'static str,
    pub bold: &'static str,
    pub time: &'static str,
    pub trace: &'static str,
    pub debug: &'static str,
    pub info: &'static str,
    pub warn: &'static str,
    pub error: &'static str,
    pub panic: &'static str,
    pub levelu: &'static str,
    pub loc: &'static str,
    pub link: &'static str,
    pub st_dots: &'static str,
    pub st_text: &'static str,
    pub key: &'static str,
    pub err_key: &'static str,
    pub err_meta: &'static str,
    pub err_stage: &'static str,
    pub ctx: &'static str,
}

/// The profile for terminals with a dark background.
pub open spec fn dark_profile() -> ColorProfile {
    ColorProfile {
        reset: "\x1b[0m",
        bold: "\x1b[1m",
        time: "\x1b[35m",
        trace: "\x1b[90m",
        debug: "\x1b[36m",
        info: "\x1b[32m",
        warn: "\x1b[33m",
        error: "\x1b[31m",
        panic: "\x1b[1;41;97m",
        levelu: "\x1b[1;41;97m",
        loc: "\x1b[38;5;244m",
        link: "\x1b[38;5;236m",
        st_dots: "\x1b[38;5;236m",
        st_text: "\x1b[38;5;245m",
        key: "\x1b[38;5;109m",
        err_key: "\x1b[38;5;203m",
        err_meta: "\x1b[38;2;255;140;0m",
        err_stage: "\x1b[38;2;255;165;0m",
        ctx: "\x1b[38;5;252m",
    }
}

/// The profile for terminals with a light background.
pub open spec fn light_profile() -> ColorProfile {
    ColorProfile {
        reset: "\x1b[0m",
        bold: "\x1b[1m",
        time: "\x1b[95m",
        trace: "\x1b[90m",
        debug: "\x1b[36m",
        info: "\x1b[32m",
        warn: "\x1b[33m",
        error: "\x1b[31m",
        panic: "\x1b[1;41;97m",
        levelu: "\x1b[1;41;97m",
        loc: "\x1b[38;5;240m",
        link: "\x1b[38;5;248m",
        st_dots: "\x1b[38;5;252m",
        st_text: "\x1b[38;5;240m",
        key: "\x1b[38;5;31m",
        err_key: "\x1b[38;5;203m",
        err_meta: "\x1b[38;2;255;140;0m",
        err_stage: "\x1b[38;2;255;165;0m",
        ctx: "\x1b[38;5;238m",
    }
}

/// The profile without any escape sequence.
pub open spec fn noansi_profile() -> ColorProfile {
    ColorProfile {
        reset: "",
        bold: "",
        time: "",
        trace: "",
        debug: "",
        info: "",
        warn: "",
        error: "",
        panic: "",
        levelu: "",
        loc: "",
        link: "",
        st_dots: "",
        st_text: "",
        key: "",
        err_key: "",
        err_meta: "",
        err_stage: "",
        ctx: "",
    }
}

impl ColorProfile {
    /// Colors for a dark background.
    pub fn dark() -> (p: Self)
        ensures
            p == dark_profile(),
    {
        ColorProfile {
            reset: "\x1b[0m",
            bold: "\x1b[1m",
            time: "\x1b[35m",
            trace: "\x1b[90m",
            debug: "\x1b[36m",
            info: "\x1b[32m",
            warn: "\x1b[33m",
            error: "\x1b[31m",
            panic: "\x1b[1;41;97m",
            levelu: "\x1b[1;41;97m",
            loc: "\x1b[38;5;244m",
            link: "\x1b[38;5;236m",
            st_dots: "\x1b[38;5;236m",
            st_text: "\x1b[38;5;245m",
            key: "\x1b[38;5;109m",
            err_key: "\x1b[38;5;203m",
            err_meta: "\x1b[38;2;255;140;0m",
            err_stage: "\x1b[38;2;255;165;0m",
            ctx: "\x1b[38;5;252m",
        }
    }

    /// Colors for a light background.
    pub fn light() -> (p: Self)
        ensures
            p == light_profile(),
    {
        ColorProfile {
            reset: "\x1b[0m",
            bold: "\x1b[1m",
            time: "\x1b[95m",
            trace: "\x1b[90m",
            debug: "\x1b[36m",
            info: "\x1b[32m",
            warn: "\x1b[33m",
            error: "\x1b[31m",
            panic: "\x1b[1;41;97m",
            levelu: "\x1b[1;41;97m",
            loc: "\x1b[38;5;240m",
            link: "\x1b[38;5;248m",
            st_dots: "\x1b[38;5;252m",
            st_text: "\x1b[38;5;240m",
            key: "\x1b[38;5;31m",
            err_key: "\x1b[38;5;203m",
            err_meta: "\x1b[38;2;255;140;0m",
            err_stage: "\x1b[38;2;255;165;0m",
            ctx: "\x1b[38;5;238m",
        }
    }

    /// No colors at all.
    pub fn noansi() -> (p: Self)
        ensures
            p == noansi_profile(),
    {
        ColorProfile {
            reset: "",
            bold: "",
            time: "",
            trace: "",
            debug: "",
            info: "",
            warn: "",
            error: "",
            panic: "",
            levelu: "",
            loc: "",
            link: "",
            st_dots: "",
            st_text: "",
            key: "",
            err_key: "",
            err_meta: "",
            err_stage: "",
            ctx: "",
        }
    }
}

/// What resetting the color writes: the reset sequence, then the background color
/// that is in force, if any.
pub open spec fn reset_text(r: LogRender) -> Seq<u8> {
    lit(r.color_profile.reset) + match r.color_back {
        Some(x) => lit(x),
        None => Seq::empty(),
    }
}

impl LogRender {
    /// Writes the reset sequence and restores the background color in force.
    pub fn color_reset(&self, dst: &mut Vec<u8>)
        ensures
            final(dst)@ == old(dst)@ + reset_text(*self),
    {
        append_str(dst, self.color_profile.reset);
        match self.color_back {
            Some(x) => append_str(dst, x),
            None => {},
        }
    }

    /// Sets `back` as the background color in force and writes it.
    pub fn color_set_back(&mut self, dst: &mut Vec<u8>, back: &'static str)
        ensures
            *final(self) == (LogRender { color_back: Some(back), ..*old(self) }),
            final(dst)@ == old(dst)@ + lit(back),
    {
        self.color_back = Some(back);
        append_str(dst, back);
    }

    /// Sets the context color as the background color in force and writes it.
    pub fn color_set_back_ctx(&mut self, dst: &mut Vec<u8>)
        ensures
            *final(self) == (LogRender { color_back: Some(old(self).color_profile.ctx), ..*old(self) }),
            final(dst)@ == old(dst)@ + lit(old(self).color_profile.ctx),
    {
        self.color_back = Some(self.color_profile.ctx);
        append_str(dst, self.color_profile.ctx);
    }

    /// Drops the background color in force and writes the reset sequence.
    pub fn color_reset_back(&mut self, dst: &mut Vec<u8>)
        ensures
            *final(self) == (LogRender { color_back: None, ..*old(self) }),
            final(dst)@ == old(dst)@ + lit(old(self).color_profile.reset),
    {
        self.color_back = None;
        append_str(dst, self.color_profile.reset);
    }

    /// Writes the error stage color: bold, then the key color.
    pub fn color_err_stage(&self, dst: &mut Vec<u8>)
        ensures
            final(dst)@ == old(dst)@ + lit(self.color_profile.bold) + lit(self.color_profile.key),
    {
        append_str(dst, self.color_profile.bold);
        append_str(dst, self.color_profile.key);
    }
}

} // verus!
