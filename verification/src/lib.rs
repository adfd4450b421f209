//! Verified parsing, rendering and transformation of binary blog log records.
use vstd::prelude::*;

pub mod crc32custom;
pub mod log_parse;
pub mod value_kind;
pub mod itoa2;
pub mod level;
pub mod pointer_ext;
pub mod log_parser_node;
pub mod log_parser_tree_builder;
pub mod log_parser;
pub mod log_parser_parse;
pub mod log_rend;
pub mod log_rend_json;
pub mod log_render;
pub mod log_render_color;
pub mod log_render_json;
pub mod log_render_tree;
pub mod log_transfomer_into_json;
pub mod log_transformer_repack;
pub mod ctxview;

verus! {
} // verus!
