//! Markdown-to-HTML templating: a small placeholder and filter language, a
//! metadata block grammar, and an offset-preserving substitution engine.

pub mod document;
pub mod filter;
pub mod filter_parse;
pub mod meta;
pub mod placeholder;
pub mod render;
pub mod scan;
pub mod span;
pub mod substitute;
pub mod text;
pub mod variables;

pub use document::{
    get_allow_list, render_document, separate_headings, unused_variables, AllowList,
};
pub use filter::{Filter, TextCase};
pub use span::{Marker, Selection, Span, SyntaxError};
pub use text::{is_alphabetic, is_filter_arg, is_filter_name, is_filter_value};
pub use filter_parse::{parse_filter, parse_filter_args, parse_filter_key_value, parse_filters};
pub use meta::{
    parse_meta_comment, parse_meta_key, parse_meta_key_value, parse_meta_line,
    parse_meta_section, parse_meta_value, parse_title, parse_until_eol, parse_variable,
    parse_variable_name, Meta,
};
pub use placeholder::{
    parse_placeholder, parse_placeholder_locations, take_till_placeholder, Placeholder,
};
pub use render::{render_filter, replace_substring, split_string, try_render_filter};
pub use substitute::{render_filters, splice, substitute, Patch};
pub use variables::{create_variables, RenderError, Variables};
