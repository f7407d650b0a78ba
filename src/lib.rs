//! A compiler from a small block markup to HTML.
//!
//! A document is a sequence of blocks `[name text]`. A block's text may hold
//! nested blocks, the formatting toggles `*` (bold), `/` (italic), `_`
//! (underline) and `~` (strikethrough), escapes with `\`, and lists whose
//! lines start with runs of `+` (unordered) or `=` (ordered). Blocks whose name
//! a plugin is registered under are handed to that plugin.
//!
//! `model` states what compiling yields; `parser` compiles and is verified
//! against it; `laws` proves properties of the model.
use vstd::prelude::*;

pub mod cli;
pub mod context;
pub mod error;
pub mod laws;
pub mod make;
pub mod model;
pub mod parser;
pub mod text;

pub use context::{Context, NoPlugin, Plugin};
pub use error::{Error, Line, Pos};
pub use model::Marks;
pub use parser::{parse, parse_block, parse_close_list, parse_open_list, parse_text_line};
pub use text::{is_valid_ch, is_whitespace, split_lines};

verus! {

/// Relies on `String::push`: the character is appended to the string.
pub assume_specification[ String::push ](s: &mut String, ch: char)
    ensures
        final(s)@ == old(s)@.push(ch),
;

} // verus!
