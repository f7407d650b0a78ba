//! What a caller hands the compiler: plugins and the text injected into the page.
use vstd::prelude::*;

use crate::error::{Error, Line, Pos};
use crate::model::Outcome;
use crate::parser::block_result;
use crate::text::doc;

verus! {

/// A handler for blocks of one name. It is called with the cursor just after
/// the block's name and the output so far, and hands back where to go on and
/// the extended output. It may call `parse_text_line` and `parse_block` to
/// compile the block's text as the compiler would.
pub trait Plugin: Sized {
    /// What the plugin makes of a block whose text starts at `(line, pos)` of
    /// `lines`, with `output` written so far. A plugin that states nothing of
    /// its result leaves this `Deferred`, and then nothing is claimed of it.
    open spec fn expansion(
        &self,
        lines: Seq<Seq<char>>,
        line: int,
        pos: int,
        output: Seq<char>,
        ctx: &Context<Self>,
    ) -> Outcome<(int, int, Seq<char>)> {
        Outcome::Deferred
    }

    fn expand(
        &self,
        lines: &Vec<Vec<char>>,
        line: Line,
        pos: Pos,
        output: String,
        ctx: &Context<Self>,
    ) -> (r: Result<(Line, Pos, String), Error>)
        ensures
            block_result(r, self.expansion(doc(lines), line as int, pos as int, output@, ctx)),
    ;
}

/// The caller's configuration of one compilation.
pub struct Context<P> {
    /// Plugins by block name; where a name occurs twice the first entry serves.
    pub plugins: Vec<(String, P)>,
    /// Text written into the page's `<head>`.
    pub head_insert: String,
    /// Text written at the start of the page's `<body>`.
    pub body_insert: String,
}

/// The names under which plugins are registered, in order.
pub open spec fn plugin_names<P>(ctx: &Context<P>) -> Seq<Seq<char>> {
    ctx.plugins@.map_values(|e: (String, P)| e.0@)
}

/// A plugin type for contexts that register none.
pub struct NoPlugin;

/// The message of `NoPlugin`'s failure.
pub const NO_PLUGIN: &'static str = "No plugin handles this block.";

impl Plugin for NoPlugin {
    open spec fn expansion(
        &self,
        lines: Seq<Seq<char>>,
        line: int,
        pos: int,
        output: Seq<char>,
        ctx: &Context<Self>,
    ) -> Outcome<(int, int, Seq<char>)> {
        Outcome::Failed(Error::OtherError(line as Line, pos as Pos, NO_PLUGIN))
    }

    fn expand(
        &self,
        lines: &Vec<Vec<char>>,
        line: Line,
        pos: Pos,
        output: String,
        ctx: &Context<Self>,
    ) -> (r: Result<(Line, Pos, String), Error>) {
        Err(Error::OtherError(line, pos, NO_PLUGIN))
    }
}

impl<P> Context<P> {
    /// A context with no plugins and the given text for the page's head and
    /// body.
    pub fn create(head_insert: String, body_insert: String) -> (r: Self)
        ensures
            r.plugins@.len() == 0,
            r.head_insert@ == head_insert@,
            r.body_insert@ == body_insert@,
    {
        Context { plugins: Vec::new(), head_insert, body_insert }
    }

    /// Registers `plugin` for blocks named `name`, after those already there.
    pub fn register(&mut self, name: String, plugin: P)
        ensures
            final(self).plugins@ == old(self).plugins@.push((name, plugin)),
            final(self).head_insert == old(self).head_insert,
            final(self).body_insert == old(self).body_insert,
    {
        self.plugins.push((name, plugin));
    }
}

} // verus!
