use vstd::prelude::*;

verus! {

/// Index of a line in the source, counted from zero.
pub type Line = usize;

/// Index of a character within its line, counted from zero.
pub type Pos = usize;

/// Everything that can go wrong while compiling a document. Each kind carries
/// the line and the character at which it was detected.
#[derive(Debug, Clone, PartialEq, Eq)]
pub enum Error {
    /// A `[` stands at the very end of a line, so the block has no name.
    BlockNameNoEnd(Line, Pos),
    /// Text other than whitespace stands outside every block.
    ExpectedBlockStart(Line, Pos),
    /// The document ended before the block opened on this line was closed.
    BlockNoEnd(Line, Pos),
    /// A block's name holds a character other than an ASCII letter or `_`.
    BadBlockName(Line, Pos),
    /// A `*` opened here is still open where its line or block ends.
    UnclosedBold(Line, Pos),
    /// A `/` opened here is still open where its line or block ends.
    UnclosedItalic(Line, Pos),
    /// A `_` opened here is still open where its line or block ends.
    UnclosedUnderline(Line, Pos),
    /// A `~` opened here is still open where its line or block ends.
    UnclosedStrikethrough(Line, Pos),
    /// A `\` precedes a character that cannot be escaped.
    StrayBackslash(Line, Pos),
    /// A list marker opens the text of a list item.
    RecursiveList(Line, Pos),
    /// A list line is nested more than one level deeper than the line before.
    InvalidListDepth(Line, Pos),
    /// A failure reported by a plugin, with its own message.
    OtherError(Line, Pos, &'static str),
}

impl Error {
    /// The human-readable explanation of the error.
    pub open spec fn message_of(self) -> Seq<char> {
        match self {
            Error::BlockNameNoEnd(_, _) => "Block's name is not defined correctly as `[my_name ...]`."@,
            Error::ExpectedBlockStart(_, _) => "Text must stand inside a block `[my_name ...]`."@,
            Error::BlockNoEnd(_, _) => "Block's openning `[` is not matched with a corresponding `]`."@,
            Error::BadBlockName(_, _) => "Block names must only use characters a-z, A-Z, or '_'."@,
            Error::UnclosedBold(_, _) => "Openning `*` must be matched with a closing `*`. Or, you meant to escape the `*` with `\\*`."@,
            Error::UnclosedItalic(_, _) => "Openning `/` must be matched with a closing `/`. Or, you meant to escape the `/` with `\\/`."@,
            Error::UnclosedUnderline(_, _) => "Openning `_` must be matched with a closing `_`. Or, you meant to escape the `_` with `\\_`."@,
            Error::UnclosedStrikethrough(_, _) => "Openning `~` must be matched with a closing `~`. Or, you meant to escape the `~` with `\\~`."@,
            Error::StrayBackslash(_, _) => "A stray `\\` is not allowed. However, you can escape it using `\\\\`."@,
            Error::RecursiveList(_, _) => "Lists cannot Recurse. In other words, you cannot do this: `+ + Hello World`. Perhaps you meant to use `++ Hello World`"@,
            Error::InvalidListDepth(_, _) => "List nesting depth is invalid. In other words: `+ Layer One` cannot be followed by `++++ Layer Four!`."@,
            Error::OtherError(_, _, m) => m@,
        }
    }

    /// The line at which the error was detected.
    pub open spec fn line_of(self) -> Line {
        match self {
            Error::BlockNameNoEnd(l, _) => l,
            Error::ExpectedBlockStart(l, _) => l,
            Error::BlockNoEnd(l, _) => l,
            Error::BadBlockName(l, _) => l,
            Error::UnclosedBold(l, _) => l,
            Error::UnclosedItalic(l, _) => l,
            Error::UnclosedUnderline(l, _) => l,
            Error::UnclosedStrikethrough(l, _) => l,
            Error::StrayBackslash(l, _) => l,
            Error::RecursiveList(l, _) => l,
            Error::InvalidListDepth(l, _) => l,
            Error::OtherError(l, _, _) => l,
        }
    }

    /// Describes the error for a reader of the document.
    pub fn message(&self) -> (r: &'static str)
        ensures
            r@ == self.message_of(),
    {
        match self {
            Error::BlockNameNoEnd(_, _) => "Block's name is not defined correctly as `[my_name ...]`.",
            Error::ExpectedBlockStart(_, _) => "Text must stand inside a block `[my_name ...]`.",
            Error::BlockNoEnd(_, _) => "Block's openning `[` is not matched with a corresponding `]`.",
            Error::BadBlockName(_, _) => "Block names must only use characters a-z, A-Z, or '_'.",
            Error::UnclosedBold(_, _) => "Openning `*` must be matched with a closing `*`. Or, you meant to escape the `*` with `\\*`.",
            Error::UnclosedItalic(_, _) => "Openning `/` must be matched with a closing `/`. Or, you meant to escape the `/` with `\\/`.",
            Error::UnclosedUnderline(_, _) => "Openning `_` must be matched with a closing `_`. Or, you meant to escape the `_` with `\\_`.",
            Error::UnclosedStrikethrough(_, _) => "Openning `~` must be matched with a closing `~`. Or, you meant to escape the `~` with `\\~`.",
            Error::StrayBackslash(_, _) => "A stray `\\` is not allowed. However, you can escape it using `\\\\`.",
            Error::RecursiveList(_, _) => "Lists cannot Recurse. In other words, you cannot do this: `+ + Hello World`. Perhaps you meant to use `++ Hello World`",
            Error::InvalidListDepth(_, _) => "List nesting depth is invalid. In other words: `+ Layer One` cannot be followed by `++++ Layer Four!`.",
            Error::OtherError(_, _, m) => *m,
        }
    }

    /// The line at which the error was detected.
    pub fn line(&self) -> (r: Line)
        ensures
            r == self.line_of(),
    {
        match self {
            Error::BlockNameNoEnd(l, _) => *l,
            Error::ExpectedBlockStart(l, _) => *l,
            Error::BlockNoEnd(l, _) => *l,
            Error::BadBlockName(l, _) => *l,
            Error::UnclosedBold(l, _) => *l,
            Error::UnclosedItalic(l, _) => *l,
            Error::UnclosedUnderline(l, _) => *l,
            Error::UnclosedStrikethrough(l, _) => *l,
            Error::StrayBackslash(l, _) => *l,
            Error::RecursiveList(l, _) => *l,
            Error::InvalidListDepth(l, _) => *l,
            Error::OtherError(l, _, _) => *l,
        }
    }
}

} // verus!
