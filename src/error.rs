use vstd::prelude::*;

verus! {

/// What the parser expected at the place where it failed.
#[derive(Clone, Copy, PartialEq, Eq, Structural, Debug)]
pub enum Expected {
    /// The `*/` that closes a comment.
    CommentEnd,
    /// The `"` that closes a quoted string (a `\` may only escape a `"`).
    ClosingQuote,
    /// A word, the first component of a command path.
    CommandPath,
    /// One of the argument forms: word, quoted string, `( ... )`, `{ ... }`.
    Argument,
    /// Whitespace, a comment or the end of the enclosing scope after a command.
    Separator,
    /// The `)` or `}` that closes a nested body.
    ClosingDelimiter,
    /// Nothing: bodies are nested deeper than the parser allows.
    NestingTooDeep,
}

/// A failed parse: the byte offset where matching failed and what was expected there.
#[derive(Clone, Copy, PartialEq, Eq, Structural, Debug)]
pub struct ParseError {
    pub position: usize,
    pub expected: Expected,
}

pub open spec fn error_at(pos: int, expected: Expected) -> ParseError {
    ParseError { position: pos as usize, expected }
}

/// The alternatives that were tried where each expectation failed.
pub open spec fn alternatives_of(e: Expected) -> Seq<Seq<char>> {
    match e {
        Expected::CommentEnd => seq!["*/"@],
        Expected::ClosingQuote => seq!["\""@],
        Expected::CommandPath => seq!["word"@],
        Expected::Argument => seq!["word"@, "quoted string"@, "("@, "{"@],
        Expected::Separator => seq!["whitespace"@, "comment"@, "end of scope"@],
        Expected::ClosingDelimiter => seq![")"@, "}"@],
        Expected::NestingTooDeep => seq![],
    }
}

/// The human-readable description of each expectation.
pub open spec fn description_of(e: Expected) -> Seq<char> {
    match e {
        Expected::CommentEnd => "expected `*/` to close the comment"@,
        Expected::ClosingQuote => "expected `\"` to close the string"@,
        Expected::CommandPath => "expected a command name"@,
        Expected::Argument => "expected an argument"@,
        Expected::Separator => "expected whitespace or the end of the command list"@,
        Expected::ClosingDelimiter => "expected a closing delimiter"@,
        Expected::NestingTooDeep => "bodies are nested too deeply"@,
    }
}

impl Expected {
    /// The alternatives that were tried at the failing position.
    pub fn alternatives(&self) -> (r: Vec<&'static str>)
        ensures
            r@.len() == alternatives_of(*self).len(),
            forall|k: int| 0 <= k < r@.len() ==> (#[trigger] r@[k])@ == alternatives_of(*self)[k],
    {
        let r = match self {
            Expected::CommentEnd => vec!["*/"],
            Expected::ClosingQuote => vec!["\""],
            Expected::CommandPath => vec!["word"],
            Expected::Argument => vec!["word", "quoted string", "(", "{"],
            Expected::Separator => vec!["whitespace", "comment", "end of scope"],
            Expected::ClosingDelimiter => vec![")", "}"],
            Expected::NestingTooDeep => vec![],
        };
        r
    }

    /// A human-readable description of what was expected.
    pub fn description(&self) -> (r: &'static str)
        ensures
            r@ == description_of(*self),
    {
        match self {
            Expected::CommentEnd => "expected `*/` to close the comment",
            Expected::ClosingQuote => "expected `\"` to close the string",
            Expected::CommandPath => "expected a command name",
            Expected::Argument => "expected an argument",
            Expected::Separator => "expected whitespace or the end of the command list",
            Expected::ClosingDelimiter => "expected a closing delimiter",
            Expected::NestingTooDeep => "bodies are nested too deeply",
        }
    }
}

} // verus!
