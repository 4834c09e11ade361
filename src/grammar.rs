//! The grammar, stated over the bytes of the input. Each rule takes a position
//! and yields a node with the position just past it, or the error it fails with.
use vstd::prelude::*;
use crate::ast::{ArgumentModel, BodyModel, CommandModel, PathModel, UnitModel};
use crate::error::{error_at, Expected, ParseError};
use crate::span::{span_of, Span};

verus! {

/// How deeply bodies may nest inside one another.
pub const MAX_DEPTH: usize = 256;

/// Bytes with a meaning in the grammar.
pub const UNDERSCORE: u8 = 95;
pub const QUOTE: u8 = 34;
pub const BACKSLASH: u8 = 92;
pub const OPEN_PAREN: u8 = 40;
pub const CLOSE_PAREN: u8 = 41;
pub const OPEN_BRACE: u8 = 123;
pub const CLOSE_BRACE: u8 = 125;
pub const PIPE: u8 = 124;
pub const DOT: u8 = 46;
pub const SLASH: u8 = 47;
pub const STAR: u8 = 42;
pub const SPACE: u8 = 32;
pub const TAB: u8 = 9;
pub const NEWLINE: u8 = 10;

/// `[A-Za-z0-9_]`
pub open spec fn is_word_byte(b: u8) -> bool {
    (97 <= b <= 122) || (65 <= b <= 90) || (48 <= b <= 57) || b == UNDERSCORE
}

/// A space or a tab; a newline too where `newlines` holds.
pub open spec fn is_space_byte(b: u8, newlines: bool) -> bool {
    b == SPACE || b == TAB || (newlines && b == NEWLINE)
}

/// The bytes that open an argument.
pub open spec fn is_argument_start(b: u8) -> bool {
    is_word_byte(b) || b == QUOTE || b == OPEN_PAREN || b == OPEN_BRACE
}

pub open spec fn byte_at_is(s: Seq<u8>, i: int, b: u8) -> bool {
    0 <= i < s.len() && s[i] == b
}

pub open spec fn starts_comment(s: Seq<u8>, i: int) -> bool {
    byte_at_is(s, i, SLASH) && byte_at_is(s, i + 1, STAR)
}

/// The end of the run of word bytes that starts at `i`.
pub open spec fn word_end(s: Seq<u8>, i: int) -> int
    recommends
        0 <= i <= s.len(),
    decreases s.len() - i,
{
    if 0 <= i < s.len() && is_word_byte(s[i]) {
        word_end(s, i + 1)
    } else {
        i
    }
}

/// Inside a comment, from `i` on: the position just past the first `*/`.
pub open spec fn comment_close(s: Seq<u8>, i: int) -> Option<int>
    decreases s.len() - i,
{
    if i < 0 || i + 1 >= s.len() {
        None
    } else if s[i] == STAR && s[i + 1] == SLASH {
        Some(i + 2)
    } else {
        comment_close(s, i + 1)
    }
}

/// The end of the run of spaces and comments that starts at `i` (`i` itself
/// where there is none). A comment that never closes ends the run before it
/// once the run holds a piece; as the run's first piece it is an error.
pub open spec fn whitespace_end(s: Seq<u8>, i: int, newlines: bool) -> Result<int, ParseError> {
    whitespace_from(s, i, newlines, true)
}

/// The run of spaces and comments from `i` on; `first` holds where no piece
/// of it has been taken yet.
pub open spec fn whitespace_from(s: Seq<u8>, i: int, newlines: bool, first: bool) -> Result<int, ParseError>
    decreases s.len() - i,
{
    if 0 <= i < s.len() && is_space_byte(s[i], newlines) {
        whitespace_from(s, i + 1, newlines, false)
    } else if starts_comment(s, i) {
        match comment_close(s, i + 2) {
            None => if first {
                Err(error_at(s.len() as int, Expected::CommentEnd))
            } else {
                Ok(i)
            },
            Some(j) => if i < j <= s.len() {
                whitespace_from(s, j, newlines, false)
            } else {
                Ok(i)
            },
        }
    } else {
        Ok(i)
    }
}

/// Inside a quoted string, from `i` on: the position of the closing quote.
pub open spec fn quoted_end(s: Seq<u8>, i: int) -> Result<int, ParseError>
    decreases s.len() - i,
{
    if i < 0 || i >= s.len() {
        Err(error_at(s.len() as int, Expected::ClosingQuote))
    } else if s[i] == QUOTE {
        Ok(i)
    } else if s[i] == BACKSLASH {
        if byte_at_is(s, i + 1, QUOTE) {
            quoted_end(s, i + 2)
        } else {
            Err(error_at(i, Expected::ClosingQuote))
        }
    } else {
        quoted_end(s, i + 1)
    }
}

/// What a quoted string stands for: its inside with each `\"` read as `"`.
pub open spec fn unescape(t: Seq<u8>) -> Seq<u8>
    decreases t.len(),
{
    if t.len() == 0 {
        seq![]
    } else if t.len() >= 2 && t[0] == BACKSLASH && t[1] == QUOTE {
        seq![QUOTE] + unescape(t.subrange(2, t.len() as int))
    } else {
        seq![t[0]] + unescape(t.subrange(1, t.len() as int))
    }
}

/// The components after the first of a command path: `.word` while one follows.
pub open spec fn path_rest(s: Seq<u8>, i: int, comps: Seq<Span>) -> (Seq<Span>, int)
    decreases s.len() - i,
{
    if byte_at_is(s, i, DOT) && i + 1 < word_end(s, i + 1) <= s.len() {
        path_rest(s, word_end(s, i + 1), comps.push(span_of(i + 1, word_end(s, i + 1))))
    } else {
        (comps, i)
    }
}

/// `word ('.' word)*`
pub open spec fn path_at(s: Seq<u8>, i: int) -> Result<(PathModel, int), ParseError> {
    let e = word_end(s, i);
    if e <= i {
        Err(error_at(i, Expected::CommandPath))
    } else {
        let (comps, end) = path_rest(s, e, seq![span_of(i, e)]);
        Ok((PathModel { span: span_of(i, end), components: comps }, end))
    }
}

/// One argument: a word, a quoted string, `( body )` or `{ body }`, chosen by
/// its first byte.
pub open spec fn argument_at(s: Seq<u8>, i: int, depth: int) -> Result<(ArgumentModel, int), ParseError>
    decreases MAX_DEPTH - depth, 0int, 0int,
{
    if i < 0 || i >= s.len() || !is_argument_start(s[i]) {
        Err(error_at(i, Expected::Argument))
    } else if is_word_byte(s[i]) {
        Ok((ArgumentModel::Text { span: span_of(i, word_end(s, i)), quoted: false }, word_end(s, i)))
    } else if s[i] == QUOTE {
        match quoted_end(s, i + 1) {
            Err(e) => Err(e),
            Ok(q) => Ok((ArgumentModel::Text { span: span_of(i + 1, q), quoted: true }, q + 1)),
        }
    } else if depth >= MAX_DEPTH {
        Err(error_at(i, Expected::NestingTooDeep))
    } else {
        let close = if s[i] == OPEN_PAREN { CLOSE_PAREN } else { CLOSE_BRACE };
        match units_at(s, i + 1, depth + 1, Some(close), seq![]) {
            Err(e) => Err(e),
            Ok((units, e)) => {
                let body = BodyModel { span: span_of(i + 1, e), units };
                if s[i] == OPEN_PAREN {
                    Ok((ArgumentModel::Subcall(body), e + 1))
                } else {
                    Ok((ArgumentModel::Function(body), e + 1))
                }
            },
        }
    }
}

/// The rest of a pipeline after the arguments in `acc`, from the argument at `i`.
pub open spec fn pipeline_at(s: Seq<u8>, i: int, depth: int, acc: Seq<ArgumentModel>) -> Result<(Seq<ArgumentModel>, int), ParseError>
    decreases MAX_DEPTH - depth, 1int, s.len() - i,
{
    match argument_at(s, i, depth) {
        Err(e) => Err(e),
        Ok((a, e)) => {
            if e > i && byte_at_is(s, e, PIPE) {
                pipeline_at(s, e + 1, depth, acc.push(a))
            } else {
                Ok((acc.push(a), e))
            }
        },
    }
}

/// Arguments separated by `|`: none, or one and then one more after each `|`.
pub open spec fn arguments_at(s: Seq<u8>, i: int, depth: int) -> Result<(Seq<ArgumentModel>, int), ParseError>
    decreases MAX_DEPTH - depth, 2int, 0int,
{
    if byte_at_is(s, i, PIPE) {
        Err(error_at(i, Expected::Argument))
    } else if 0 <= i < s.len() && is_argument_start(s[i]) {
        pipeline_at(s, i, depth, seq![])
    } else {
        Ok((seq![], i))
    }
}

/// A command path, then, after optional spaces or comments on the same line,
/// its pipeline if an argument starts there.
pub open spec fn command_at(s: Seq<u8>, i: int, depth: int) -> Result<(CommandModel, int), ParseError>
    decreases MAX_DEPTH - depth, 3int, 0int,
{
    match path_at(s, i) {
        Err(e) => Err(e),
        Ok((p, pe)) => match whitespace_end(s, pe, false) {
            Err(e) => Err(e),
            Ok(g) => {
                if 0 <= g < s.len() && is_argument_start(s[g]) {
                    match arguments_at(s, g, depth) {
                        Err(e) => Err(e),
                        Ok((args, ae)) => Ok((CommandModel { span: span_of(i, ae), path: p, arguments: args }, ae)),
                    }
                } else {
                    Ok((CommandModel { span: span_of(i, pe), path: p, arguments: seq![] }, pe))
                }
            },
        },
    }
}

/// What may follow a command: the end of the input, the closing delimiter,
/// whitespace or a comment.
pub open spec fn separator_at(s: Seq<u8>, i: int, close: Option<u8>) -> bool {
    i >= s.len() || close == Some(s[i]) || is_space_byte(s[i], true) || starts_comment(s, i)
}

/// The units from `i` to the end of the input (`close` is `None`) or to the
/// closing delimiter, after the units in `acc`; the position of the end or of
/// the delimiter.
pub open spec fn units_at(s: Seq<u8>, i: int, depth: int, close: Option<u8>, acc: Seq<UnitModel>) -> Result<(Seq<UnitModel>, int), ParseError>
    decreases MAX_DEPTH - depth, 4int, s.len() - i,
{
    if i < 0 || i >= s.len() {
        if close is None {
            Ok((acc, i))
        } else {
            Err(error_at(i, Expected::ClosingDelimiter))
        }
    } else if close == Some(s[i]) {
        Ok((acc, i))
    } else {
        match whitespace_end(s, i, true) {
            Err(e) => Err(e),
            Ok(w) => {
                if i < w <= s.len() {
                    units_at(s, w, depth, close, acc.push(UnitModel::Empty(span_of(i, w))))
                } else {
                    match command_at(s, i, depth) {
                        Err(e) => Err(e),
                        Ok((c, ce)) => {
                            if !separator_at(s, ce, close) {
                                Err(error_at(ce, Expected::Separator))
                            } else if i < ce <= s.len() {
                                units_at(s, ce, depth, close, acc.push(UnitModel::Command(c)))
                            } else {
                                Err(error_at(ce, Expected::Separator))
                            }
                        },
                    }
                }
            },
        }
    }
}

/// The whole input as a program.
pub open spec fn program_of(s: Seq<u8>) -> Result<BodyModel, ParseError> {
    match units_at(s, 0, 0, None, seq![]) {
        Err(e) => Err(e),
        Ok((units, _)) => Ok(BodyModel { span: span_of(0, s.len() as int), units }),
    }
}

} // verus!
