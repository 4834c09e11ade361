//! The parser: each function follows one rule of the grammar and is proved to
//! return exactly what the rule yields.
use vstd::prelude::*;
use vstd::string::StringSliceAdditionalSpecFns;
use crate::ast::{
    argument_model, arguments_model, command_model, path_model, program_model, unit_model,
    units_model, Argument, Body, BodyModel, Command, CommandPath, CommandType, EmptyCommand,
    Function, Program, String, Subcall, UnitModel,
};
use crate::error::{Expected, ParseError};
use crate::grammar::{
    argument_at, arguments_at, command_at, comment_close, is_word_byte, path_at, path_rest,
    pipeline_at, program_of, quoted_end, separator_at, units_at, whitespace_end, whitespace_from, word_end,
    BACKSLASH, CLOSE_BRACE, CLOSE_PAREN, DOT, MAX_DEPTH, NEWLINE, OPEN_BRACE, OPEN_PAREN, PIPE,
    QUOTE, SLASH, SPACE, STAR, TAB,
};
use crate::span::{span_of, Span};

verus! {

/// `r` is the executable form of the rule's outcome `m`, under the model `f`.
pub open spec fn outcome_is<T, M>(r: Result<(T, usize), ParseError>, m: Result<(M, int), ParseError>, f: spec_fn(T) -> M) -> bool {
    match r {
        Ok((t, e)) => m == Ok::<(M, int), ParseError>((f(t), e as int)),
        Err(err) => m == Err::<(M, int), ParseError>(err),
    }
}

/// `r` is what the grammar makes of the whole input `s`.
pub open spec fn program_outcome(s: Seq<u8>, r: Result<Program, ParseError>) -> bool {
    match r {
        Ok(p) => program_of(s) == Ok::<BodyModel, ParseError>(program_model(p)),
        Err(e) => program_of(s) == Err::<BodyModel, ParseError>(e),
    }
}

/// `[A-Za-z0-9_]`
pub open spec fn is_word_char(c: char) -> bool {
    ('a' <= c <= 'z') || ('A' <= c <= 'Z') || ('0' <= c <= '9') || c == '_'
}

/// Whether `c` may stand in a word.
pub fn alphanumeric_underscore(c: char) -> (r: bool)
    ensures
        r == is_word_char(c),
{
    ('a' <= c && c <= 'z') || ('A' <= c && c <= 'Z') || ('0' <= c && c <= '9') || c == '_'
}

fn word_byte(b: u8) -> (r: bool)
    ensures
        r == is_word_byte(b),
{
    alphanumeric_underscore(b as char)
}

/// The end of the run of word bytes at `i`.
fn scan_word(s: &[u8], i: usize) -> (r: usize)
    requires
        i <= s@.len(),
    ensures
        r as int == word_end(s@, i as int),
        i <= r <= s@.len(),
        i < s@.len() && is_word_byte(s@[i as int]) ==> i < r,
{
    let mut j: usize = i;
    while j < s.len() && word_byte(s[j])
        invariant
            i <= j <= s@.len(),
            word_end(s@, j as int) == word_end(s@, i as int),
        decreases s@.len() - j,
    {
        j = j + 1;
    }
    j
}

} // verus!

verus! {

/// Inside a comment, from `i` on: the position just past the first `*/`.
fn scan_comment_close(s: &[u8], i: usize) -> (r: Option<usize>)
    requires
        i <= s@.len(),
    ensures
        match r {
            None => comment_close(s@, i as int) is None,
            Some(j) => comment_close(s@, i as int) == Some(j as int) && i + 2 <= j <= s@.len(),
        },
{
    let mut j: usize = i;
    while s.len() - j >= 2
        invariant
            i <= j <= s@.len(),
            comment_close(s@, j as int) == comment_close(s@, i as int),
        decreases s@.len() - j,
    {
        if s[j] == STAR && s[j + 1] == SLASH {
            return Some(j + 2);
        }
        j = j + 1;
    }
    None
}

/// Skips spaces (newlines too where `newlines` holds) and comments from `i` on.
fn skip_whitespace(s: &[u8], i: usize, newlines: bool) -> (r: Result<usize, ParseError>)
    requires
        i <= s@.len(),
    ensures
        match r {
            Ok(e) => whitespace_end(s@, i as int, newlines) == Ok::<int, ParseError>(e as int)
                && i <= e <= s@.len(),
            Err(err) => whitespace_end(s@, i as int, newlines) == Err::<int, ParseError>(err),
        },
{
    let mut j: usize = i;
    loop
        invariant
            i <= j <= s@.len(),
            whitespace_from(s@, j as int, newlines, j == i) == whitespace_end(s@, i as int, newlines),
        decreases s@.len() - j,
    {
        if j < s.len() && (s[j] == SPACE || s[j] == TAB || (newlines && s[j] == NEWLINE)) {
            j = j + 1;
        } else if s.len() - j >= 2 && s[j] == SLASH && s[j + 1] == STAR {
            match scan_comment_close(s, j + 2) {
                None => {
                    if j == i {
                        return Err(ParseError { position: s.len(), expected: Expected::CommentEnd });
                    } else {
                        return Ok(j);
                    }
                },
                Some(k) => {
                    j = k;
                },
            }
        } else {
            return Ok(j);
        }
    }
}

/// Inside a quoted string, from `i` on: the position of the closing quote.
fn scan_quoted(s: &[u8], i: usize) -> (r: Result<usize, ParseError>)
    requires
        i <= s@.len(),
    ensures
        match r {
            Ok(q) => quoted_end(s@, i as int) == Ok::<int, ParseError>(q as int) && i <= q < s@.len(),
            Err(err) => quoted_end(s@, i as int) == Err::<int, ParseError>(err),
        },
{
    let mut j: usize = i;
    loop
        invariant
            i <= j <= s@.len(),
            quoted_end(s@, j as int) == quoted_end(s@, i as int),
        decreases s@.len() - j,
    {
        if j >= s.len() {
            return Err(ParseError { position: s.len(), expected: Expected::ClosingQuote });
        } else if s[j] == QUOTE {
            return Ok(j);
        } else if s[j] == BACKSLASH {
            if j + 1 < s.len() && s[j + 1] == QUOTE {
                j = j + 2;
            } else {
                return Err(ParseError { position: j, expected: Expected::ClosingQuote });
            }
        } else {
            j = j + 1;
        }
    }
}

/// A command path at `i`.
fn path_from(s: &[u8], i: usize) -> (r: Result<(CommandPath, usize), ParseError>)
    requires
        i <= s@.len(),
    ensures
        outcome_is(r, path_at(s@, i as int), |p: CommandPath| path_model(p)),
        match r {
            Ok((_, e)) => i < e <= s@.len(),
            Err(_) => true,
        },
{
    let e = scan_word(s, i);
    if e == i {
        return Err(ParseError { position: i, expected: Expected::CommandPath });
    }
    let mut comps: Vec<Span> = vec![Span { start: i, end: e }];
    let mut j: usize = e;
    assert(comps@ =~= seq![span_of(i as int, e as int)]);
    loop
        invariant
            e <= j <= s@.len(),
            path_rest(s@, j as int, comps@) == path_rest(s@, e as int, seq![span_of(i as int, e as int)]),
        ensures
            e <= j <= s@.len(),
            path_rest(s@, e as int, seq![span_of(i as int, e as int)]) == (comps@, j as int),
        decreases s@.len() - j,
    {
        let k = if j < s.len() && s[j] == DOT {
            scan_word(s, j + 1)
        } else {
            j
        };
        if k - j > 1 {
            comps.push(Span { start: j + 1, end: k });
            j = k;
        } else {
            break;
        }
    }
    Ok((CommandPath { span: Span { start: i, end: j }, components: comps }, j))
}

} // verus!

verus! {

/// The bare word at `i`: `[A-Za-z0-9_]+`, as long as it goes; an error where
/// no word byte stands at `i`.
fn parse_word(s: &[u8], i: usize) -> (r: Result<(String, usize), ParseError>)
    requires
        i <= s@.len(),
    ensures
        if i < s@.len() && is_word_byte(s@[i as int]) {
            r == Ok::<(String, usize), ParseError>((
                String { span: span_of(i as int, word_end(s@, i as int)), quoted: false },
                word_end(s@, i as int) as usize,
            )) && i < word_end(s@, i as int) <= s@.len()
        } else {
            r == Err::<(String, usize), ParseError>(ParseError { position: i, expected: Expected::Argument })
        },
{
    if i < s.len() && word_byte(s[i]) {
        let e = scan_word(s, i);
        Ok((String { span: Span { start: i, end: e }, quoted: false }, e))
    } else {
        Err(ParseError { position: i, expected: Expected::Argument })
    }
}

/// The quoted string whose opening quote is at `i`; its span is the inside.
/// An error where no quote stands at `i`, or as the inside's rule gives it.
fn parse_quoted_string(s: &[u8], i: usize) -> (r: Result<(String, usize), ParseError>)
    requires
        i <= s@.len(),
    ensures
        !(i < s@.len() && s@[i as int] == QUOTE) ==> r == Err::<(String, usize), ParseError>(
            ParseError { position: i, expected: Expected::Argument },
        ),
        i < s@.len() && s@[i as int] == QUOTE ==> match r {
            Ok((t, e)) => quoted_end(s@, i + 1) == Ok::<int, ParseError>(e - 1)
                && t == (String { span: span_of(i + 1, e - 1), quoted: true })
                && i + 1 < e <= s@.len(),
            Err(err) => quoted_end(s@, i + 1) == Err::<int, ParseError>(err),
        },
{
    if !(i < s.len() && s[i] == QUOTE) {
        return Err(ParseError { position: i, expected: Expected::Argument });
    }
    match scan_quoted(s, i + 1) {
        Err(err) => Err(err),
        Ok(q) => Ok((String { span: Span { start: i + 1, end: q }, quoted: true }, q + 1)),
    }
}

/// One argument at `i`, inside bodies nested `depth` deep.
fn argument_from(s: &[u8], i: usize, depth: usize) -> (r: Result<(Argument, usize), ParseError>)
    requires
        i <= s@.len(),
        depth <= MAX_DEPTH,
    ensures
        outcome_is(r, argument_at(s@, i as int, depth as int), |a: Argument| argument_model(a)),
        match r {
            Ok((_, e)) => i < e <= s@.len(),
            Err(_) => true,
        },
    decreases MAX_DEPTH - depth, 0int, 0int,
{
    if i >= s.len() || !(word_byte(s[i]) || s[i] == QUOTE || s[i] == OPEN_PAREN || s[i] == OPEN_BRACE) {
        return Err(ParseError { position: i, expected: Expected::Argument });
    }
    if word_byte(s[i]) {
        match parse_word(s, i) {
            Err(err) => Err(err),
            Ok((w, e)) => Ok((Argument::String(w), e)),
        }
    } else if s[i] == QUOTE {
        match parse_quoted_string(s, i) {
            Err(err) => Err(err),
            Ok((q, e)) => Ok((Argument::String(q), e)),
        }
    } else if depth >= MAX_DEPTH {
        Err(ParseError { position: i, expected: Expected::NestingTooDeep })
    } else {
        let close = if s[i] == OPEN_PAREN {
            CLOSE_PAREN
        } else {
            CLOSE_BRACE
        };
        match units_from(s, i + 1, depth + 1, Some(close)) {
            Err(err) => Err(err),
            Ok((units, e)) => {
                let body = Body { span: Span { start: i + 1, end: e }, commands: units };
                if s[i] == OPEN_PAREN {
                    Ok((Argument::Subcall(Subcall(body)), e + 1))
                } else {
                    Ok((Argument::Function(Function(body)), e + 1))
                }
            },
        }
    }
}

/// The pipeline at `i`: arguments separated by `|`.
fn arguments_from(s: &[u8], i: usize, depth: usize) -> (r: Result<(Vec<Argument>, usize), ParseError>)
    requires
        i <= s@.len(),
        depth <= MAX_DEPTH,
    ensures
        outcome_is(r, arguments_at(s@, i as int, depth as int), |v: Vec<Argument>| arguments_model(v@)),
        match r {
            Ok((_, e)) => i <= e <= s@.len(),
            Err(_) => true,
        },
    decreases MAX_DEPTH - depth, 2int, 0int,
{
    if i < s.len() && s[i] == PIPE {
        return Err(ParseError { position: i, expected: Expected::Argument });
    }
    if !(i < s.len() && (word_byte(s[i]) || s[i] == QUOTE || s[i] == OPEN_PAREN || s[i] == OPEN_BRACE)) {
        return Ok((Vec::new(), i));
    }
    let mut acc: Vec<Argument> = Vec::new();
    let mut j: usize = i;
    assert(arguments_model(acc@) =~= seq![]);
    loop
        invariant
            i <= j <= s@.len(),
            depth <= MAX_DEPTH,
            pipeline_at(s@, j as int, depth as int, arguments_model(acc@)) == arguments_at(s@, i as int, depth as int),
        decreases s@.len() - j,
    {
        match argument_from(s, j, depth) {
            Err(err) => {
                return Err(err);
            },
            Ok((a, e)) => {
                let ghost prev = acc@;
                acc.push(a);
                assert(acc@.drop_last() =~= prev);
                if e < s.len() && s[e] == PIPE {
                    j = e + 1;
                } else {
                    return Ok((acc, e));
                }
            },
        }
    }
}

/// A command at `i`: its path, then its pipeline where an argument follows on the same line.
fn command_from(s: &[u8], i: usize, depth: usize) -> (r: Result<(Command, usize), ParseError>)
    requires
        i <= s@.len(),
        depth <= MAX_DEPTH,
    ensures
        outcome_is(r, command_at(s@, i as int, depth as int), |c: Command| command_model(c)),
        match r {
            Ok((_, e)) => i < e <= s@.len(),
            Err(_) => true,
        },
    decreases MAX_DEPTH - depth, 3int, 0int,
{
    let (path, pe) = match path_from(s, i) {
        Err(err) => {
            return Err(err);
        },
        Ok(found) => found,
    };
    let g = match skip_whitespace(s, pe, false) {
        Err(err) => {
            return Err(err);
        },
        Ok(g) => g,
    };
    if g < s.len() && (word_byte(s[g]) || s[g] == QUOTE || s[g] == OPEN_PAREN || s[g] == OPEN_BRACE) {
        match arguments_from(s, g, depth) {
            Err(err) => Err(err),
            Ok((args, ae)) => Ok((Command { span: Span { start: i, end: ae }, command_path: path, arguments: args }, ae)),
        }
    } else {
        Ok((Command { span: Span { start: i, end: pe }, command_path: path, arguments: Vec::new() }, pe))
    }
}

/// Whether `c` is the closing delimiter that ends the current scope.
fn closes(close: Option<u8>, c: u8) -> (r: bool)
    ensures
        r == (close == Some(c)),
{
    match close {
        Some(d) => d == c,
        None => false,
    }
}

/// The units at `i`, up to the end of the input (`close` is `None`) or up to
/// the closing delimiter, which is left for the caller.
fn units_from(s: &[u8], i: usize, depth: usize, close: Option<u8>) -> (r: Result<(Vec<CommandType>, usize), ParseError>)
    requires
        i <= s@.len(),
        depth <= MAX_DEPTH,
    ensures
        outcome_is(r, units_at(s@, i as int, depth as int, close, seq![]), |v: Vec<CommandType>| units_model(v@)),
        match r {
            Ok((_, e)) => i <= e <= s@.len() && (close is Some ==> e < s@.len() && close == Some(s@[e as int])),
            Err(_) => true,
        },
    decreases MAX_DEPTH - depth, 4int, 0int,
{
    let mut acc: Vec<CommandType> = Vec::new();
    let mut j: usize = i;
    assert(units_model(acc@) =~= seq![]);
    loop
        invariant
            i <= j <= s@.len(),
            depth <= MAX_DEPTH,
            units_at(s@, j as int, depth as int, close, units_model(acc@)) == units_at(s@, i as int, depth as int, close, seq![]),
        decreases s@.len() - j,
    {
        if j >= s.len() {
            match close {
                None => {
                    return Ok((acc, j));
                },
                Some(_) => {
                    return Err(ParseError { position: j, expected: Expected::ClosingDelimiter });
                },
            }
        }
        if closes(close, s[j]) {
            return Ok((acc, j));
        }
        let w = match skip_whitespace(s, j, true) {
            Err(err) => {
                return Err(err);
            },
            Ok(w) => w,
        };
        let ghost prev = acc@;
        if w > j {
            acc.push(CommandType::EmptyCommand(EmptyCommand { span: Span { start: j, end: w } }));
            assert(acc@.drop_last() =~= prev);
            assert(units_model(acc@) == units_model(acc@.drop_last()).push(unit_model(acc@.last())));
            assert(units_model(acc@) == units_model(prev).push(UnitModel::Empty(span_of(j as int, w as int))));
            j = w;
        } else {
            let (c, ce) = match command_from(s, j, depth) {
                Err(err) => {
                    return Err(err);
                },
                Ok(found) => found,
            };
            let separated = ce >= s.len() || closes(close, s[ce]) || s[ce] == SPACE || s[ce] == TAB
                || s[ce] == NEWLINE || (s.len() - ce >= 2 && s[ce] == SLASH && s[ce + 1] == STAR);
            if !separated {
                return Err(ParseError { position: ce, expected: Expected::Separator });
            }
            acc.push(CommandType::Command(c));
            assert(acc@.drop_last() =~= prev);
            assert(units_model(acc@) == units_model(prev).push(UnitModel::Command(command_model(c))));
            j = ce;
        }
    }
}

} // verus!

verus! {

/// Parses a whole script: units up to the end of the input.
pub fn parse_program(source: &str) -> (r: Result<Program, ParseError>)
    ensures
        program_outcome(source.spec_bytes(), r),
{
    let s = source.as_bytes();
    match units_from(s, 0, 0, None) {
        Err(err) => Err(err),
        Ok((units, _)) => Ok(Program { span: Span { start: 0, end: s.len() }, commands: units }),
    }
}

/// Parses one argument at the start of `source`; the offset where the rest begins comes with it.
pub fn parse_argument(source: &str) -> (r: Result<(Argument, usize), ParseError>)
    ensures
        outcome_is(r, argument_at(source.spec_bytes(), 0, 0), |a: Argument| argument_model(a)),
{
    argument_from(source.as_bytes(), 0, 0)
}

/// Parses a pipeline at the start of `source`; the offset where the rest begins comes with it.
pub fn parse_arguments(source: &str) -> (r: Result<(Vec<Argument>, usize), ParseError>)
    ensures
        outcome_is(r, arguments_at(source.spec_bytes(), 0, 0), |v: Vec<Argument>| arguments_model(v@)),
{
    arguments_from(source.as_bytes(), 0, 0)
}

/// Parses a command path at the start of `source`; the offset where the rest begins comes with it.
pub fn parse_command_path(source: &str) -> (r: Result<(CommandPath, usize), ParseError>)
    ensures
        outcome_is(r, path_at(source.spec_bytes(), 0), |p: CommandPath| path_model(p)),
{
    path_from(source.as_bytes(), 0)
}

} // verus!

verus! {

/// Skips the whitespace at the start of `source`: spaces, tabs, newlines and
/// comments, at least one of them. Gives the offset just past them.
pub fn whitespace(source: &str) -> (r: Result<usize, ParseError>)
    ensures
        match whitespace_end(source.spec_bytes(), 0, true) {
            Ok(e) => if e > 0 {
                r == Ok::<usize, ParseError>(e as usize)
            } else {
                r == Err::<usize, ParseError>(ParseError { position: 0, expected: Expected::Separator })
            },
            Err(err) => r == Err::<usize, ParseError>(err),
        },
{
    match skip_whitespace(source.as_bytes(), 0, true) {
        Err(err) => Err(err),
        Ok(e) => {
            if e > 0 {
                Ok(e)
            } else {
                Err(ParseError { position: 0, expected: Expected::Separator })
            }
        },
    }
}

} // verus!
