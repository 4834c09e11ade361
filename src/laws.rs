//! Laws of the grammar as a whole.
use vstd::prelude::*;
use crate::ast::{program_model, ArgumentModel, BodyModel, Program, UnitModel};
use crate::error::ParseError;
use crate::grammar::{
    argument_at, command_at, is_word_byte, program_of, quoted_end, unescape, units_at,
    whitespace_end, BACKSLASH, QUOTE,
};
use crate::parser::program_outcome;
use crate::span::{span_of, Span};
use crate::grammar::{arguments_at, byte_at_is, pipeline_at, PIPE};
use crate::within::{argument_in, arguments_in, body_in, lemma_argument_in, lemma_arguments_in, lemma_units_in};

verus! {

/// The span of a unit.
pub open spec fn unit_span(u: UnitModel) -> Span {
    match u {
        UnitModel::Empty(sp) => sp,
        UnitModel::Command(c) => c.span,
    }
}

/// The units' spans lie one after another with no gap from `from` to `to`:
/// each starts where the one before it ends.
pub open spec fn tiles(units: Seq<UnitModel>, from: int, to: int) -> bool
    decreases units.len(),
{
    if units.len() == 0 {
        from == to
    } else {
        let l = unit_span(units.last());
        &&& tiles(units.drop_last(), from, l.start as int)
        &&& l.start <= l.end
        &&& l.end == to
    }
}

/// The texts of the units' spans in `s`, put together in order.
pub open spec fn joined(units: Seq<UnitModel>, s: Seq<u8>) -> Seq<u8>
    decreases units.len(),
{
    if units.len() == 0 {
        seq![]
    } else {
        joined(units.drop_last(), s) + unit_span(units.last()).text_of(s)
    }
}

/// The model of what a parse returned.
pub open spec fn outcome_model(r: Result<Program, ParseError>) -> Result<BodyModel, ParseError> {
    match r {
        Ok(p) => Ok(program_model(p)),
        Err(e) => Err(e),
    }
}

/// Parsing is deterministic: any two results that the parser may return for
/// the same input are structurally identical.
pub proof fn parse_program_is_deterministic(s: Seq<u8>, r1: Result<Program, ParseError>, r2: Result<Program, ParseError>)
    requires
        program_outcome(s, r1),
        program_outcome(s, r2),
    ensures
        outcome_model(r1) == outcome_model(r2),
{
}

proof fn lemma_tiles_push(units: Seq<UnitModel>, u: UnitModel, from: int, mid: int, to: int)
    requires
        tiles(units, from, mid),
        unit_span(u).start == mid,
        unit_span(u).end == to,
        mid <= to,
    ensures
        tiles(units.push(u), from, to),
{
    assert(units.push(u).drop_last() =~= units);
}

proof fn lemma_tiles_join(units: Seq<UnitModel>, s: Seq<u8>, from: int, to: int)
    requires
        tiles(units, from, to),
        0 <= from,
        to <= s.len(),
    ensures
        from <= to,
        joined(units, s) == s.subrange(from, to),
    decreases units.len(),
{
    if units.len() > 0 {
        let l = unit_span(units.last());
        lemma_tiles_join(units.drop_last(), s, from, l.start as int);
        assert(s.subrange(from, l.start as int) + s.subrange(l.start as int, to) =~= s.subrange(from, to));
    } else {
        assert(s.subrange(from, to) =~= seq![]);
    }
}

proof fn lemma_command_span(s: Seq<u8>, i: int, depth: int)
    ensures
        match command_at(s, i, depth) {
            Ok((c, e)) => c.span == span_of(i, e),
            Err(_) => true,
        },
{
}

proof fn lemma_units_tile(s: Seq<u8>, start: int, i: int, depth: int, close: Option<u8>, acc: Seq<UnitModel>)
    requires
        0 <= start <= i <= s.len() <= usize::MAX,
        tiles(acc, start, i),
    ensures
        match units_at(s, i, depth, close, acc) {
            Ok((units, e)) => tiles(units, start, e) && (close is None ==> e == s.len()),
            Err(_) => true,
        },
    decreases s.len() - i,
{
    if i >= s.len() || close == Some(s[i]) {
    } else {
        match whitespace_end(s, i, true) {
            Err(_) => {},
            Ok(w) => {
                if i < w <= s.len() {
                    let u = UnitModel::Empty(span_of(i, w));
                    lemma_tiles_push(acc, u, start, i, w);
                    lemma_units_tile(s, start, w, depth, close, acc.push(u));
                } else {
                    lemma_command_span(s, i, depth);
                    match command_at(s, i, depth) {
                        Err(_) => {},
                        Ok((c, ce)) => {
                            if i < ce <= s.len() {
                                let u = UnitModel::Command(c);
                                lemma_tiles_push(acc, u, start, i, ce);
                                lemma_units_tile(s, start, ce, depth, close, acc.push(u));
                            }
                        },
                    }
                }
            },
        }
    }
}

/// The spans of a parsed program cover the input: every node's span, nested
/// ones included, is a piece of the input; the first unit starts at 0, each
/// ends where the next starts, and the last ends at the end of the input.
/// Whitespace and comments between commands are units of their own, so the
/// units' texts put together give back the input.
pub proof fn program_units_cover_input(s: Seq<u8>)
    requires
        s.len() <= usize::MAX,
    ensures
        match program_of(s) {
            Ok(p) => p.span == span_of(0, s.len() as int) && tiles(p.units, 0, s.len() as int)
                && joined(p.units, s) == s && body_in(p, s.len() as int),
            Err(_) => true,
        },
{
    lemma_units_tile(s, 0, 0, 0, None, seq![]);
    lemma_units_in(s, 0, 0, None, seq![]);
    match program_of(s) {
        Ok(p) => {
            assert(body_in(p, s.len() as int));
            lemma_tiles_join(p.units, s, 0, s.len() as int);
            assert(s.subrange(0, s.len() as int) =~= s);
        },
        Err(_) => {},
    }
}

proof fn lemma_plain_quoted_end(s: Seq<u8>, i: int)
    requires
        1 <= i < s.len(),
        s.last() == QUOTE,
        forall|k: int| 1 <= k < s.len() - 1 ==> s[k] != QUOTE && s[k] != BACKSLASH,
    ensures
        quoted_end(s, i) == Ok::<int, ParseError>(s.len() - 1),
    decreases s.len() - i,
{
    if i < s.len() - 1 {
        lemma_plain_quoted_end(s, i + 1);
    }
}

proof fn lemma_unescape_plain(x: Seq<u8>)
    requires
        forall|k: int| 0 <= k < x.len() ==> x[k] != BACKSLASH,
    ensures
        unescape(x) == x,
    decreases x.len(),
{
    if x.len() > 0 {
        let rest = x.subrange(1, x.len() as int);
        assert forall|k: int| 0 <= k < rest.len() implies rest[k] != BACKSLASH by {
            assert(rest[k] == x[k + 1]);
        }
        lemma_unescape_plain(rest);
        assert(seq![x[0]] + rest =~= x);
    }
}

/// A string with no `"` and no `\` comes back unchanged from its quoted form:
/// `"x"` parses as one quoted text whose span is exactly `x` and whose content
/// is `x`, and the rest of the input starts after the closing quote.
pub proof fn quoting_law(x: Seq<u8>)
    requires
        forall|k: int| 0 <= k < x.len() ==> x[k] != QUOTE && x[k] != BACKSLASH,
        x.len() + 2 <= usize::MAX,
    ensures
        ({
            let s = seq![QUOTE] + x + seq![QUOTE];
            let sp = span_of(1, x.len() as int + 1);
            &&& argument_at(s, 0, 0) == Ok::<(ArgumentModel, int), ParseError>(
                (ArgumentModel::Text { span: sp, quoted: true }, x.len() as int + 2),
            )
            &&& sp.text_of(s) == x
            &&& unescape(sp.text_of(s)) == x
        }),
{
    let s = seq![QUOTE] + x + seq![QUOTE];
    assert forall|k: int| 1 <= k < s.len() - 1 implies s[k] != QUOTE && s[k] != BACKSLASH by {
        assert(s[k] == x[k - 1]);
    }
    lemma_plain_quoted_end(s, 1);
    assert(!is_word_byte(s[0]));
    let sp = span_of(1, x.len() as int + 1);
    assert(sp.text_of(s) =~= x);
    lemma_unescape_plain(x);
}

/// Every node of a parsed argument, nested ones included, has a span inside
/// the part of the input that the argument took, which is not empty.
pub proof fn argument_spans_within(s: Seq<u8>)
    requires
        s.len() <= usize::MAX,
    ensures
        argument_at(s, 0, 0) matches Ok((a, e)) ==> 0 < e <= s.len() && argument_in(a, e),
{
    lemma_argument_in(s, 0, 0);
}

/// Every node of a parsed pipeline, nested ones included, has a span inside
/// the part of the input that the pipeline took.
pub proof fn arguments_spans_within(s: Seq<u8>)
    requires
        s.len() <= usize::MAX,
    ensures
        arguments_at(s, 0, 0) matches Ok((args, e)) ==> 0 <= e <= s.len() && arguments_in(args, e),
{
    lemma_arguments_in(s, 0, 0);
}

/// Where an argument's own text starts: before its opening quote or delimiter.
pub open spec fn outer_start(a: ArgumentModel) -> int {
    match a {
        ArgumentModel::Subcall(b) => b.span.start - 1,
        ArgumentModel::Function(b) => b.span.start - 1,
        ArgumentModel::Text { span, quoted } => if quoted { span.start - 1 } else { span.start as int },
    }
}

/// Where an argument's own text ends: after its closing quote or delimiter.
pub open spec fn outer_end(a: ArgumentModel) -> int {
    match a {
        ArgumentModel::Subcall(b) => b.span.end + 1,
        ArgumentModel::Function(b) => b.span.end + 1,
        ArgumentModel::Text { span, quoted } => if quoted { span.end + 1 } else { span.end as int },
    }
}

/// The arguments' own texts, each followed by one `|` but the last, make up
/// the bytes `from..to` of `s`, in order.
pub open spec fn piped(args: Seq<ArgumentModel>, s: Seq<u8>, from: int, to: int) -> bool
    decreases args.len(),
{
    if args.len() == 0 {
        from == to
    } else if args.len() == 1 {
        outer_start(args[0]) == from && outer_end(args[0]) == to && from < to
    } else {
        let l = args.last();
        &&& piped(args.drop_last(), s, from, outer_start(l) - 1)
        &&& byte_at_is(s, outer_start(l) - 1, PIPE)
        &&& outer_start(l) < outer_end(l) == to
    }
}

proof fn lemma_argument_outer(s: Seq<u8>, i: int, depth: int)
    requires
        0 <= i <= s.len() <= usize::MAX,
    ensures
        argument_at(s, i, depth) matches Ok((a, e)) ==> outer_start(a) == i && outer_end(a) == e,
{
    lemma_argument_in(s, i, depth);
}

proof fn lemma_pipeline_piped(s: Seq<u8>, from: int, i: int, depth: int, acc: Seq<ArgumentModel>)
    requires
        0 <= from <= i <= s.len() <= usize::MAX,
        (acc.len() == 0 && i == from) || (acc.len() > 0 && piped(acc, s, from, i - 1) && byte_at_is(s, i - 1, PIPE)),
    ensures
        pipeline_at(s, i, depth, acc) matches Ok((args, e)) ==> piped(args, s, from, e) && !byte_at_is(s, e, PIPE)
            && args.len() > 0,
    decreases s.len() - i,
{
    lemma_argument_outer(s, i, depth);
    lemma_argument_in(s, i, depth);
    match argument_at(s, i, depth) {
        Ok((a, e)) => {
            let next = acc.push(a);
            assert(next.drop_last() =~= acc);
            assert(next.last() == a);
            if acc.len() == 0 {
                assert(next[0] == a);
            }
            assert(piped(next, s, from, e));
            if e > i && byte_at_is(s, e, PIPE) {
                lemma_pipeline_piped(s, from, e + 1, depth, next);
            }
        },
        Err(_) => {},
    }
}

/// A parsed pipeline takes exactly its arguments' own texts, quotes and
/// delimiters included, joined by single `|`, with no empty segment; the rest
/// of the input does not start with `|`; and a pipeline with no argument
/// takes nothing.
pub proof fn pipeline_rebuilds_input(s: Seq<u8>)
    requires
        s.len() <= usize::MAX,
    ensures
        arguments_at(s, 0, 0) matches Ok((args, e)) ==> piped(args, s, 0, e) && !byte_at_is(s, e, PIPE),
{
    lemma_pipeline_piped(s, 0, 0, 0, seq![]);
}

} // verus!
