//! Every node of a parse lies within the input.
use vstd::prelude::*;
use crate::ast::{ArgumentModel, BodyModel, CommandModel, PathModel, UnitModel};
use crate::grammar::{
    argument_at, arguments_at, comment_close, command_at, path_at, path_rest, pipeline_at,
    quoted_end, units_at, whitespace_end, whitespace_from, word_end, MAX_DEPTH,
};
use crate::span::span_of;

verus! {

/// All spans of the path lie within a source of `n` bytes.
pub open spec fn path_in(p: PathModel, n: int) -> bool {
    &&& p.span.within(n)
    &&& forall|k: int| 0 <= k < p.components.len() ==> (#[trigger] p.components[k]).within(n)
}

/// All spans of the argument, nested ones included, lie within a source of `n` bytes.
pub open spec fn argument_in(a: ArgumentModel, n: int) -> bool
    decreases a,
{
    match a {
        ArgumentModel::Subcall(b) => body_in(b, n),
        ArgumentModel::Function(b) => body_in(b, n),
        ArgumentModel::Text { span, quoted } => span.within(n),
    }
}

pub open spec fn arguments_in(args: Seq<ArgumentModel>, n: int) -> bool
    decreases args,
{
    if args.len() == 0 {
        true
    } else {
        arguments_in(args.drop_last(), n) && argument_in(args.last(), n)
    }
}

pub open spec fn command_in(c: CommandModel, n: int) -> bool
    decreases c,
{
    c.span.within(n) && path_in(c.path, n) && arguments_in(c.arguments, n)
}

pub open spec fn unit_in(u: UnitModel, n: int) -> bool
    decreases u,
{
    match u {
        UnitModel::Empty(sp) => sp.within(n),
        UnitModel::Command(c) => command_in(c, n),
    }
}

pub open spec fn units_in(us: Seq<UnitModel>, n: int) -> bool
    decreases us,
{
    if us.len() == 0 {
        true
    } else {
        units_in(us.drop_last(), n) && unit_in(us.last(), n)
    }
}

/// All spans of the body, nested ones included, lie within a source of `n` bytes.
pub open spec fn body_in(b: BodyModel, n: int) -> bool
    decreases b,
{
    b.span.within(n) && units_in(b.units, n)
}

proof fn lemma_path_mono(p: PathModel, n: int, m: int)
    requires
        path_in(p, n),
        n <= m,
    ensures
        path_in(p, m),
{
    assert forall|k: int| 0 <= k < p.components.len() implies (#[trigger] p.components[k]).within(m) by {
        assert(p.components[k].within(n));
    }
}

proof fn lemma_argument_mono(a: ArgumentModel, n: int, m: int)
    requires
        argument_in(a, n),
        n <= m,
    ensures
        argument_in(a, m),
    decreases a,
{
    match a {
        ArgumentModel::Subcall(b) => lemma_body_mono(b, n, m),
        ArgumentModel::Function(b) => lemma_body_mono(b, n, m),
        ArgumentModel::Text { .. } => {},
    }
}

proof fn lemma_arguments_mono(args: Seq<ArgumentModel>, n: int, m: int)
    requires
        arguments_in(args, n),
        n <= m,
    ensures
        arguments_in(args, m),
    decreases args,
{
    if args.len() > 0 {
        lemma_arguments_mono(args.drop_last(), n, m);
        lemma_argument_mono(args.last(), n, m);
    }
}

proof fn lemma_command_mono(c: CommandModel, n: int, m: int)
    requires
        command_in(c, n),
        n <= m,
    ensures
        command_in(c, m),
    decreases c,
{
    lemma_path_mono(c.path, n, m);
    lemma_arguments_mono(c.arguments, n, m);
}

proof fn lemma_units_mono(us: Seq<UnitModel>, n: int, m: int)
    requires
        units_in(us, n),
        n <= m,
    ensures
        units_in(us, m),
    decreases us,
{
    if us.len() > 0 {
        lemma_units_mono(us.drop_last(), n, m);
        assert(unit_in(us.last(), n));
        match us.last() {
            UnitModel::Command(c) => {
                assert(command_in(c, n));
                lemma_command_mono(c, n, m);
                assert(unit_in(us.last(), m));
            },
            UnitModel::Empty(sp) => {
                assert(sp.within(n));
                assert(unit_in(us.last(), m));
            },
        }
        assert(units_in(us, m));
    }
}

proof fn lemma_body_mono(b: BodyModel, n: int, m: int)
    requires
        body_in(b, n),
        n <= m,
    ensures
        body_in(b, m),
    decreases b,
{
    lemma_units_mono(b.units, n, m);
}

pub proof fn lemma_word_end(s: Seq<u8>, i: int)
    requires
        0 <= i <= s.len(),
    ensures
        i <= word_end(s, i) <= s.len(),
    decreases s.len() - i,
{
    if i < s.len() {
        lemma_word_end(s, i + 1);
    }
}

proof fn lemma_comment_close(s: Seq<u8>, i: int)
    requires
        0 <= i,
    ensures
        comment_close(s, i) matches Some(j) ==> i < j <= s.len(),
    decreases s.len() - i,
{
    if i + 1 < s.len() {
        lemma_comment_close(s, i + 1);
    }
}

pub proof fn lemma_whitespace_end(s: Seq<u8>, i: int, newlines: bool)
    requires
        0 <= i <= s.len(),
    ensures
        whitespace_end(s, i, newlines) matches Ok(e) ==> i <= e <= s.len(),
{
    lemma_whitespace_from(s, i, newlines, true);
}

proof fn lemma_whitespace_from(s: Seq<u8>, i: int, newlines: bool, first: bool)
    requires
        0 <= i <= s.len(),
    ensures
        whitespace_from(s, i, newlines, first) matches Ok(e) ==> i <= e <= s.len(),
    decreases s.len() - i,
{
    if i < s.len() {
        lemma_whitespace_from(s, i + 1, newlines, false);
        lemma_comment_close(s, i + 2);
        match comment_close(s, i + 2) {
            Some(j) => {
                if i < j <= s.len() {
                    lemma_whitespace_from(s, j, newlines, false);
                }
            },
            None => {},
        }
    }
}

proof fn lemma_quoted_end(s: Seq<u8>, i: int)
    requires
        0 <= i,
    ensures
        quoted_end(s, i) matches Ok(q) ==> i <= q < s.len(),
    decreases s.len() - i,
{
    if i < s.len() {
        lemma_quoted_end(s, i + 1);
        if i + 1 < s.len() {
            lemma_quoted_end(s, i + 2);
        }
    }
}

proof fn lemma_path_rest(s: Seq<u8>, i: int, comps: Seq<crate::span::Span>)
    requires
        0 <= i <= s.len() <= usize::MAX,
        forall|k: int| 0 <= k < comps.len() ==> (#[trigger] comps[k]).within(i),
    ensures
        ({
            let (cs, e) = path_rest(s, i, comps);
            &&& i <= e <= s.len()
            &&& forall|k: int| 0 <= k < cs.len() ==> (#[trigger] cs[k]).within(e)
        }),
    decreases s.len() - i,
{
    let w = word_end(s, i + 1);
    if 0 <= i < s.len() && s[i] == crate::grammar::DOT && i + 1 < w <= s.len() {
        let next = comps.push(span_of(i + 1, w));
        assert forall|k: int| 0 <= k < next.len() implies (#[trigger] next[k]).within(w) by {
            if k < comps.len() {
                assert(next[k] == comps[k]);
            }
        }
        lemma_path_rest(s, w, next);
    }
}

proof fn lemma_path_in(s: Seq<u8>, i: int)
    requires
        0 <= i <= s.len() <= usize::MAX,
    ensures
        path_at(s, i) matches Ok((p, e)) ==> path_in(p, e) && i < e <= s.len(),
{
    lemma_word_end(s, i);
    let e = word_end(s, i);
    if e > i {
        lemma_path_rest(s, e, seq![span_of(i, e)]);
    }
}

pub proof fn lemma_argument_in(s: Seq<u8>, i: int, depth: int)
    requires
        0 <= i <= s.len() <= usize::MAX,
    ensures
        argument_at(s, i, depth) matches Ok((a, e)) ==> argument_in(a, e) && i < e <= s.len(),
    decreases MAX_DEPTH - depth, 0int, 0int,
{
    if 0 <= i < s.len() {
        lemma_word_end(s, i);
        lemma_quoted_end(s, i + 1);
        if crate::grammar::is_word_byte(s[i]) {
            lemma_word_end(s, i + 1);
            let e = word_end(s, i);
            assert(argument_in(ArgumentModel::Text { span: span_of(i, e), quoted: false }, e));
        } else if s[i] == crate::grammar::QUOTE {
            match quoted_end(s, i + 1) {
                Ok(q) => {
                    assert(argument_in(ArgumentModel::Text { span: span_of(i + 1, q), quoted: true }, q + 1));
                },
                Err(_) => {},
            }
        } else if depth < MAX_DEPTH {
            let close = if s[i] == crate::grammar::OPEN_PAREN {
                crate::grammar::CLOSE_PAREN
            } else {
                crate::grammar::CLOSE_BRACE
            };
            lemma_units_in(s, i + 1, depth + 1, Some(close), seq![]);
            match units_at(s, i + 1, depth + 1, Some(close), seq![]) {
                Ok((units, e)) => {
                    let b = BodyModel { span: span_of(i + 1, e), units };
                    lemma_units_mono(units, e, e + 1);
                    assert(body_in(b, e + 1));
                    assert(argument_in(ArgumentModel::Subcall(b), e + 1));
                    assert(argument_in(ArgumentModel::Function(b), e + 1));
                },
                Err(_) => {},
            }
        }
    }
}

proof fn lemma_pipeline_in(s: Seq<u8>, i: int, depth: int, acc: Seq<ArgumentModel>)
    requires
        0 <= i <= s.len() <= usize::MAX,
        arguments_in(acc, i),
    ensures
        pipeline_at(s, i, depth, acc) matches Ok((args, e)) ==> arguments_in(args, e) && i < e <= s.len(),
    decreases MAX_DEPTH - depth, 1int, s.len() - i,
{
    lemma_argument_in(s, i, depth);
    match argument_at(s, i, depth) {
        Ok((a, e)) => {
            assert(acc.push(a).drop_last() =~= acc);
            lemma_arguments_mono(acc, i, e);
            assert(arguments_in(acc.push(a), e));
            lemma_arguments_mono(acc.push(a), e, e + 1);
            if e > i && 0 <= e < s.len() && s[e] == crate::grammar::PIPE {
                lemma_pipeline_in(s, e + 1, depth, acc.push(a));
            }
        },
        Err(_) => {},
    }
}

pub proof fn lemma_arguments_in(s: Seq<u8>, i: int, depth: int)
    requires
        0 <= i <= s.len() <= usize::MAX,
    ensures
        arguments_at(s, i, depth) matches Ok((args, e)) ==> arguments_in(args, e) && i <= e <= s.len(),
    decreases MAX_DEPTH - depth, 2int, 0int,
{
    lemma_pipeline_in(s, i, depth, seq![]);
}

proof fn lemma_command_in(s: Seq<u8>, i: int, depth: int)
    requires
        0 <= i <= s.len() <= usize::MAX,
    ensures
        command_at(s, i, depth) matches Ok((c, e)) ==> command_in(c, e) && i < e <= s.len(),
    decreases MAX_DEPTH - depth, 3int, 0int,
{
    lemma_path_in(s, i);
    match path_at(s, i) {
        Ok((p, pe)) => {
            lemma_whitespace_end(s, pe, false);
            match whitespace_end(s, pe, false) {
                Ok(g) => {
                    lemma_arguments_in(s, g, depth);
                    match arguments_at(s, g, depth) {
                        Ok((args, ae)) => {
                            lemma_path_mono(p, pe, ae);
                        },
                        Err(_) => {},
                    }
                },
                Err(_) => {},
            }
        },
        Err(_) => {},
    }
}

/// Units parsed from `i` lie within the input, as do the units in `acc`.
pub proof fn lemma_units_in(s: Seq<u8>, i: int, depth: int, close: Option<u8>, acc: Seq<UnitModel>)
    requires
        0 <= i <= s.len() <= usize::MAX,
        units_in(acc, i),
    ensures
        units_at(s, i, depth, close, acc) matches Ok((units, e)) ==> units_in(units, e)
            && i <= e <= s.len() && (close is Some ==> e < s.len()),
    decreases MAX_DEPTH - depth, 4int, s.len() - i,
{
    if i < s.len() && close != Some(s[i]) {
        lemma_whitespace_end(s, i, true);
        match whitespace_end(s, i, true) {
            Ok(w) => {
                if i < w <= s.len() {
                    let u = UnitModel::Empty(span_of(i, w));
                    assert(acc.push(u).drop_last() =~= acc);
                    lemma_units_mono(acc, i, w);
                    assert(unit_in(u, w));
                    assert(units_in(acc.push(u), w));
                    lemma_units_in(s, w, depth, close, acc.push(u));
                } else {
                    lemma_command_in(s, i, depth);
                    match command_at(s, i, depth) {
                        Ok((c, ce)) => {
                            let u = UnitModel::Command(c);
                            assert(acc.push(u).drop_last() =~= acc);
                            if i < ce <= s.len() {
                                lemma_units_mono(acc, i, ce);
                                assert(unit_in(u, ce));
                                assert(units_in(acc.push(u), ce));
                                lemma_units_in(s, ce, depth, close, acc.push(u));
                            }
                        },
                        Err(_) => {},
                    }
                }
            },
            Err(_) => {},
        }
    }
}

} // verus!
