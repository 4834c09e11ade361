//! Deeply nested scripts: `x (x (x ... ))`, or with braces `x {x {x ... }}`.
use vstd::prelude::*;
use crate::ast::{ArgumentModel, BodyModel, CommandModel, PathModel, UnitModel};
use crate::error::ParseError;
use crate::grammar::{
    argument_at, arguments_at, command_at, path_at, path_rest, pipeline_at, program_of,
    units_at, whitespace_end, whitespace_from, word_end, CLOSE_BRACE, CLOSE_PAREN, MAX_DEPTH, OPEN_BRACE, OPEN_PAREN,
    SPACE,
};
use crate::span::span_of;

verus! {

/// The delimiter that opens a deferred block (`braces`) or a sub-invocation.
pub open spec fn opener(braces: bool) -> u8 {
    if braces { OPEN_BRACE } else { OPEN_PAREN }
}

/// The delimiter that closes a deferred block (`braces`) or a sub-invocation.
pub open spec fn closer(braces: bool) -> u8 {
    if braces { CLOSE_BRACE } else { CLOSE_PAREN }
}

/// The script `x` nested `n` times in sub-invocations, `x`, `x (x)`,
/// `x (x (x))`, ..., or in deferred blocks where `braces` holds.
pub open spec fn nested(n: nat, braces: bool) -> Seq<u8>
    decreases n,
{
    if n == 0 {
        seq![120u8]
    } else {
        seq![120u8, SPACE, opener(braces)] + nested((n - 1) as nat, braces) + seq![closer(braces)]
    }
}

pub open spec fn larger(a: nat, b: nat) -> nat {
    if a >= b { a } else { b }
}

/// How many bodies deep the argument reaches.
pub open spec fn argument_depth(a: ArgumentModel) -> nat
    decreases a,
{
    match a {
        ArgumentModel::Subcall(b) => 1 + units_depth(b.units),
        ArgumentModel::Function(b) => 1 + units_depth(b.units),
        ArgumentModel::Text { .. } => 0,
    }
}

pub open spec fn arguments_depth(args: Seq<ArgumentModel>) -> nat
    decreases args,
{
    if args.len() == 0 {
        0
    } else {
        larger(arguments_depth(args.drop_last()), argument_depth(args.last()))
    }
}

pub open spec fn unit_depth(u: UnitModel) -> nat
    decreases u,
{
    match u {
        UnitModel::Empty(_) => 0,
        UnitModel::Command(c) => arguments_depth(c.arguments),
    }
}

/// How many bodies deep the deepest of the units reaches.
pub open spec fn units_depth(us: Seq<UnitModel>) -> nat
    decreases us,
{
    if us.len() == 0 {
        0
    } else {
        larger(units_depth(us.drop_last()), unit_depth(us.last()))
    }
}

proof fn lemma_nested_len(n: nat, braces: bool)
    ensures
        nested(n, braces).len() == 4 * n + 1,
    decreases n,
{
    if n > 0 {
        lemma_nested_len((n - 1) as nat, braces);
    }
}

#[verifier::rlimit(60)]
proof fn lemma_nested_units(s: Seq<u8>, o: int, k: nat, d: int, close: Option<u8>, braces: bool)
    requires
        0 <= o,
        o + nested(k, braces).len() <= s.len() <= usize::MAX,
        s.subrange(o, o + nested(k, braces).len()) == nested(k, braces),
        (close == Some(closer(braces)) && o + nested(k, braces).len() < s.len() && s[o + nested(k, braces).len()] == closer(braces))
            || (close is None && o + nested(k, braces).len() == s.len()),
        0 <= d,
        d + k <= MAX_DEPTH,
    ensures
        units_at(s, o, d, close, seq![]) matches Ok((us, e)) && e == o + nested(k, braces).len()
            && units_depth(us) == k,
    decreases k,
{
    let t = nested(k, braces);
    let len = t.len() as int;
    lemma_nested_len(k, braces);
    assert(s[o] == t[0]);
    assert(s[o] == 120u8);
    assert(whitespace_end(s, o, true) == Ok::<int, ParseError>(o));
    if k > 0 {
        assert(s[o + 1] == t[1]);
        assert(t[1] == SPACE);
    }
    assert(word_end(s, o + 1) == o + 1);
    assert(word_end(s, o) == o + 1);
    let comps = seq![span_of(o, o + 1)];
    assert(path_rest(s, o + 1, comps) == (comps, o + 1));
    let p = PathModel { span: span_of(o, o + 1), components: comps };
    assert(path_at(s, o) == Ok::<(PathModel, int), ParseError>((p, o + 1)));
    let c: CommandModel;
    if k == 0 {
        assert(whitespace_end(s, o + 1, false) == Ok::<int, ParseError>(o + 1));
        c = CommandModel { span: span_of(o, o + 1), path: p, arguments: seq![] };
        assert(command_at(s, o, d) == Ok::<(CommandModel, int), ParseError>((c, o + 1)));
        assert(arguments_depth(c.arguments) == 0);
    } else {
        let inner = nested((k - 1) as nat, braces);
        let il = inner.len() as int;
        let op = opener(braces);
        let cl = closer(braces);
        assert(s[o + 1] == t[1]);
        assert(s[o + 2] == t[2]);
        assert(t[2] == op);
        assert(!crate::grammar::is_word_byte(op) && op != crate::grammar::QUOTE);
        assert(cl == if op == OPEN_PAREN { CLOSE_PAREN } else { CLOSE_BRACE });
        assert(t[len - 1] == cl);
        assert(whitespace_from(s, o + 2, false, false) == Ok::<int, ParseError>(o + 2));
        assert(whitespace_end(s, o + 1, false) == Ok::<int, ParseError>(o + 2));
        assert(s.subrange(o + 3, o + 3 + il) =~= inner) by {
            assert forall|j: int| 0 <= j < il implies s.subrange(o + 3, o + 3 + il)[j] == inner[j] by {
                assert(s[o + 3 + j] == t[3 + j]);
            }
        }
        assert(s[o + 3 + il] == t[len - 1]);
        lemma_nested_units(s, o + 3, (k - 1) as nat, d + 1, Some(closer(braces)), braces);
        let (us, e) = units_at(s, o + 3, d + 1, Some(closer(braces)), seq![])->Ok_0;
        let b = BodyModel { span: span_of(o + 3, e), units: us };
        let a = if braces { ArgumentModel::Function(b) } else { ArgumentModel::Subcall(b) };
        assert(argument_at(s, o + 2, d) == Ok::<(ArgumentModel, int), ParseError>((a, o + len)));
        assert(pipeline_at(s, o + 2, d, seq![]) == Ok::<(Seq<ArgumentModel>, int), ParseError>((seq![a], o + len)));
        assert(arguments_at(s, o + 2, d) == Ok::<(Seq<ArgumentModel>, int), ParseError>((seq![a], o + len)));
        c = CommandModel { span: span_of(o, o + len), path: p, arguments: seq![a] };
        assert(command_at(s, o, d) == Ok::<(CommandModel, int), ParseError>((c, o + len)));
        assert(seq![a].drop_last() =~= seq![]);
        assert(argument_depth(a) == k);
        assert(arguments_depth(seq![a].drop_last()) == 0);
        assert(arguments_depth(seq![a]) == larger(arguments_depth(seq![a].drop_last()), argument_depth(seq![a].last())));
        assert(arguments_depth(c.arguments) == k);
    }
    let u = UnitModel::Command(c);
    assert(units_at(s, o + len, d, close, seq![u]) == Ok::<(Seq<UnitModel>, int), ParseError>((seq![u], o + len)));
    assert(units_at(s, o, d, close, seq![]) == Ok::<(Seq<UnitModel>, int), ParseError>((seq![u], o + len)));
    assert(seq![u].drop_last() =~= seq![]);
    assert(units_depth(seq![u].drop_last()) == 0);
    assert(units_depth(seq![u]) == larger(units_depth(seq![u].drop_last()), unit_depth(seq![u].last())));
    assert(units_depth(seq![u]) == k);
}

/// A script nested `n` levels deep, in sub-invocations or in deferred
/// blocks, parses, and its tree is exactly `n` bodies deep, for every `n` up
/// to the nesting limit.
pub proof fn nesting_law(n: nat, braces: bool)
    requires
        n <= MAX_DEPTH,
    ensures
        program_of(nested(n, braces)) matches Ok(p) && units_depth(p.units) == n,
{
    let s = nested(n, braces);
    lemma_nested_len(n, braces);
    assert(s.subrange(0, s.len() as int) =~= s);
    lemma_nested_units(s, 0, n, 0, None, braces);
}

} // verus!

verus! {

/// A sub-invocation nested `n` levels deep, `(x (x ... ))`, or a deferred
/// block nested alike, `{x {x ... }}`, parses as one argument that takes the
/// whole input and is exactly `n` bodies deep, for every `n` from 1 up to the
/// nesting limit.
pub proof fn argument_nesting_law(n: nat, braces: bool)
    requires
        1 <= n <= MAX_DEPTH,
    ensures
        ({
            let s = seq![opener(braces)] + nested((n - 1) as nat, braces) + seq![closer(braces)];
            argument_at(s, 0, 0) matches Ok((a, e)) && e == s.len() && argument_depth(a) == n
        }),
{
    let inner = nested((n - 1) as nat, braces);
    let s = seq![opener(braces)] + inner + seq![closer(braces)];
    lemma_nested_len((n - 1) as nat, braces);
    assert(s.subrange(1, 1 + inner.len() as int) =~= inner);
    assert(s[1 + inner.len() as int] == closer(braces));
    lemma_nested_units(s, 1, (n - 1) as nat, 1, Some(closer(braces)), braces);
    let (us, e) = units_at(s, 1, 1, Some(closer(braces)), seq![])->Ok_0;
    let b = BodyModel { span: span_of(1, e), units: us };
    let a = if braces { ArgumentModel::Function(b) } else { ArgumentModel::Subcall(b) };
    assert(argument_at(s, 0, 0) == Ok::<(ArgumentModel, int), ParseError>((a, e + 1)));
}

} // verus!
