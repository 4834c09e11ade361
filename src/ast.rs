use vstd::prelude::*;
use vstd::string::StringSliceAdditionalSpecFns;
use crate::grammar::{unescape, BACKSLASH, QUOTE};
use crate::span::Span;

verus! {

/// The whole parsed script: its units in source order.
#[derive(Debug)]
pub struct Program {
    pub span: Span,
    pub commands: Vec<CommandType>,
}

/// A unit made of whitespace and comments only.
#[derive(Debug)]
pub struct EmptyCommand {
    pub span: Span,
}

/// One unit of a program or a body.
#[derive(Debug)]
pub enum CommandType {
    EmptyCommand(EmptyCommand),
    Command(Command),
}

/// A dotted chain of words naming a command; each component is the span of one word.
#[derive(Debug)]
pub struct CommandPath {
    pub span: Span,
    pub components: Vec<Span>,
}

/// One invocation: a command path and its pipeline of arguments.
#[derive(Debug)]
pub struct Command {
    pub span: Span,
    pub command_path: CommandPath,
    pub arguments: Vec<Argument>,
}

/// The units between the delimiters of a sub-invocation or a deferred block.
#[derive(Debug)]
pub struct Body {
    pub span: Span,
    pub commands: Vec<CommandType>,
}

/// A text argument: a bare word, or the inside of a quoted string.
#[derive(Debug)]
pub struct String {
    pub span: Span,
    pub quoted: bool,
}

/// A body written `( ... )`, evaluated in place by a consumer.
#[derive(Debug)]
pub struct Subcall(pub Body);

/// A body written `{ ... }`, kept by a consumer as a deferred value.
#[derive(Debug)]
pub struct Function(pub Body);

/// One element of a pipeline.
#[derive(Debug)]
pub enum Argument {
    Subcall(Subcall),
    Function(Function),
    String(String),
}

/// The mathematical form of an argument.
pub ghost enum ArgumentModel {
    Subcall(BodyModel),
    Function(BodyModel),
    Text { span: Span, quoted: bool },
}

/// The mathematical form of a command path.
pub ghost struct PathModel {
    pub span: Span,
    pub components: Seq<Span>,
}

/// The mathematical form of a command.
pub ghost struct CommandModel {
    pub span: Span,
    pub path: PathModel,
    pub arguments: Seq<ArgumentModel>,
}

/// The mathematical form of a unit.
pub ghost enum UnitModel {
    Empty(Span),
    Command(CommandModel),
}

/// The mathematical form of a program or a body: its span and its units.
pub ghost struct BodyModel {
    pub span: Span,
    pub units: Seq<UnitModel>,
}

pub open spec fn path_model(p: CommandPath) -> PathModel {
    PathModel { span: p.span, components: p.components@ }
}

pub open spec fn argument_model(a: Argument) -> ArgumentModel
    decreases a,
{
    match a {
        Argument::Subcall(Subcall(b)) => ArgumentModel::Subcall(body_model(b)),
        Argument::Function(Function(b)) => ArgumentModel::Function(body_model(b)),
        Argument::String(t) => ArgumentModel::Text { span: t.span, quoted: t.quoted },
    }
}

pub open spec fn body_model(b: Body) -> BodyModel
    decreases b,
{
    BodyModel { span: b.span, units: units_model(b.commands@) }
}

pub open spec fn units_model(us: Seq<CommandType>) -> Seq<UnitModel>
    decreases us,
{
    if us.len() == 0 {
        seq![]
    } else {
        units_model(us.drop_last()).push(unit_model(us.last()))
    }
}

pub open spec fn unit_model(u: CommandType) -> UnitModel
    decreases u,
{
    match u {
        CommandType::EmptyCommand(e) => UnitModel::Empty(e.span),
        CommandType::Command(c) => UnitModel::Command(command_model(c)),
    }
}

pub open spec fn command_model(c: Command) -> CommandModel
    decreases c,
{
    CommandModel {
        span: c.span,
        path: path_model(c.command_path),
        arguments: arguments_model(c.arguments@),
    }
}

pub open spec fn arguments_model(args: Seq<Argument>) -> Seq<ArgumentModel>
    decreases args,
{
    if args.len() == 0 {
        seq![]
    } else {
        arguments_model(args.drop_last()).push(argument_model(args.last()))
    }
}

} // verus!

verus! {

/// A program has the same mathematical form as a body.
pub open spec fn program_model(p: Program) -> BodyModel {
    BodyModel { span: p.span, units: units_model(p.commands@) }
}

} // verus!

verus! {

impl CommandType {
    /// The span of the unit.
    pub fn span(&self) -> (r: Span)
        ensures
            r == match *self {
                CommandType::EmptyCommand(e) => e.span,
                CommandType::Command(c) => c.span,
            },
    {
        match self {
            CommandType::EmptyCommand(e) => e.span,
            CommandType::Command(c) => c.span,
        }
    }

    /// Whether the unit is whitespace and comments only.
    pub fn is_empty(&self) -> (r: bool)
        ensures
            r == (*self is EmptyCommand),
    {
        match self {
            CommandType::EmptyCommand(_) => true,
            CommandType::Command(_) => false,
        }
    }
}

impl Subcall {
    /// The span of the body, inside the parentheses.
    pub fn span(&self) -> (r: Span)
        ensures
            r == self.0.span,
    {
        self.0.span
    }
}

impl Function {
    /// The span of the body, inside the braces.
    pub fn span(&self) -> (r: Span)
        ensures
            r == self.0.span,
    {
        self.0.span
    }
}

impl Argument {
    /// The span of the argument: of its body, or of its text.
    pub fn span(&self) -> (r: Span)
        ensures
            r == match *self {
                Argument::Subcall(c) => c.0.span,
                Argument::Function(f) => f.0.span,
                Argument::String(t) => t.span,
            },
    {
        match self {
            Argument::Subcall(c) => c.span(),
            Argument::Function(f) => f.span(),
            Argument::String(t) => t.span,
        }
    }
}

impl String {
    /// What the text stands for in `source`: a word as written, a quoted
    /// string with each `\"` read as `"`.
    pub fn content(&self, source: &str) -> (r: Vec<u8>)
        requires
            self.span.within(source.spec_bytes().len() as int),
        ensures
            r@ == if self.quoted {
                unescape(self.span.text_of(source.spec_bytes()))
            } else {
                self.span.text_of(source.spec_bytes())
            },
    {
        let s = source.as_bytes();
        let mut out: Vec<u8> = Vec::new();
        let mut j: usize = self.span.start;
        let ghost text = self.span.text_of(s@);
        loop
            invariant
                self.span.start <= j <= self.span.end <= s@.len(),
                s@ == source.spec_bytes(),
                text == s@.subrange(self.span.start as int, self.span.end as int),
                self.quoted ==> out@ + unescape(s@.subrange(j as int, self.span.end as int)) == unescape(text),
                !self.quoted ==> out@ + s@.subrange(j as int, self.span.end as int) == text,
            decreases self.span.end - j,
        {
            if j >= self.span.end {
                proof {
                    let empty = s@.subrange(j as int, self.span.end as int);
                    assert(empty =~= seq![]);
                    assert(unescape(empty) =~= seq![]);
                    assert(out@ + empty =~= out@);
                    assert(out@ + unescape(empty) =~= out@);
                }
                return out;
            }
            let ghost rest = s@.subrange(j as int, self.span.end as int);
            if self.quoted && self.span.end - j >= 2 && s[j] == BACKSLASH && s[j + 1] == QUOTE {
                out.push(QUOTE);
                proof {
                    assert(rest.subrange(2, rest.len() as int) =~= s@.subrange(j + 2, self.span.end as int));
                    assert(out@ + unescape(s@.subrange(j + 2, self.span.end as int)) =~= out@.drop_last()
                        + unescape(rest));
                }
                j = j + 2;
            } else {
                out.push(s[j]);
                proof {
                    assert(rest.subrange(1, rest.len() as int) =~= s@.subrange(j + 1, self.span.end as int));
                    if self.quoted {
                        assert(out@ + unescape(s@.subrange(j + 1, self.span.end as int)) =~= out@.drop_last()
                            + unescape(rest));
                    } else {
                        assert(out@ + s@.subrange(j + 1, self.span.end as int) =~= out@.drop_last() + rest);
                    }
                }
                j = j + 1;
            }
        }
    }
}

} // verus!
