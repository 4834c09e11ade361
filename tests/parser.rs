use irene::ast::{Argument, CommandType, Program};
use irene::error::{Expected, ParseError};
use irene::parser::{
    alphanumeric_underscore, parse_argument, parse_arguments, parse_command_path, parse_program, whitespace,
};

fn text_of(source: &str, arg: &Argument) -> (Vec<u8>, bool) {
    match arg {
        Argument::String(t) => (t.content(source), t.quoted),
        _ => panic!("expected a text argument"),
    }
}

fn only_command(source: &str, program: &Program) -> usize {
    let commands: Vec<usize> = program
        .commands
        .iter()
        .enumerate()
        .filter(|(_, c)| !c.is_empty())
        .map(|(i, _)| i)
        .collect();
    assert_eq!(commands.len(), 1, "in {:?}", source);
    commands[0]
}

fn nesting_depth(arguments: &[Argument]) -> usize {
    let mut deepest = 0;
    for a in arguments {
        let body = match a {
            Argument::Subcall(s) => &s.0,
            Argument::Function(f) => &f.0,
            Argument::String(_) => continue,
        };
        for unit in &body.commands {
            if let CommandType::Command(c) = unit {
                deepest = deepest.max(1 + nesting_depth(&c.arguments));
            }
        }
    }
    deepest
}

fn nested(levels: usize) -> String {
    let mut s = String::from("x");
    for _ in 0..levels {
        s = format!("x ({})", s);
    }
    s
}

#[test]
fn test_parse() {
    println!("{:#?}", parse_arguments("abc|def").unwrap());
}

#[test]
fn two_word_pipeline() {
    let src = "abc|def";
    let (args, rest) = parse_arguments(src).unwrap();
    assert_eq!(rest, 7);
    assert_eq!(args.len(), 2);
    assert_eq!(text_of(src, &args[0]), (b"abc".to_vec(), false));
    assert_eq!(text_of(src, &args[1]), (b"def".to_vec(), false));
}

#[test]
fn three_word_pipeline() {
    let src = "a|b|c";
    let (args, rest) = parse_arguments(src).unwrap();
    assert_eq!(rest, 5);
    let texts: Vec<(Vec<u8>, bool)> = args.iter().map(|a| text_of(src, a)).collect();
    assert_eq!(texts, vec![(b"a".to_vec(), false), (b"b".to_vec(), false), (b"c".to_vec(), false)]);
}

#[test]
fn double_pipe_fails() {
    assert_eq!(parse_arguments("a||b").unwrap_err(), ParseError { position: 2, expected: Expected::Argument });
}

#[test]
fn leading_pipe_fails() {
    assert_eq!(parse_arguments("|a").unwrap_err(), ParseError { position: 0, expected: Expected::Argument });
}

#[test]
fn trailing_pipe_fails() {
    assert_eq!(parse_arguments("a|").unwrap_err(), ParseError { position: 2, expected: Expected::Argument });
}

#[test]
fn empty_pipeline() {
    let (args, rest) = parse_arguments(" a").unwrap();
    assert!(args.is_empty());
    assert_eq!(rest, 0);
}

#[test]
fn dotted_path() {
    let src = "a.b.c";
    let (path, rest) = parse_command_path(src).unwrap();
    assert_eq!(rest, 5);
    assert_eq!((path.span.start, path.span.end), (0, 5));
    let parts: Vec<Vec<u8>> = path.components.iter().map(|c| c.text(src)).collect();
    assert_eq!(parts, vec![b"a".to_vec(), b"b".to_vec(), b"c".to_vec()]);
}

#[test]
fn path_stops_before_dangling_dot() {
    let (path, rest) = parse_command_path("ab.").unwrap();
    assert_eq!(path.components.len(), 1);
    assert_eq!(rest, 2);
}

#[test]
fn path_with_leading_dot_fails() {
    assert_eq!(parse_command_path(".a").unwrap_err(), ParseError { position: 0, expected: Expected::CommandPath });
}

#[test]
fn empty_path_fails() {
    assert_eq!(parse_command_path("").unwrap_err(), ParseError { position: 0, expected: Expected::CommandPath });
}

#[test]
fn quoted_text() {
    let src = "\"hi there\"";
    let (arg, rest) = parse_argument(src).unwrap();
    assert_eq!(rest, 10);
    assert_eq!(text_of(src, &arg), (b"hi there".to_vec(), true));
    assert_eq!((arg.span().start, arg.span().end), (1, 9));
}

#[test]
fn quoted_text_with_escaped_quote() {
    let src = "\"a\\\"b\"";
    let (arg, rest) = parse_argument(src).unwrap();
    assert_eq!(rest, 6);
    assert_eq!(text_of(src, &arg), (b"a\"b".to_vec(), true));
}

#[test]
fn quoted_text_keeps_other_characters() {
    let src = "\"é|.(x)\"";
    let (arg, _) = parse_argument(src).unwrap();
    assert_eq!(text_of(src, &arg), ("é|.(x)".as_bytes().to_vec(), true));
}

#[test]
fn unterminated_quote_fails() {
    assert_eq!(parse_argument("\"abc").unwrap_err(), ParseError { position: 4, expected: Expected::ClosingQuote });
}

#[test]
fn unknown_escape_fails() {
    assert_eq!(parse_argument("\"a\\nb\"").unwrap_err(), ParseError { position: 2, expected: Expected::ClosingQuote });
}

#[test]
fn comment_only_program() {
    let src = "/* hello */";
    let program = parse_program(src).unwrap();
    assert_eq!(program.commands.len(), 1);
    assert!(program.commands[0].is_empty());
    let span = program.commands[0].span();
    assert_eq!((span.start, span.end), (0, 11));
}

#[test]
fn unterminated_comment_fails() {
    assert_eq!(parse_program("a /* b").unwrap_err(), ParseError { position: 6, expected: Expected::CommentEnd });
}

#[test]
fn command_with_quoted_argument() {
    let src = "cmd.sub \"hi there\"";
    let program = parse_program(src).unwrap();
    assert_eq!(program.commands.len(), 1);
    match &program.commands[0] {
        CommandType::Command(c) => {
            let parts: Vec<Vec<u8>> = c.command_path.components.iter().map(|p| p.text(src)).collect();
            assert_eq!(parts, vec![b"cmd".to_vec(), b"sub".to_vec()]);
            assert_eq!(c.arguments.len(), 1);
            assert_eq!(text_of(src, &c.arguments[0]), (b"hi there".to_vec(), true));
            assert_eq!((c.span.start, c.span.end), (0, 18));
        }
        CommandType::EmptyCommand(_) => panic!("expected a command"),
    }
}

#[test]
fn empty_program() {
    let program = parse_program("").unwrap();
    assert!(program.commands.is_empty());
}

#[test]
fn units_cover_the_input() {
    let src = "a b|c\n  /* x */ d.e (f)\n";
    let program = parse_program(src).unwrap();
    let mut end = 0;
    for unit in &program.commands {
        let span = unit.span();
        assert_eq!(span.start, end);
        end = span.end;
    }
    assert_eq!(end, src.len());
    let kinds: Vec<bool> = program.commands.iter().map(|c| c.is_empty()).collect();
    assert_eq!(kinds, vec![false, true, false, true]);
}

#[test]
fn comments_leave_structure_alone() {
    let plain = "a b|c\nd";
    let commented = "a /* one */ b|c\n/* two */ d";
    let shape = |src: &str| -> Vec<(usize, usize)> {
        parse_program(src)
            .unwrap()
            .commands
            .iter()
            .filter_map(|u| match u {
                CommandType::Command(c) => Some((c.command_path.components.len(), c.arguments.len())),
                CommandType::EmptyCommand(_) => None,
            })
            .collect()
    };
    assert_eq!(shape(plain), vec![(1, 2), (1, 0)]);
    assert_eq!(shape(commented), shape(plain));
}

#[test]
fn subcall_and_function() {
    let src = "run (get x)|{log y|z}";
    let program = parse_program(src).unwrap();
    let i = only_command(src, &program);
    match &program.commands[i] {
        CommandType::Command(c) => {
            assert_eq!(c.arguments.len(), 2);
            match &c.arguments[0] {
                Argument::Subcall(s) => {
                    assert_eq!((s.span().start, s.span().end), (5, 10));
                }
                _ => panic!("expected a subcall"),
            }
        }
        CommandType::EmptyCommand(_) => panic!("expected a command"),
    }
    let program = parse_program("run {log y|z}").unwrap();
    match &program.commands[0] {
        CommandType::Command(c) => match &c.arguments[0] {
            Argument::Function(f) => {
                assert_eq!(f.0.commands.len(), 1);
                assert_eq!(f.span().start, 5);
            }
            _ => panic!("expected a function"),
        },
        CommandType::EmptyCommand(_) => panic!("expected a command"),
    }
}

#[test]
fn unclosed_body_fails() {
    assert_eq!(parse_program("a (b").unwrap_err(), ParseError { position: 4, expected: Expected::ClosingDelimiter });
}

#[test]
fn command_needs_a_separator() {
    assert_eq!(parse_program("a \"x\"b").unwrap_err(), ParseError { position: 5, expected: Expected::Separator });
}

#[test]
fn stray_pipe_fails() {
    assert_eq!(parse_program("|").unwrap_err(), ParseError { position: 0, expected: Expected::CommandPath });
}

#[test]
fn hundred_levels_of_nesting() {
    let src = nested(100);
    let program = parse_program(&src).unwrap();
    match &program.commands[0] {
        CommandType::Command(c) => assert_eq!(nesting_depth(&c.arguments), 100),
        CommandType::EmptyCommand(_) => panic!("expected a command"),
    }
}

#[test]
fn nesting_beyond_the_limit_fails() {
    let err = parse_program(&nested(300)).unwrap_err();
    assert_eq!(err.expected, Expected::NestingTooDeep);
}

#[test]
fn parsing_is_deterministic() {
    let src = "a.b \"q\"|(c {d})\n/* e */ f";
    assert_eq!(format!("{:?}", parse_program(src)), format!("{:?}", parse_program(src)));
}

#[test]
fn line_and_column() {
    let src = "a\n  bc";
    let program = parse_program(src).unwrap();
    let last = program.commands.last().unwrap().span();
    assert_eq!(last.start, 4);
    assert_eq!(last.line(src), 2);
    assert_eq!(last.column(src), 3);
}

#[test]
fn word_characters() {
    assert!(alphanumeric_underscore('a'));
    assert!(alphanumeric_underscore('Z'));
    assert!(alphanumeric_underscore('7'));
    assert!(alphanumeric_underscore('_'));
    assert!(!alphanumeric_underscore('-'));
    assert!(!alphanumeric_underscore('é'));
}

#[test]
fn error_descriptions() {
    assert_eq!(Expected::Argument.alternatives(), vec!["word", "quoted string", "(", "{"]);
    assert_eq!(Expected::ClosingDelimiter.alternatives(), vec![")", "}"]);
    assert!(Expected::NestingTooDeep.alternatives().is_empty());
    assert_eq!(Expected::CommentEnd.description(), "expected `*/` to close the comment");
    assert_eq!(Expected::Argument.description(), "expected an argument");
    let err = parse_argument("|a").unwrap_err();
    assert_eq!(err.position, 0);
    assert_eq!(err.expected.alternatives(), vec!["word", "quoted string", "(", "{"]);
}

#[test]
fn nested_argument_takes_whole_input() {
    for n in [1usize, 2, 100] {
        let src = format!("({})", nested(n - 1));
        let (arg, rest) = parse_argument(&src).unwrap();
        assert_eq!(rest, src.len());
        assert_eq!(nesting_depth(std::slice::from_ref(&arg)), n);
    }
}

#[test]
fn nested_blocks_take_whole_input() {
    for n in [1usize, 3, 100] {
        let mut inner = String::from("x");
        for _ in 1..n {
            inner = format!("x {{{}}}", inner);
        }
        let src = format!("{{{}}}", inner);
        let (arg, rest) = parse_argument(&src).unwrap();
        assert_eq!(rest, src.len());
        assert!(matches!(arg, Argument::Function(_)));
        assert_eq!(nesting_depth(std::slice::from_ref(&arg)), n);
    }
}

#[test]
fn pipeline_pieces_rebuild_input() {
    let src = "ab|\"c d\"|(e)|{f} rest";
    let (args, end) = parse_arguments(src).unwrap();
    assert_eq!(args.len(), 4);
    assert_eq!(&src[end..], " rest");
    let spans: Vec<(usize, usize)> = args.iter().map(|a| (a.span().start, a.span().end)).collect();
    assert_eq!(spans, vec![(0, 2), (4, 7), (10, 11), (14, 15)]);
}

#[test]
fn blank_program_is_one_empty_unit() {
    let program = parse_program("  \n\t").unwrap();
    assert_eq!(program.commands.len(), 1);
    assert!(program.commands[0].is_empty());
    assert_eq!((program.span.start, program.span.end), (0, 4));
}

#[test]
fn subcall_right_after_path() {
    let src = "f(g)";
    let program = parse_program(src).unwrap();
    match &program.commands[0] {
        CommandType::Command(c) => {
            assert_eq!(c.arguments.len(), 1);
            assert!(matches!(c.arguments[0], Argument::Subcall(_)));
            assert_eq!((c.span.start, c.span.end), (0, 4));
        }
        CommandType::EmptyCommand(_) => panic!("expected a command"),
    }
}

#[test]
fn newline_separates_commands() {
    let program = parse_program("a\nb").unwrap();
    let kinds: Vec<bool> = program.commands.iter().map(|c| c.is_empty()).collect();
    assert_eq!(kinds, vec![false, true, false]);
}

#[test]
fn quoting_round_trip() {
    for x in ["", "plain", "with spaces | and . dots", "{not a body}"] {
        let src = format!("\"{}\"", x);
        let (arg, rest) = parse_argument(&src).unwrap();
        assert_eq!(rest, src.len());
        assert_eq!(text_of(&src, &arg), (x.as_bytes().to_vec(), true));
    }
}

#[test]
fn whitespace_runs() {
    assert_eq!(whitespace(" /* a */\tx"), Ok(9));
    assert_eq!(whitespace("x"), Err(ParseError { position: 0, expected: Expected::Separator }));
    assert_eq!(whitespace(" /* abc"), Ok(1));
    assert_eq!(whitespace("  /* abc"), Ok(2));
    assert_eq!(whitespace("/* abc"), Err(ParseError { position: 6, expected: Expected::CommentEnd }));
}

#[test]
fn comment_inserted_into_whitespace_is_absorbed() {
    let plain = "  x";
    let commented = " /*c*/ x";
    assert_eq!(whitespace(plain), Ok(2));
    assert_eq!(whitespace(commented), Ok(2 + "/*c*/".len()));
    assert_eq!(&commented[whitespace(commented).unwrap()..], &plain[2..]);
}
