use phoenix_shell::ast::{Module, StreamStrategy};
use phoenix_shell::diagnostics::{Diagnostic, DiagnosticKind};
use phoenix_shell::input_lexer::{InputLexer, LexerConfig, Token, TokenType};
use phoenix_shell::input_parser::InputParser;

fn tokens_of(src: &str) -> Vec<Token> {
    let mut lx = InputLexer::new(src.as_bytes().to_vec(), LexerConfig::unix());
    let mut toks = Vec::new();
    while let Some(t) = lx.next_token() {
        toks.push(t);
    }
    assert!(lx.error.is_none(), "lexical error in test input {:?}", src);
    toks.retain(|t| t.typ != TokenType::Whitespace);
    toks
}

fn parse(src: &str) -> (Option<Module>, Option<Diagnostic>) {
    let mut p = InputParser::new(tokens_of(src));
    let m = p.build_ast();
    (m, p.error)
}

fn parse_ok(src: &str) -> Module {
    let (m, err) = parse(src);
    assert!(err.is_none(), "parse error for {:?}", src);
    m.unwrap()
}

// `"a | b | c"` parses into 3 statements where statements 0 and 1 have
// `stdout = PipeToStdin` and statement 2 has `stdout = Inherit`.
#[test]
fn three_member_pipeline_statements() {
    let m = parse_ok("a | b | c");
    assert_eq!(m.stmts.len(), 3);
    assert_eq!(m.stmts[0].value.stdout, StreamStrategy::PipeToStdin);
    assert_eq!(m.stmts[1].value.stdout, StreamStrategy::PipeToStdin);
    assert_eq!(m.stmts[2].value.stdout, StreamStrategy::Inherit);
    for s in &m.stmts {
        assert_eq!(s.value.stdin, StreamStrategy::Inherit);
    }
}

#[test]
fn redirect_out_takes_following_path() {
    let src = "prog > out.txt";
    let m = parse_ok(src);
    assert_eq!(m.stmts.len(), 1);
    let p = &m.stmts[0].value;
    assert_eq!(p.stdin, StreamStrategy::Inherit);
    match p.stdout {
        StreamStrategy::PipeToFile(sp) => assert_eq!(&src[sp.start..sp.end], "out.txt"),
        ref other => panic!("expected PipeToFile, got {:?}", other),
    }
}

#[test]
fn redirect_in_takes_following_path() {
    let src = "prog < in.txt";
    let m = parse_ok(src);
    let p = &m.stmts[0].value;
    assert_eq!(p.stdout, StreamStrategy::Inherit);
    match p.stdin {
        StreamStrategy::PipeFromFile(sp) => assert_eq!(&src[sp.start..sp.end], "in.txt"),
        ref other => panic!("expected PipeFromFile, got {:?}", other),
    }
}

#[test]
fn command_and_argument_spans_resolve_to_text() {
    let src = "echo a 12 'q w' ../up/dir";
    let m = parse_ok(src);
    assert_eq!(m.stmts.len(), 1);
    let p = &m.stmts[0].value;
    assert_eq!(&src[p.program.start..p.program.end], "echo");
    let args: Vec<&str> = p.argv.iter().map(|sp| &src[sp.start..sp.end]).collect();
    assert_eq!(args, vec!["a", "12", "'q w'", "../up/dir"]);
}

#[test]
fn statement_span_runs_from_command_to_terminator() {
    let src = "ls -l | wc";
    let m = parse_ok(src);
    assert_eq!(m.stmts.len(), 2);
    // command start through the pipe operator's end
    assert_eq!((m.stmts[0].span.start, m.stmts[0].span.end), (0, 7));
    // no trailing operator: the span ends at the command's own end
    assert_eq!((m.stmts[1].span.start, m.stmts[1].span.end), (8, 10));
}

#[test]
fn and_is_a_plain_statement_boundary() {
    let src = "a & b";
    let m = parse_ok(src);
    assert_eq!(m.stmts.len(), 2);
    for s in &m.stmts {
        assert_eq!(s.value.stdin, StreamStrategy::Inherit);
        assert_eq!(s.value.stdout, StreamStrategy::Inherit);
    }
    assert_eq!((m.stmts[0].span.start, m.stmts[0].span.end), (0, 1));
    assert_eq!((m.stmts[1].span.start, m.stmts[1].span.end), (4, 5));
}

#[test]
fn empty_line_parses_to_empty_module() {
    let m = parse_ok("");
    assert_eq!(m.stmts.len(), 0);
}

#[test]
fn leading_operator_is_not_a_command() {
    let (m, err) = parse("| foo");
    assert!(m.is_none());
    let d = err.unwrap();
    assert_eq!(d.kind, DiagnosticKind::InvalidCommand);
    assert_eq!((d.span.start, d.span.end), (0, 1));
}

#[test]
fn number_is_not_a_command() {
    let (m, err) = parse("12 x");
    assert!(m.is_none());
    let d = err.unwrap();
    assert_eq!(d.kind, DiagnosticKind::InvalidCommand);
    assert_eq!((d.span.start, d.span.end), (0, 2));
}

#[test]
fn redirect_out_without_path_fails() {
    let (m, err) = parse("a >");
    assert!(m.is_none());
    let d = err.unwrap();
    assert_eq!(d.kind, DiagnosticKind::MissingOutputPath);
    // the offending token is the end-of-input sentinel
    assert_eq!((d.span.start, d.span.end), (3, 3));
}

// A redirect terminates its statement, so a pipe cannot follow it inside
// the same statement; the pipe token is then no command.
#[test]
fn pipe_after_a_redirect_is_invalid() {
    let (m, err) = parse("sort < in.txt | uniq");
    assert!(m.is_none());
    let d = err.unwrap();
    assert_eq!(d.kind, DiagnosticKind::InvalidCommand);
    assert_eq!((d.span.start, d.span.end), (14, 15));
}

#[test]
fn redirect_out_demands_a_path_token() {
    let (m, err) = parse("a > b");
    assert!(m.is_none());
    let d = err.unwrap();
    assert_eq!(d.kind, DiagnosticKind::MissingOutputPath);
    assert_eq!((d.span.start, d.span.end), (4, 5));
}

#[test]
fn redirect_in_without_path_fails() {
    let (m, err) = parse("a <");
    assert!(m.is_none());
    let d = err.unwrap();
    assert_eq!(d.kind, DiagnosticKind::MissingInputPath);
}

// The whole line fails atomically: statements before the error are
// discarded with it.
#[test]
fn parse_error_discards_earlier_statements() {
    let (m, err) = parse("good | fine & 12");
    assert!(m.is_none());
    assert_eq!(err.unwrap().kind, DiagnosticKind::InvalidCommand);
}

#[test]
fn path_command_is_accepted() {
    let src = "./run arg";
    let m = parse_ok(src);
    let p = &m.stmts[0].value;
    assert_eq!(&src[p.program.start..p.program.end], "./run");
}

#[test]
fn trailing_pipe_keeps_pipe_strategy() {
    let m = parse_ok("a |");
    assert_eq!(m.stmts.len(), 1);
    assert_eq!(m.stmts[0].value.stdout, StreamStrategy::PipeToStdin);
}
