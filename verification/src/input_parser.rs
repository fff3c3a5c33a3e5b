//! The parser: assembles a whitespace-filtered token stream into a module,
//! one statement at a time. A statement is a command token (path or
//! identifier), a run of argument tokens, and a terminator that fixes the
//! stream strategies of its two standard streams. The whole line fails
//! atomically at the first parse error.

use vstd::prelude::*;
use crate::ast::{Module, Program, ProgramV, Span, Spanned, StmtV, StreamStrategy, stmt_view};
use crate::diagnostics::{Diagnostic, DiagnosticKind};
use crate::input_lexer::{Token, TokenType};

verus! {

/// A token type that ends a statement.
pub open spec fn is_terminator(t: TokenType) -> bool {
    ||| t == TokenType::EOF
    ||| t == TokenType::And
    ||| t == TokenType::Pipe
    ||| t == TokenType::RedirIn
    ||| t == TokenType::RedirOut
}

/// The span a token covers.
pub open spec fn token_span(t: Token) -> Span {
    Span { start: t.start, end: t.end }
}

/// The end of the argument run beginning at `j`: the first position at or
/// after `j` holding a terminator, or the end of the tokens.
pub open spec fn argv_end(toks: Seq<Token>, j: int) -> int
    decreases toks.len() - j,
{
    if j < toks.len() && !is_terminator(toks[j].typ) {
        argv_end(toks, j + 1)
    } else {
        j
    }
}

/// The outcome of parsing one statement at a token position.
pub enum StmtStep {
    /// Clean end of input: no statement begins here.
    End,
    /// A parse error; the whole line fails.
    Fail { diag: Diagnostic },
    /// A parsed statement, and the position where the next one begins.
    Stmt { stmt: StmtV, next: int },
}

/// Parses one statement at position `i`. The command must be a path or an
/// identifier; arguments run to the first terminator; the terminator fixes
/// the statement's stream strategies:
/// `|` pipes stdout to the next statement's stdin; `<` and `>` demand a
/// following path token naming the file; end of input and `&` are plain
/// boundaries, whose synthesized span ends at the command's own end.
pub open spec fn stmt_at(toks: Seq<Token>, i: int) -> StmtStep {
    if i >= toks.len() || toks[i].typ == TokenType::EOF {
        StmtStep::End
    } else if !(toks[i].typ == TokenType::Path || toks[i].typ == TokenType::Identifier) {
        StmtStep::Fail {
            diag: Diagnostic { kind: DiagnosticKind::InvalidCommand, span: token_span(toks[i]) },
        }
    } else {
        let cmd = toks[i];
        let ae = argv_end(toks, i + 1);
        let argv = Seq::new((ae - (i + 1)) as nat, |k: int| token_span(toks[i + 1 + k]));
        if ae >= toks.len() {
            StmtStep::Stmt {
                stmt: StmtV {
                    prog: ProgramV {
                        program: token_span(cmd),
                        argv,
                        stdin: StreamStrategy::Inherit,
                        stdout: StreamStrategy::Inherit,
                    },
                    span: Span { start: cmd.start, end: cmd.end },
                },
                next: ae,
            }
        } else {
            let term = toks[ae];
            if term.typ == TokenType::Pipe {
                StmtStep::Stmt {
                    stmt: StmtV {
                        prog: ProgramV {
                            program: token_span(cmd),
                            argv,
                            stdin: StreamStrategy::Inherit,
                            stdout: StreamStrategy::PipeToStdin,
                        },
                        span: Span { start: cmd.start, end: term.end },
                    },
                    next: ae + 1,
                }
            } else if term.typ == TokenType::RedirIn {
                if ae + 1 < toks.len() && toks[ae + 1].typ == TokenType::Path {
                    StmtStep::Stmt {
                        stmt: StmtV {
                            prog: ProgramV {
                                program: token_span(cmd),
                                argv,
                                stdin: StreamStrategy::PipeFromFile(token_span(toks[ae + 1])),
                                stdout: StreamStrategy::Inherit,
                            },
                            span: Span { start: cmd.start, end: term.end },
                        },
                        next: ae + 2,
                    }
                } else {
                    StmtStep::Fail {
                        diag: Diagnostic {
                            kind: DiagnosticKind::MissingInputPath,
                            span: if ae + 1 < toks.len() {
                                token_span(toks[ae + 1])
                            } else {
                                Span { start: 0, end: 0 }
                            },
                        },
                    }
                }
            } else if term.typ == TokenType::RedirOut {
                if ae + 1 < toks.len() && toks[ae + 1].typ == TokenType::Path {
                    StmtStep::Stmt {
                        stmt: StmtV {
                            prog: ProgramV {
                                program: token_span(cmd),
                                argv,
                                stdin: StreamStrategy::Inherit,
                                stdout: StreamStrategy::PipeToFile(token_span(toks[ae + 1])),
                            },
                            span: Span { start: cmd.start, end: term.end },
                        },
                        next: ae + 2,
                    }
                } else {
                    StmtStep::Fail {
                        diag: Diagnostic {
                            kind: DiagnosticKind::MissingOutputPath,
                            span: if ae + 1 < toks.len() {
                                token_span(toks[ae + 1])
                            } else {
                                Span { start: 0, end: 0 }
                            },
                        },
                    }
                }
            } else {
                StmtStep::Stmt {
                    stmt: StmtV {
                        prog: ProgramV {
                            program: token_span(cmd),
                            argv,
                            stdin: StreamStrategy::Inherit,
                            stdout: StreamStrategy::Inherit,
                        },
                        span: Span { start: cmd.start, end: cmd.end },
                    },
                    next: ae + 1,
                }
            }
        }
    }
}

/// The outcome of parsing a whole line.
pub enum ParseOut {
    /// The ordered statements of the line.
    Parsed { stmts: Seq<StmtV> },
    /// The first parse error; the whole line fails atomically.
    Fail { diag: Diagnostic },
}

/// Parses statements from position `i` until end of input or the first
/// error.
pub open spec fn parse_from(toks: Seq<Token>, i: int) -> ParseOut
    decreases toks.len() + 1 - i,
{
    match stmt_at(toks, i) {
        StmtStep::End => ParseOut::Parsed { stmts: Seq::empty() },
        StmtStep::Fail { diag } => ParseOut::Fail { diag },
        StmtStep::Stmt { stmt, next } => {
            if i < next <= toks.len() {
                match parse_from(toks, next) {
                    ParseOut::Parsed { stmts } => ParseOut::Parsed { stmts: seq![stmt] + stmts },
                    ParseOut::Fail { diag } => ParseOut::Fail { diag },
                }
            } else {
                ParseOut::Parsed { stmts: Seq::empty() }
            }
        },
    }
}

/// The argument run beginning at `j` stays inside the token sequence.
pub proof fn lemma_argv_end_bounds(toks: Seq<Token>, j: int)
    requires
        0 <= j <= toks.len(),
    ensures
        j <= argv_end(toks, j) <= toks.len(),
    decreases toks.len() - j,
{
    if j < toks.len() && !is_terminator(toks[j].typ) {
        lemma_argv_end_bounds(toks, j + 1);
    }
}

/// A parsed statement consumes at least its command token and ends inside
/// the token sequence.
pub proof fn lemma_stmt_progress(toks: Seq<Token>, i: int)
    requires
        0 <= i <= toks.len(),
    ensures
        stmt_at(toks, i) matches StmtStep::Stmt { next, .. } ==> i < next <= toks.len(),
{
    if i < toks.len() {
        lemma_argv_end_bounds(toks, i + 1);
    }
}

/// With no terminator among the tokens from `j` on, the argument run
/// reaches the end of the tokens.
pub proof fn lemma_argv_end_all(toks: Seq<Token>, j: int)
    requires
        0 <= j <= toks.len(),
        forall|k: int| j <= k < toks.len() ==> !is_terminator((#[trigger] toks[k]).typ),
    ensures
        argv_end(toks, j) == toks.len(),
    decreases toks.len() - j,
{
    if j < toks.len() {
        lemma_argv_end_all(toks, j + 1);
    }
}

/// A line without any operator token parses into exactly one statement:
/// the command with all following tokens as its arguments, both standard
/// streams inherited.
pub proof fn lemma_no_operator_single_statement(toks: Seq<Token>)
    requires
        toks.len() > 0,
        toks[0].typ == TokenType::Path || toks[0].typ == TokenType::Identifier,
        forall|k: int| 0 <= k < toks.len() ==> !is_terminator((#[trigger] toks[k]).typ),
    ensures
        parse_from(toks, 0) matches ParseOut::Parsed { stmts } && {
            &&& stmts.len() == 1
            &&& stmts[0].prog.stdin == StreamStrategy::Inherit
            &&& stmts[0].prog.stdout == StreamStrategy::Inherit
            &&& stmts[0].prog.program == token_span(toks[0])
        },
{
    lemma_argv_end_all(toks, 1);
    let n = toks.len() as int;
    assert(stmt_at(toks, n) is End);
    assert(parse_from(toks, n) == (ParseOut::Parsed { stmts: Seq::<StmtV>::empty() }));
    if let StmtStep::Stmt { stmt, next } = stmt_at(toks, 0) {
        assert(next == n);
        assert(seq![stmt] + Seq::<StmtV>::empty() =~= seq![stmt]);
    }
}

/// The full behaviour of one `process_command` call. After a prior error
/// nothing happens; at end of input no statement is produced; a parse error
/// is recorded without advancing; a parsed statement is returned with the
/// position advanced past it.
pub open spec fn process_command_post(
    pre: InputParser,
    post: InputParser,
    r: Option<Spanned<Program>>,
) -> bool {
    let toks = pre.tokens@;
    let i = pre.index as int;
    if pre.error is Some {
        r is None && post == pre
    } else {
        match stmt_at(toks, i) {
            StmtStep::End => r is None && post == pre,
            StmtStep::Fail { diag } => {
                &&& r is None
                &&& post.error == Some(diag)
                &&& post.index == pre.index
                &&& post.tokens == pre.tokens
            },
            StmtStep::Stmt { stmt, next } => {
                &&& r matches Some(sp) && stmt_view(sp) == stmt
                &&& post.index as int == next
                &&& post.error is None
                &&& post.tokens == pre.tokens
            },
        }
    }
}

/// Assembles one line's token stream into a module.
pub struct InputParser {
    pub tokens: Vec<Token>,
    pub index: usize,
    pub error: Option<Diagnostic>,
}

impl InputParser {
    /// The read position stays inside the token sequence.
    pub open spec fn wf(self) -> bool {
        &&& self.index <= self.tokens@.len()
        &&& self.tokens@.len() + 2 <= usize::MAX
    }

    /// The caller supplies the tokens of one line, already filtered of
    /// whitespace.
    pub fn new(tokens: Vec<Token>) -> (p: InputParser)
        requires
            tokens@.len() + 2 <= usize::MAX,
        ensures
            p.wf(),
            p.tokens == tokens,
            p.index == 0,
            p.error is None,
    {
        InputParser { tokens, index: 0, error: None }
    }

    /// Parses one statement, or returns nothing at end of input and on the
    /// first parse error, which is recorded in `self.error`.
    pub fn process_command(&mut self) -> (r: Option<Spanned<Program>>)
        requires
            old(self).wf(),
        ensures
            final(self).wf(),
            process_command_post(*old(self), *final(self), r),
    {
        if self.error.is_some() {
            return None;
        }
        let len = self.tokens.len();
        let i = self.index;
        if i >= len {
            return None;
        }
        let cmd = self.tokens[i];
        if cmd.typ == TokenType::EOF {
            return None;
        }
        if !(cmd.typ == TokenType::Path || cmd.typ == TokenType::Identifier) {
            self.error = Some(Diagnostic::new(
                DiagnosticKind::InvalidCommand,
                Span::new(cmd.start, cmd.end),
            ));
            return None;
        }
        let ghost toks = self.tokens@;
        let mut argv: Vec<Span> = Vec::new();
        let mut j = i + 1;
        loop
            invariant
                self.wf(),
                self.tokens@ == toks,
                i + 1 <= j <= len,
                len == toks.len(),
                argv_end(toks, i + 1) == argv_end(toks, j as int),
                argv@ =~= Seq::new((j - (i + 1)) as nat, |k: int| token_span(toks[i + 1 + k])),
            ensures
                j as int == argv_end(toks, i + 1),
                i + 1 <= j <= len,
                argv@ =~= Seq::new((j - (i + 1)) as nat, |k: int| token_span(toks[i + 1 + k])),
            decreases len - j,
        {
            if j >= len {
                break;
            }
            let t = self.tokens[j];
            if terminator(t.typ) {
                break;
            }
            argv.push(Span::new(t.start, t.end));
            j += 1;
            proof {
                assert(argv@ =~= Seq::new((j - (i + 1)) as nat, |k: int| token_span(toks[i + 1 + k])));
            }
        }
        let cmd_span = Span::new(cmd.start, cmd.end);
        if j >= len {
            self.index = j;
            return Some(Spanned::new(
                Program::new(cmd_span, argv, StreamStrategy::Inherit, StreamStrategy::Inherit),
                Span::new(cmd.start, cmd.end),
            ));
        }
        let term = self.tokens[j];
        if term.typ == TokenType::Pipe {
            self.index = j + 1;
            return Some(Spanned::new(
                Program::new(cmd_span, argv, StreamStrategy::Inherit, StreamStrategy::PipeToStdin),
                Span::new(cmd.start, term.end),
            ));
        }
        if term.typ == TokenType::RedirIn {
            if j + 1 < len && self.tokens[j + 1].typ == TokenType::Path {
                let f = self.tokens[j + 1];
                self.index = j + 2;
                return Some(Spanned::new(
                    Program::new(
                        cmd_span,
                        argv,
                        StreamStrategy::PipeFromFile(Span::new(f.start, f.end)),
                        StreamStrategy::Inherit,
                    ),
                    Span::new(cmd.start, term.end),
                ));
            }
            let sp = if j + 1 < len {
                let t = self.tokens[j + 1];
                Span::new(t.start, t.end)
            } else {
                Span::new(0, 0)
            };
            self.error = Some(Diagnostic::new(DiagnosticKind::MissingInputPath, sp));
            return None;
        }
        if term.typ == TokenType::RedirOut {
            if j + 1 < len && self.tokens[j + 1].typ == TokenType::Path {
                let f = self.tokens[j + 1];
                self.index = j + 2;
                return Some(Spanned::new(
                    Program::new(
                        cmd_span,
                        argv,
                        StreamStrategy::Inherit,
                        StreamStrategy::PipeToFile(Span::new(f.start, f.end)),
                    ),
                    Span::new(cmd.start, term.end),
                ));
            }
            let sp = if j + 1 < len {
                let t = self.tokens[j + 1];
                Span::new(t.start, t.end)
            } else {
                Span::new(0, 0)
            };
            self.error = Some(Diagnostic::new(DiagnosticKind::MissingOutputPath, sp));
            return None;
        }
        // EOF or And: a plain statement boundary.
        self.index = j + 1;
        Some(Spanned::new(
            Program::new(cmd_span, argv, StreamStrategy::Inherit, StreamStrategy::Inherit),
            Span::new(cmd.start, cmd.end),
        ))
    }

    /// Parses the whole line: statements accumulate in order until end of
    /// input. At the first parse error the whole line fails atomically, the
    /// module is discarded, and the error is recorded in `self.error`.
    pub fn build_ast(&mut self) -> (r: Option<Module>)
        requires
            old(self).wf(),
            old(self).error is None,
        ensures
            final(self).wf(),
            match parse_from(old(self).tokens@, old(self).index as int) {
                ParseOut::Parsed { stmts } => {
                    &&& r matches Some(m) && m@ == stmts
                    &&& final(self).error is None
                },
                ParseOut::Fail { diag } => r is None && final(self).error == Some(diag),
            },
    {
        let ghost toks = self.tokens@;
        let ghost i0 = self.index as int;
        let mut stmts: Vec<Spanned<Program>> = Vec::new();
        loop
            invariant_except_break
                self.error is None,
                ({
                    let tail = parse_from(toks, self.index as int);
                    let full = parse_from(toks, i0);
                    match tail {
                        ParseOut::Parsed { stmts: rest } => full == (ParseOut::Parsed {
                            stmts: stmts@.map_values(|s: Spanned<Program>| stmt_view(s)) + rest,
                        }),
                        ParseOut::Fail { diag } => full == (ParseOut::Fail { diag }),
                    }
                }),
            invariant
                self.wf(),
                self.tokens@ == toks,
                i0 <= self.index as int,
            ensures
                self.wf(),
                self.tokens@ == toks,
                match parse_from(toks, i0) {
                    ParseOut::Parsed { stmts: all } => {
                        &&& self.error is None
                        &&& stmts@.map_values(|s: Spanned<Program>| stmt_view(s)) == all
                    },
                    ParseOut::Fail { diag } => self.error == Some(diag),
                },
            decreases toks.len() + 1 - self.index,
        {
            let ghost pre = *self;
            let ghost prev = stmts@;
            proof {
                lemma_stmt_progress(toks, pre.index as int);
            }
            match self.process_command() {
                Some(sp) => {
                    stmts.push(sp);
                    proof {
                        let f = |s: Spanned<Program>| stmt_view(s);
                        if let StmtStep::Stmt { stmt, next } = stmt_at(toks, pre.index as int) {
                            assert(stmts@.map_values(f) =~= prev.map_values(f).push(stmt));
                            match parse_from(toks, next) {
                                ParseOut::Parsed { stmts: rest } => {
                                    assert(prev.map_values(f) + (seq![stmt] + rest)
                                        =~= stmts@.map_values(f) + rest);
                                },
                                ParseOut::Fail { .. } => {},
                            }
                        }
                    }
                },
                None => {
                    proof {
                        let f = |s: Spanned<Program>| stmt_view(s);
                        if stmt_at(toks, pre.index as int) is End {
                            assert(stmts@.map_values(f) + Seq::<StmtV>::empty()
                                =~= stmts@.map_values(f));
                        }
                    }
                    break;
                },
            }
        }
        if self.error.is_some() {
            return None;
        }
        Some(Module { stmts })
    }
}

/// A token type that ends a statement.
fn terminator(t: TokenType) -> (r: bool)
    ensures
        r == is_terminator(t),
{
    t == TokenType::EOF || t == TokenType::And || t == TokenType::Pipe || t == TokenType::RedirIn
        || t == TokenType::RedirOut
}

} // verus!
