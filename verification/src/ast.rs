//! The data model: byte spans into one line's source buffer, tokens'
//! downstream form (statements), and the parsed module for one line.

use vstd::prelude::*;

verus! {

/// Half-open byte range `[start, end)` into one line's immutable source
/// buffer. A span never owns text; it is resolved lazily by slicing.
#[derive(Clone, Copy, Debug, PartialEq, Eq, Structural)]
pub struct Span {
    pub start: usize,
    pub end: usize,
}

impl Span {
    /// The span is a well-formed range within a buffer of length `len`.
    pub open spec fn wf(self, len: nat) -> bool {
        self.start <= self.end <= len
    }

    pub fn new(start: usize, end: usize) -> (s: Span)
        ensures
            s.start == start,
            s.end == end,
    {
        Span { start, end }
    }
}

/// The bytes a span selects out of a source buffer.
pub open spec fn span_slice(src: Seq<u8>, sp: Span) -> Seq<u8> {
    src.subrange(sp.start as int, sp.end as int)
}

/// Wraps a value with the span of the source text it came from.
#[derive(Clone, Debug)]
pub struct Spanned<T> {
    pub value: T,
    pub span: Span,
}

impl<T> Spanned<T> {
    pub fn new(value: T, span: Span) -> (s: Spanned<T>)
        ensures
            s.value == value,
            s.span == span,
    {
        Spanned { value, span }
    }
}

/// The disposition of one end (stdin or stdout) of a statement.
#[derive(Clone, Copy, Debug, PartialEq, Eq, Structural)]
pub enum StreamStrategy {
    /// Inherit the shell's own handle.
    Inherit,
    /// Pipe the named file's content to stdin.
    PipeFromFile(Span),
    /// Pipe stdout into the named file, created or truncated.
    PipeToFile(Span),
    /// Pipe stdout to the stdin of the next statement in the module.
    PipeToStdin,
}

/// One command statement: the command name and arguments as spans into the
/// source line, and the disposition of its two standard streams.
#[derive(Clone, Debug)]
pub struct Program {
    pub program: Span,
    pub argv: Vec<Span>,
    pub stdin: StreamStrategy,
    pub stdout: StreamStrategy,
}

/// The mathematical value of a [`Program`]: its argument list as a sequence.
pub struct ProgramV {
    pub program: Span,
    pub argv: Seq<Span>,
    pub stdin: StreamStrategy,
    pub stdout: StreamStrategy,
}

impl View for Program {
    type V = ProgramV;

    open spec fn view(&self) -> ProgramV {
        ProgramV {
            program: self.program,
            argv: self.argv@,
            stdin: self.stdin,
            stdout: self.stdout,
        }
    }
}

impl Program {
    pub fn new(
        program: Span,
        argv: Vec<Span>,
        stdin: StreamStrategy,
        stdout: StreamStrategy,
    ) -> (p: Program)
        ensures
            p@ == (ProgramV { program, argv: argv@, stdin, stdout }),
    {
        Program { program, argv, stdin, stdout }
    }
}

/// The mathematical value of one statement: the program together with the
/// span of the whole statement, command through trailing terminator.
pub struct StmtV {
    pub prog: ProgramV,
    pub span: Span,
}

/// The value of a spanned statement.
pub open spec fn stmt_view(s: Spanned<Program>) -> StmtV {
    StmtV { prog: s.value@, span: s.span }
}

/// The full parsed statement sequence for one input line.
#[derive(Clone, Debug)]
pub struct Module {
    pub stmts: Vec<Spanned<Program>>,
}

impl View for Module {
    type V = Seq<StmtV>;

    open spec fn view(&self) -> Seq<StmtV> {
        self.stmts@.map_values(|s: Spanned<Program>| stmt_view(s))
    }
}

/// Every span a statement carries stays inside a buffer of length `len`.
pub open spec fn stmt_spans_wf(s: StmtV, len: nat) -> bool {
    &&& s.prog.program.wf(len)
    &&& forall|k: int| 0 <= k < s.prog.argv.len() ==> #[trigger] s.prog.argv[k].wf(len)
    &&& (s.prog.stdin matches StreamStrategy::PipeFromFile(sp) ==> sp.wf(len))
    &&& (s.prog.stdout matches StreamStrategy::PipeToFile(sp) ==> sp.wf(len))
    &&& s.span.wf(len)
}

/// Every span in the module stays inside a buffer of length `len`.
pub open spec fn module_spans_wf(m: Seq<StmtV>, len: nat) -> bool {
    forall|i: int| 0 <= i < m.len() ==> stmt_spans_wf(#[trigger] m[i], len)
}

} // verus!
