//! The execution engine: partitions one line's module into maximal ordered
//! pipeline chains and turns each chain into a plan item — one builtin
//! invocation, one ordered list of process spawns with their stdio wired to
//! their neighbours, or a rejection of a chain that puts a builtin inside a
//! pipe. Planning is pure; the caller performs the spawns, waits, file opens
//! and builtin side effects the plan calls for, in order.

use vstd::prelude::*;
use crate::ast::{Module, Program, ProgramV, Span, StmtV, StreamStrategy, span_slice};
use crate::input_lexer::{Token, TokenType};
use crate::input_parser::{parse_from, ParseOut};

verus! {

/// The closed set of builtin commands, executed in-process.
#[derive(Clone, Copy, Debug, PartialEq, Eq, Structural)]
pub enum Builtin {
    /// Changes the current directory; with no argument, returns to the base.
    Cd,
    /// Lists the current directory.
    Ls,
    /// Clears the screen.
    Clear,
    /// Terminates the whole shell, unconditionally.
    Exit,
}

/// The name a builtin answers to: `cd`, `ls`, `clear` or `exit`.
pub open spec fn builtin_name(b: Builtin) -> Seq<u8> {
    match b {
        Builtin::Cd => seq![99u8, 100u8],
        Builtin::Ls => seq![108u8, 115u8],
        Builtin::Clear => seq![99u8, 108u8, 101u8, 97u8, 114u8],
        Builtin::Exit => seq![101u8, 120u8, 105u8, 116u8],
    }
}

/// The builtin a command name denotes, if any.
pub open spec fn builtin_of(name: Seq<u8>) -> Option<Builtin> {
    if name == builtin_name(Builtin::Cd) {
        Some(Builtin::Cd)
    } else if name == builtin_name(Builtin::Ls) {
        Some(Builtin::Ls)
    } else if name == builtin_name(Builtin::Clear) {
        Some(Builtin::Clear)
    } else if name == builtin_name(Builtin::Exit) {
        Some(Builtin::Exit)
    } else {
        None
    }
}

/// The builtin a statement's command names, resolved by slicing the command
/// span out of the retained source line.
pub open spec fn stmt_builtin(src: Seq<u8>, st: StmtV) -> Option<Builtin> {
    builtin_of(span_slice(src, st.prog.program))
}

/// How a planned spawn binds its stdin.
#[derive(Clone, Copy, Debug, PartialEq, Eq, Structural)]
pub enum StdinBind {
    /// The shell's own stdin.
    Inherit,
    /// The named file, opened for reading.
    FromFile(Span),
    /// The captured read end of the previous spawn's pipe.
    FromPrev,
}

/// How a planned spawn binds its stdout.
#[derive(Clone, Copy, Debug, PartialEq, Eq, Structural)]
pub enum StdoutBind {
    /// The shell's own stdout.
    Inherit,
    /// The named file, created or truncated.
    ToFile(Span),
    /// A fresh pipe whose read end goes to the next spawn.
    ToNext,
}

/// One process to spawn: the command and argument spans to resolve against
/// the source line, and the two stream bindings.
#[derive(Clone, Debug)]
pub struct SpawnSpec {
    pub program: Span,
    pub argv: Vec<Span>,
    pub stdin: StdinBind,
    pub stdout: StdoutBind,
}

/// The mathematical value of a [`SpawnSpec`].
pub struct SpawnSpecV {
    pub program: Span,
    pub argv: Seq<Span>,
    pub stdin: StdinBind,
    pub stdout: StdoutBind,
}

impl View for SpawnSpec {
    type V = SpawnSpecV;

    open spec fn view(&self) -> SpawnSpecV {
        SpawnSpecV {
            program: self.program,
            argv: self.argv@,
            stdin: self.stdin,
            stdout: self.stdout,
        }
    }
}

/// The plan for one maximal pipeline chain.
#[derive(Clone, Debug)]
pub enum ChainPlan {
    /// A chain of one statement naming a builtin: invoked in-process, with
    /// no OS process and no pipe.
    Builtin { which: Builtin, argv: Vec<Span>, span: Span },
    /// External processes to spawn eagerly in order, then wait for in spawn
    /// order.
    Pipeline { spawns: Vec<SpawnSpec> },
    /// A chain of two or more statements holding a builtin: rejected before
    /// anything is spawned, reported at the offending statement's span.
    Rejected { span: Span },
}

/// The mathematical value of a [`ChainPlan`].
pub enum ChainPlanV {
    Builtin { which: Builtin, argv: Seq<Span>, span: Span },
    Pipeline { spawns: Seq<SpawnSpecV> },
    Rejected { span: Span },
}

impl View for ChainPlan {
    type V = ChainPlanV;

    open spec fn view(&self) -> ChainPlanV {
        match self {
            ChainPlan::Builtin { which, argv, span } => ChainPlanV::Builtin {
                which: *which,
                argv: argv@,
                span: *span,
            },
            ChainPlan::Pipeline { spawns } => ChainPlanV::Pipeline {
                spawns: spawns@.map_values(|s: SpawnSpec| s@),
            },
            ChainPlan::Rejected { span } => ChainPlanV::Rejected { span: *span },
        }
    }
}

/// The index of the last statement of the chain beginning at `i`: the chain
/// extends while a statement pipes its stdout to the next statement's stdin
/// and a next statement exists.
pub open spec fn chain_end(stmts: Seq<StmtV>, i: int) -> int
    decreases stmts.len() - i,
{
    if i + 1 < stmts.len() && stmts[i].prog.stdout == StreamStrategy::PipeToStdin {
        chain_end(stmts, i + 1)
    } else {
        i
    }
}

/// Whether some statement in `[lo, hi]` names a builtin.
pub open spec fn chain_has_builtin(src: Seq<u8>, stmts: Seq<StmtV>, lo: int, hi: int) -> bool {
    exists|k: int| lo <= k <= hi && stmt_builtin(src, #[trigger] stmts[k]) is Some
}

/// The first position in `[lo, hi]` whose statement names a builtin.
pub open spec fn first_builtin(src: Seq<u8>, stmts: Seq<StmtV>, lo: int, hi: int) -> int
    decreases hi - lo,
{
    if stmt_builtin(src, stmts[lo]) is Some {
        lo
    } else if lo < hi {
        first_builtin(src, stmts, lo + 1, hi)
    } else {
        lo
    }
}

/// The spawn for a chain of one statement: stdin comes from the named file
/// or is inherited; stdout goes to the named file or is inherited.
pub open spec fn single_spawn_of(p: ProgramV) -> SpawnSpecV {
    SpawnSpecV {
        program: p.program,
        argv: p.argv,
        stdin: match p.stdin {
            StreamStrategy::PipeFromFile(sp) => StdinBind::FromFile(sp),
            _ => StdinBind::Inherit,
        },
        stdout: match p.stdout {
            StreamStrategy::PipeToFile(sp) => StdoutBind::ToFile(sp),
            _ => StdoutBind::Inherit,
        },
    }
}

/// The spawn for one pipeline member: only the first member follows its own
/// stdin strategy — every later member reads the previous member's captured
/// pipe, which takes precedence; a member that pipes onward writes to a
/// fresh pipe for its successor.
pub open spec fn pipe_spawn_of(p: ProgramV, first: bool) -> SpawnSpecV {
    SpawnSpecV {
        program: p.program,
        argv: p.argv,
        stdin: if !first {
            StdinBind::FromPrev
        } else {
            match p.stdin {
                StreamStrategy::PipeFromFile(sp) => StdinBind::FromFile(sp),
                _ => StdinBind::Inherit,
            }
        },
        stdout: match p.stdout {
            StreamStrategy::PipeToStdin => StdoutBind::ToNext,
            StreamStrategy::PipeToFile(sp) => StdoutBind::ToFile(sp),
            _ => StdoutBind::Inherit,
        },
    }
}

/// The plan for the chain `[lo, hi]`: a single statement runs as a builtin
/// invocation or one spawned process; a longer chain is rejected outright
/// if any member is a builtin, else every member is spawned with its stdio
/// wired to its neighbours.
pub open spec fn chain_plan_of(src: Seq<u8>, stmts: Seq<StmtV>, lo: int, hi: int) -> ChainPlanV {
    if lo == hi {
        match stmt_builtin(src, stmts[lo]) {
            Some(b) => ChainPlanV::Builtin {
                which: b,
                argv: stmts[lo].prog.argv,
                span: stmts[lo].span,
            },
            None => ChainPlanV::Pipeline { spawns: seq![single_spawn_of(stmts[lo].prog)] },
        }
    } else if chain_has_builtin(src, stmts, lo, hi) {
        ChainPlanV::Rejected { span: stmts[first_builtin(src, stmts, lo, hi)].span }
    } else {
        ChainPlanV::Pipeline {
            spawns: Seq::new((hi + 1 - lo) as nat, |k: int| pipe_spawn_of(stmts[lo + k].prog, k == 0)),
        }
    }
}

/// The plans of all chains from statement `i` on, in order.
pub open spec fn plan_from(src: Seq<u8>, stmts: Seq<StmtV>, i: int) -> Seq<ChainPlanV>
    decreases stmts.len() - i,
{
    if 0 <= i < stmts.len() {
        let j = chain_end(stmts, i);
        if i <= j < stmts.len() {
            seq![chain_plan_of(src, stmts, i, j)] + plan_from(src, stmts, j + 1)
        } else {
            Seq::empty()
        }
    } else {
        Seq::empty()
    }
}

/// A chain ends inside the module.
pub proof fn lemma_chain_end_bounds(stmts: Seq<StmtV>, i: int)
    requires
        0 <= i < stmts.len(),
    ensures
        i <= chain_end(stmts, i) < stmts.len(),
    decreases stmts.len() - i,
{
    if i + 1 < stmts.len() && stmts[i].prog.stdout == StreamStrategy::PipeToStdin {
        lemma_chain_end_bounds(stmts, i + 1);
    }
}

/// Every statement before the end of its chain pipes into its successor;
/// the chain's last statement pipes onward only when the module itself ends
/// with it.
pub proof fn lemma_chain_members(stmts: Seq<StmtV>, i: int)
    requires
        0 <= i < stmts.len(),
    ensures
        forall|k: int|
            i <= k < chain_end(stmts, i) ==> (#[trigger] stmts[k]).prog.stdout
                == StreamStrategy::PipeToStdin,
        stmts[chain_end(stmts, i)].prog.stdout == StreamStrategy::PipeToStdin ==> chain_end(
            stmts,
            i,
        ) == stmts.len() - 1,
    decreases stmts.len() - i,
{
    if i + 1 < stmts.len() && stmts[i].prog.stdout == StreamStrategy::PipeToStdin {
        lemma_chain_members(stmts, i + 1);
        lemma_chain_end_bounds(stmts, i + 1);
    }
}

/// Where a chain holds a builtin, `first_builtin` finds the first one.
pub proof fn lemma_first_builtin_props(src: Seq<u8>, stmts: Seq<StmtV>, lo: int, hi: int)
    requires
        0 <= lo <= hi < stmts.len(),
        chain_has_builtin(src, stmts, lo, hi),
    ensures
        lo <= first_builtin(src, stmts, lo, hi) <= hi,
        stmt_builtin(src, stmts[first_builtin(src, stmts, lo, hi)]) is Some,
        forall|t: int|
            lo <= t < first_builtin(src, stmts, lo, hi) ==> stmt_builtin(
                src,
                #[trigger] stmts[t],
            ) is None,
    decreases hi - lo,
{
    if stmt_builtin(src, stmts[lo]) is Some {
    } else {
        let k = choose|k: int| lo <= k <= hi && stmt_builtin(src, #[trigger] stmts[k]) is Some;
        assert(lo + 1 <= k <= hi && stmt_builtin(src, stmts[k]) is Some);
        lemma_first_builtin_props(src, stmts, lo + 1, hi);
    }
}

/// The exact position scanned out by a forward search is the first builtin.
pub proof fn lemma_first_builtin_at(src: Seq<u8>, stmts: Seq<StmtV>, lo: int, hi: int, fb: int)
    requires
        0 <= lo <= fb <= hi < stmts.len(),
        stmt_builtin(src, stmts[fb]) is Some,
        forall|t: int| lo <= t < fb ==> stmt_builtin(src, #[trigger] stmts[t]) is None,
    ensures
        chain_has_builtin(src, stmts, lo, hi),
        first_builtin(src, stmts, lo, hi) == fb,
    decreases fb - lo,
{
    assert(chain_has_builtin(src, stmts, lo, hi)) by {
        assert(lo <= fb <= hi && stmt_builtin(src, stmts[fb]) is Some);
    }
    if stmt_builtin(src, stmts[lo]) is Some {
        assert(lo == fb);
    } else {
        lemma_first_builtin_at(src, stmts, lo + 1, hi, fb);
    }
}

/// The execution engine's own state: the current working directory and the
/// configured base directory that a bare `cd` returns to. The engine owns
/// no process handles; it only plans.
pub struct Engine {
    pub cur_dir: Vec<u8>,
    pub base_dir: Vec<u8>,
}

impl Engine {
    /// A fresh engine whose current directory is the configured base.
    pub fn new(base_dir: Vec<u8>) -> (e: Engine)
        ensures
            e.cur_dir@ == base_dir@,
            e.base_dir@ == base_dir@,
    {
        let cur = copy_bytes(&base_dir);
        Engine { cur_dir: cur, base_dir }
    }

    /// Partitions the module into maximal ordered pipeline chains and plans
    /// each one. Planning touches no engine state and spawns nothing: a
    /// rejected chain in the plan therefore has zero observable effects.
    pub fn execute(&self, source: &[u8], module: &Module) -> (plan: Vec<ChainPlan>)
        requires
            forall|k: int|
                0 <= k < module@.len() ==> (#[trigger] module@[k]).prog.program.wf(
                    source@.len() as nat,
                ),
        ensures
            plan@.map_values(|c: ChainPlan| c@) == plan_from(source@, module@, 0),
    {
        let ghost src = source@;
        let ghost stmts = module@;
        let n = module.stmts.len();
        proof {
            assert(stmts.len() == n);
        }
        let mut plan: Vec<ChainPlan> = Vec::new();
        let mut i: usize = 0;
        while i < n
            invariant
                i <= n,
                n == stmts.len(),
                stmts == module@,
                src == source@,
                forall|k: int|
                    0 <= k < stmts.len() ==> (#[trigger] stmts[k]).prog.program.wf(
                        src.len() as nat,
                    ),
                plan@.map_values(|c: ChainPlan| c@) + plan_from(src, stmts, i as int)
                    == plan_from(src, stmts, 0),
            decreases n - i,
        {
            let ghost plan_pre = plan@;
            // find the end of the chain that begins at i
            let mut j = i;
            loop
                invariant
                    i <= j < n,
                    n == stmts.len(),
                    stmts == module@,
                    chain_end(stmts, i as int) == chain_end(stmts, j as int),
                ensures
                    i <= j < n,
                    j as int == chain_end(stmts, i as int),
                decreases n - j,
            {
                if j + 1 < n {
                    if module.stmts[j].value.stdout == StreamStrategy::PipeToStdin {
                        proof {
                            assert(stmts[j as int].prog.stdout == StreamStrategy::PipeToStdin);
                        }
                        j += 1;
                    } else {
                        break;
                    }
                } else {
                    break;
                }
            }
            if j == i {
                let psp = module.stmts[i].value.program;
                proof {
                    assert(stmts[i as int].prog.program == psp);
                }
                match lookup_builtin(source, psp) {
                    Some(b) => {
                        let argv = copy_spans(&module.stmts[i].value.argv);
                        let span = module.stmts[i].span;
                        plan.push(ChainPlan::Builtin { which: b, argv, span });
                    },
                    None => {
                        let sp = single_spawn(&module.stmts[i].value);
                        let mut spawns: Vec<SpawnSpec> = Vec::new();
                        spawns.push(sp);
                        plan.push(ChainPlan::Pipeline { spawns });
                        proof {
                            assert(spawns@.map_values(|s: SpawnSpec| s@) =~= seq![
                                single_spawn_of(stmts[i as int].prog),
                            ]);
                        }
                    },
                }
            } else {
                // look for a builtin member, in order
                let mut found: Option<usize> = None;
                let mut k = i;
                loop
                    invariant_except_break
                        found is None,
                        forall|t: int|
                            i <= t < k ==> stmt_builtin(src, #[trigger] stmts[t]) is None,
                    invariant
                        i <= k <= j < n,
                        n == stmts.len(),
                        stmts == module@,
                        src == source@,
                        forall|kk: int|
                            0 <= kk < stmts.len() ==> (#[trigger] stmts[kk]).prog.program.wf(
                                src.len() as nat,
                            ),
                    ensures
                        i <= k <= j,
                        match found {
                            Some(fb) => {
                                &&& i <= fb as int <= j
                                &&& stmt_builtin(src, stmts[fb as int]) is Some
                                &&& forall|t: int|
                                    i <= t < fb as int ==> stmt_builtin(
                                        src,
                                        #[trigger] stmts[t],
                                    ) is None
                            },
                            None => forall|t: int|
                                i <= t <= j ==> stmt_builtin(src, #[trigger] stmts[t]) is None,
                        },
                    decreases j - k,
                {
                    let psp = module.stmts[k].value.program;
                    proof {
                        assert(stmts[k as int].prog.program == psp);
                    }
                    if lookup_builtin(source, psp).is_some() {
                        found = Some(k);
                        break;
                    }
                    if k == j {
                        break;
                    }
                    k += 1;
                }
                match found {
                    Some(fb) => {
                        proof {
                            lemma_first_builtin_at(src, stmts, i as int, j as int, fb as int);
                        }
                        let span = module.stmts[fb].span;
                        plan.push(ChainPlan::Rejected { span });
                    },
                    None => {
                        let ghost target = Seq::new(
                            (j + 1 - i) as nat,
                            |t: int| pipe_spawn_of(stmts[i + t].prog, t == 0),
                        );
                        let mut spawns: Vec<SpawnSpec> = Vec::new();
                        let mut k = i;
                        loop
                            invariant
                                i <= k <= j + 1,
                                j < n,
                                n == stmts.len(),
                                stmts == module@,
                                target == Seq::new(
                                    (j + 1 - i) as nat,
                                    |t: int| pipe_spawn_of(stmts[i + t].prog, t == 0),
                                ),
                                spawns@.map_values(|s: SpawnSpec| s@) =~= target.subrange(
                                    0,
                                    k - i,
                                ),
                            ensures
                                spawns@.map_values(|s: SpawnSpec| s@) =~= target,
                            decreases j + 1 - k,
                        {
                            if k > j {
                                proof {
                                    assert(target.subrange(0, (j + 1 - i) as int) =~= target);
                                }
                                break;
                            }
                            let ghost kq = k as int;
                            let ghost prev = spawns@;
                            let sp = pipe_spawn(&module.stmts[k].value, k == i);
                            spawns.push(sp);
                            k += 1;
                            proof {
                                let f = |s: SpawnSpec| s@;
                                assert(stmts[kq] == crate::ast::stmt_view(module.stmts@[kq]));
                                assert(sp@ == pipe_spawn_of(stmts[kq].prog, kq == i as int));
                                assert(target[kq - i] == pipe_spawn_of(
                                    stmts[i + (kq - i)].prog,
                                    kq - i == 0,
                                ));
                                assert(spawns@.map_values(f) =~= prev.map_values(f).push(sp@));
                                assert(spawns@.map_values(f) =~= target.subrange(0, k - i));
                            }
                        }
                        plan.push(ChainPlan::Pipeline { spawns });
                        proof {
                            assert(!chain_has_builtin(src, stmts, i as int, j as int));
                        }
                    },
                }
            }
            proof {
                let ip = i as int;
                let jp = j as int;
                assert(plan@.last()@ == chain_plan_of(src, stmts, ip, jp));
                assert(plan@.map_values(|c: ChainPlan| c@) =~= plan_pre.map_values(
                    |c: ChainPlan| c@,
                ).push(chain_plan_of(src, stmts, ip, jp)));
                assert(plan_from(src, stmts, ip) == seq![chain_plan_of(src, stmts, ip, jp)]
                    + plan_from(src, stmts, jp + 1));
                assert(plan@.map_values(|c: ChainPlan| c@) + plan_from(src, stmts, jp + 1)
                    =~= plan_from(src, stmts, 0));
            }
            i = j + 1;
        }
        proof {
            assert(plan_from(src, stmts, n as int) =~= Seq::<ChainPlanV>::empty());
            assert(plan@.map_values(|c: ChainPlan| c@) + Seq::<ChainPlanV>::empty()
                =~= plan@.map_values(|c: ChainPlan| c@));
        }
        plan
    }

    /// The directory a `cd` statement asks for: the configured base when no
    /// argument is given, else the first argument's own text. The caller
    /// attempts the change and records it with `set_cur_dir` only on
    /// success, so a failed change leaves the directory untouched.
    pub fn cd_target(&self, source: &[u8], argv: &Vec<Span>) -> (r: Vec<u8>)
        requires
            argv@.len() > 0 ==> argv@[0].wf(source@.len() as nat),
        ensures
            argv@.len() == 0 ==> r@ == self.base_dir@,
            argv@.len() > 0 ==> r@ == span_slice(source@, argv@[0]),
    {
        if argv.len() == 0 {
            copy_bytes(&self.base_dir)
        } else {
            slice_bytes(source, argv[0])
        }
    }

    /// Records a directory change the caller has performed; the configured
    /// base directory is kept.
    pub fn set_cur_dir(&mut self, dir: Vec<u8>)
        ensures
            final(self).cur_dir == dir,
            final(self).base_dir == old(self).base_dir,
    {
        self.cur_dir = dir;
    }
}

/// The fixed table of builtin commands: each name beside its variant.
pub fn builtin_registry() -> (r: Vec<(Vec<u8>, Builtin)>)
    ensures
        r@.len() == 4,
        forall|k: int| 0 <= k < 4 ==> (#[trigger] r@[k]).0@ == builtin_name(r@[k].1),
        r@[0].1 == Builtin::Cd,
        r@[1].1 == Builtin::Ls,
        r@[2].1 == Builtin::Clear,
        r@[3].1 == Builtin::Exit,
{
    let mut r: Vec<(Vec<u8>, Builtin)> = Vec::new();
    r.push((builtin_name_vec(Builtin::Cd), Builtin::Cd));
    r.push((builtin_name_vec(Builtin::Ls), Builtin::Ls));
    r.push((builtin_name_vec(Builtin::Clear), Builtin::Clear));
    r.push((builtin_name_vec(Builtin::Exit), Builtin::Exit));
    r
}

/// The name a builtin answers to, as bytes.
pub fn builtin_name_vec(b: Builtin) -> (v: Vec<u8>)
    ensures
        v@ == builtin_name(b),
{
    let mut v: Vec<u8> = Vec::new();
    match b {
        Builtin::Cd => {
            v.push(99);
            v.push(100);
            proof {
                assert(v@ =~= builtin_name(Builtin::Cd));
            }
        },
        Builtin::Ls => {
            v.push(108);
            v.push(115);
            proof {
                assert(v@ =~= builtin_name(Builtin::Ls));
            }
        },
        Builtin::Clear => {
            v.push(99);
            v.push(108);
            v.push(101);
            v.push(97);
            v.push(114);
            proof {
                assert(v@ =~= builtin_name(Builtin::Clear));
            }
        },
        Builtin::Exit => {
            v.push(101);
            v.push(120);
            v.push(105);
            v.push(116);
            proof {
                assert(v@ =~= builtin_name(Builtin::Exit));
            }
        },
    }
    v
}

/// Decides whether the bytes at `sp` in `source` name a builtin.
pub fn lookup_builtin(source: &[u8], sp: Span) -> (r: Option<Builtin>)
    requires
        sp.wf(source@.len() as nat),
    ensures
        r == builtin_of(span_slice(source@, sp)),
{
    let cd = builtin_name_vec(Builtin::Cd);
    if bytes_eq_span(source, sp, &cd) {
        return Some(Builtin::Cd);
    }
    let ls = builtin_name_vec(Builtin::Ls);
    if bytes_eq_span(source, sp, &ls) {
        return Some(Builtin::Ls);
    }
    let clear = builtin_name_vec(Builtin::Clear);
    if bytes_eq_span(source, sp, &clear) {
        return Some(Builtin::Clear);
    }
    let exit = builtin_name_vec(Builtin::Exit);
    if bytes_eq_span(source, sp, &exit) {
        return Some(Builtin::Exit);
    }
    None
}

/// Whether the bytes at `sp` in `source` equal `name`.
fn bytes_eq_span(source: &[u8], sp: Span, name: &Vec<u8>) -> (r: bool)
    requires
        sp.wf(source@.len() as nat),
    ensures
        r == (span_slice(source@, sp) == name@),
{
    let ghost sl = span_slice(source@, sp);
    let n = sp.end - sp.start;
    if n != name.len() {
        proof {
            assert(sl.len() == n);
        }
        return false;
    }
    let mut k: usize = 0;
    while k < n
        invariant
            k <= n,
            n == name@.len(),
            n == sp.end - sp.start,
            sp.wf(source@.len() as nat),
            sl == span_slice(source@, sp),
            forall|t: int| 0 <= t < k ==> source@[sp.start + t] == name@[t],
        decreases n - k,
    {
        if source[sp.start + k] != name[k] {
            proof {
                assert(sl[k as int] == source@[sp.start + k]);
            }
            return false;
        }
        k += 1;
    }
    proof {
        assert(sl =~= name@);
    }
    true
}

/// A copy of a byte buffer.
fn copy_bytes(v: &Vec<u8>) -> (r: Vec<u8>)
    ensures
        r@ == v@,
{
    let mut r: Vec<u8> = Vec::new();
    let n = v.len();
    let mut k: usize = 0;
    while k < n
        invariant
            k <= n,
            n == v@.len(),
            r@ =~= v@.subrange(0, k as int),
        decreases n - k,
    {
        r.push(v[k]);
        k += 1;
        proof {
            assert(r@ =~= v@.subrange(0, k as int));
        }
    }
    proof {
        assert(v@.subrange(0, n as int) =~= v@);
    }
    r
}

/// A copy of a span list.
fn copy_spans(v: &Vec<Span>) -> (r: Vec<Span>)
    ensures
        r@ == v@,
{
    let mut r: Vec<Span> = Vec::new();
    let n = v.len();
    let mut k: usize = 0;
    while k < n
        invariant
            k <= n,
            n == v@.len(),
            r@ =~= v@.subrange(0, k as int),
        decreases n - k,
    {
        r.push(v[k]);
        k += 1;
        proof {
            assert(r@ =~= v@.subrange(0, k as int));
        }
    }
    proof {
        assert(v@.subrange(0, n as int) =~= v@);
    }
    r
}

/// The bytes a span selects, copied out of the source buffer.
pub fn slice_bytes(source: &[u8], sp: Span) -> (r: Vec<u8>)
    requires
        sp.wf(source@.len() as nat),
    ensures
        r@ == span_slice(source@, sp),
{
    let mut r: Vec<u8> = Vec::new();
    let mut k = sp.start;
    while k < sp.end
        invariant
            sp.start <= k <= sp.end,
            sp.wf(source@.len() as nat),
            r@ =~= source@.subrange(sp.start as int, k as int),
        decreases sp.end - k,
    {
        r.push(source[k]);
        k += 1;
        proof {
            assert(r@ =~= source@.subrange(sp.start as int, k as int));
        }
    }
    r
}

/// The spawn for a chain of one statement.
fn single_spawn(p: &Program) -> (s: SpawnSpec)
    ensures
        s@ == single_spawn_of(p@),
{
    let stdin = match p.stdin {
        StreamStrategy::PipeFromFile(sp) => StdinBind::FromFile(sp),
        _ => StdinBind::Inherit,
    };
    let stdout = match p.stdout {
        StreamStrategy::PipeToFile(sp) => StdoutBind::ToFile(sp),
        _ => StdoutBind::Inherit,
    };
    SpawnSpec { program: p.program, argv: copy_spans(&p.argv), stdin, stdout }
}

/// The spawn for one pipeline member.
fn pipe_spawn(p: &Program, first: bool) -> (s: SpawnSpec)
    ensures
        s@ == pipe_spawn_of(p@, first),
{
    let stdin = if !first {
        StdinBind::FromPrev
    } else {
        match p.stdin {
            StreamStrategy::PipeFromFile(sp) => StdinBind::FromFile(sp),
            _ => StdinBind::Inherit,
        }
    };
    let stdout = match p.stdout {
        StreamStrategy::PipeToStdin => StdoutBind::ToNext,
        StreamStrategy::PipeToFile(sp) => StdoutBind::ToFile(sp),
        _ => StdoutBind::Inherit,
    };
    SpawnSpec { program: p.program, argv: copy_spans(&p.argv), stdin, stdout }
}

/// With a single statement in the module there is exactly one chain,
/// holding that statement alone: one builtin invocation or one single
/// process, with no pipe wiring involved.
pub proof fn lemma_single_statement_plan(src: Seq<u8>, stmts: Seq<StmtV>)
    requires
        stmts.len() == 1,
    ensures
        plan_from(src, stmts, 0).len() == 1,
        plan_from(src, stmts, 0)[0] == chain_plan_of(src, stmts, 0, 0),
        match stmt_builtin(src, stmts[0]) {
            Some(b) => plan_from(src, stmts, 0)[0] == (ChainPlanV::Builtin {
                which: b,
                argv: stmts[0].prog.argv,
                span: stmts[0].span,
            }),
            None => plan_from(src, stmts, 0)[0] == (ChainPlanV::Pipeline {
                spawns: seq![single_spawn_of(stmts[0].prog)],
            }),
        },
{
    assert(chain_end(stmts, 0) == 0);
    assert(plan_from(src, stmts, 1) =~= Seq::<ChainPlanV>::empty());
}

/// An input line without any operator token executes as exactly one
/// process or one builtin invocation: its plan is a single chain holding
/// the one statement alone, and no pipe or chain wiring is involved.
pub proof fn lemma_no_operator_single_execution(src: Seq<u8>, toks: Seq<Token>)
    requires
        toks.len() > 0,
        toks[0].typ == TokenType::Path || toks[0].typ == TokenType::Identifier,
        forall|k: int|
            0 <= k < toks.len() ==> !crate::input_parser::is_terminator(
                (#[trigger] toks[k]).typ,
            ),
    ensures
        parse_from(toks, 0) matches ParseOut::Parsed { stmts } && {
            let plan = plan_from(src, stmts, 0);
            &&& plan.len() == 1
            &&& match stmt_builtin(src, stmts[0]) {
                Some(b) => plan[0] matches ChainPlanV::Builtin { which, .. } && which == b,
                None => plan[0] matches ChainPlanV::Pipeline { spawns } && spawns.len() == 1,
            }
        },
{
    crate::input_parser::lemma_no_operator_single_statement(toks);
    if let ParseOut::Parsed { stmts } = parse_from(toks, 0) {
        lemma_single_statement_plan(src, stmts);
    }
}

/// In a planned pipeline of two or more members, the members line up with
/// the chain's statements in order; the first follows its own stdin
/// strategy, every later member reads the previous member's pipe, and
/// every member before the last writes into a fresh pipe for its
/// successor.
pub proof fn lemma_pipeline_wiring(src: Seq<u8>, stmts: Seq<StmtV>, i: int)
    requires
        0 <= i < stmts.len(),
        chain_end(stmts, i) > i,
        !chain_has_builtin(src, stmts, i, chain_end(stmts, i)),
    ensures
        ({
            let j = chain_end(stmts, i);
            let plan = chain_plan_of(src, stmts, i, j);
            &&& plan matches ChainPlanV::Pipeline { spawns } && {
                &&& spawns.len() == j + 1 - i
                &&& forall|k: int|
                    0 <= k < spawns.len() ==> #[trigger] spawns[k] == pipe_spawn_of(
                        stmts[i + k].prog,
                        k == 0,
                    )
                &&& forall|k: int| 1 <= k < spawns.len() ==> (#[trigger] spawns[k]).stdin
                    == StdinBind::FromPrev
                &&& forall|k: int|
                    0 <= k < spawns.len() - 1 ==> (#[trigger] spawns[k]).stdout
                        == StdoutBind::ToNext
            }
        }),
{
    let j = chain_end(stmts, i);
    lemma_chain_end_bounds(stmts, i);
    lemma_chain_members(stmts, i);
    let plan = chain_plan_of(src, stmts, i, j);
    if let ChainPlanV::Pipeline { spawns } = plan {
        assert forall|k: int| 0 <= k < spawns.len() - 1 implies (#[trigger] spawns[k]).stdout
            == StdoutBind::ToNext by {
            assert(stmts[i + k].prog.stdout == StreamStrategy::PipeToStdin);
        }
    }
}

/// A chain of two or more statements holding a builtin becomes a single
/// rejection carrying the first offending statement's span: the plan holds
/// no spawn and no builtin invocation for any of its members.
pub proof fn lemma_builtin_pipeline_rejected(src: Seq<u8>, stmts: Seq<StmtV>, i: int)
    requires
        0 <= i < stmts.len(),
        chain_end(stmts, i) > i,
        chain_has_builtin(src, stmts, i, chain_end(stmts, i)),
    ensures
        ({
            let j = chain_end(stmts, i);
            let fb = first_builtin(src, stmts, i, j);
            &&& chain_plan_of(src, stmts, i, j) == (ChainPlanV::Rejected { span: stmts[fb].span })
            &&& i <= fb <= j
            &&& stmt_builtin(src, stmts[fb]) is Some
        }),
{
    let j = chain_end(stmts, i);
    lemma_chain_end_bounds(stmts, i);
    lemma_first_builtin_props(src, stmts, i, j);
}

} // verus!
