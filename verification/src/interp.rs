//! The interpreter: executes each run configuration of a program
//! against its transition rules, building a step-by-step textual trace.

use vstd::prelude::*;
use vstd::string::*;

use crate::bytes::push_bytes;
use crate::bytes::push_lit;
use crate::lexer::copy_range;
use crate::parser::instrs_view;
use crate::parser::runs_view;
use crate::parser::seqs_view;
use crate::parser::Dir;
use crate::parser::Instr;
use crate::parser::InstrV;
use crate::parser::Program;
use crate::parser::RunCmd;
use crate::parser::RunV;
use crate::parser::init_lexer;
use crate::parser::spec_parse_instr;
use crate::parser::spec_expect;
use crate::parser::ErrV;
use crate::lexer::is_symbol_byte;
use crate::lexer::lemma_lex_symbol;
use crate::lexer::lemma_lex_literal;
use crate::lexer::LexerV;
use crate::lexer::TokenKind;

verus! {

/// A fatal runtime error of the interpreter.
#[derive(Clone, Debug, PartialEq, Eq)]
pub enum RunErr {
    /// No rule is defined for this state and read symbol.
    Undef { state: Vec<u8>, read: Vec<u8> },
    /// The head moved left of the first tape cell.
    Underflow,
}

/// Model of a runtime error.
pub ghost enum RunErrV {
    Undef { state: Seq<u8>, read: Seq<u8> },
    Underflow,
}

impl View for RunErr {
    type V = RunErrV;

    open spec fn view(&self) -> RunErrV {
        match self {
            RunErr::Undef { state, read } => RunErrV::Undef { state: state@, read: read@ },
            RunErr::Underflow => RunErrV::Underflow,
        }
    }
}

/// Model of the machine during one run: the tape, the head index, the
/// current state, and the fixed filler symbol new cells are born with
/// (the last symbol of the run's original tape).
pub ghost struct MachV {
    pub tape: Seq<Seq<u8>>,
    pub head: int,
    pub state: Seq<u8>,
    pub filler: Seq<u8>,
}

/// The machine a run directive starts from: its tape, head at cell
/// zero, its start state, and the tape's last symbol as filler.
pub open spec fn init_mach(r: RunV) -> MachV {
    MachV { tape: r.tape, head: 0, state: r.state, filler: r.tape[r.tape.len() - 1] }
}

/// First rule at or after `i` matching the state and read symbol, in
/// declaration order.
pub open spec fn find_from(instrs: Seq<InstrV>, st: Seq<u8>, rd: Seq<u8>, i: int) -> Option<int>
    decreases instrs.len() - i,
{
    if i < 0 || i >= instrs.len() {
        None
    } else if instrs[i].state == st && instrs[i].read == rd {
        Some(i)
    } else {
        find_from(instrs, st, rd, i + 1)
    }
}

/// The outcome of one machine step.
pub ghost enum StepV {
    /// The new state is a halting state: the run ends.
    Halt { m: MachV, ins: InstrV },
    /// The run continues, the tape grown by one filler cell if the
    /// head moved past its end.
    Go { m: MachV, ins: InstrV },
    /// No rule matches the current state and read symbol.
    Undef { state: Seq<u8>, read: Seq<u8> },
    /// The head would move left of cell zero.
    Underflow { ins: InstrV },
}

/// One step of the machine: look the rule up (first match wins), write
/// its symbol at the head, take its next state, move the head; the run
/// halts if the new state is a halting state, and otherwise the tape
/// grows by one filler cell when the head now points past its end.
pub open spec fn spec_step(instrs: Seq<InstrV>, halts: Seq<Seq<u8>>, m: MachV) -> StepV {
    match find_from(instrs, m.state, m.tape[m.head], 0) {
        None => StepV::Undef { state: m.state, read: m.tape[m.head] },
        Some(i) => {
            let ins = instrs[i];
            let tape1 = m.tape.update(m.head, ins.write);
            if ins.dir == Dir::Left && m.head == 0 {
                StepV::Underflow { ins }
            } else {
                let head1 = if ins.dir == Dir::Left {
                    m.head - 1
                } else {
                    m.head + 1
                };
                let m1 = MachV { tape: tape1, head: head1, state: ins.next_state, filler: m.filler };
                if halts.contains(ins.next_state) {
                    StepV::Halt { m: m1, ins }
                } else if head1 >= tape1.len() {
                    StepV::Go { m: MachV { tape: tape1.push(m.filler), ..m1 }, ins }
                } else {
                    StepV::Go { m: m1, ins }
                }
            }
        },
    }
}

/// The arrow that prints for a direction.
pub open spec fn dir_bytes(d: Dir) -> Seq<u8> {
    match d {
        Dir::Left => "<-".spec_bytes(),
        Dir::Right => "->".spec_bytes(),
    }
}

/// How an instruction prints: its five fields separated by spaces.
pub open spec fn render_instr(i: InstrV) -> Seq<u8> {
    i.state + " ".spec_bytes() + i.read + " ".spec_bytes() + i.write + " ".spec_bytes() + dir_bytes(
        i.dir,
    ) + " ".spec_bytes() + i.next_state
}

/// The first `i` tape cells, each followed by a space.
pub open spec fn cells_upto(tape: Seq<Seq<u8>>, i: int) -> Seq<u8>
    decreases i,
{
    if i <= 0 {
        Seq::empty()
    } else {
        cells_upto(tape, i - 1) + tape[i - 1] + " ".spec_bytes()
    }
}

/// Two spaces per cell left of the head, aligning the caret marker.
pub open spec fn pad(n: int) -> Seq<u8>
    decreases n,
{
    if n <= 0 {
        Seq::empty()
    } else {
        pad(n - 1) + "  ".spec_bytes()
    }
}

/// How the tape prints: the cells between brackets, then a second line
/// carrying a caret under the head's column.
pub open spec fn tape_line(tape: Seq<Seq<u8>>, head: int) -> Seq<u8> {
    "[ ".spec_bytes() + cells_upto(tape, tape.len() as int) + "]\n  ".spec_bytes() + pad(head)
        + "^\n".spec_bytes()
}

/// How a run directive prints, heading its trace.
pub open spec fn run_header(r: RunV) -> Seq<u8> {
    "#run [ ".spec_bytes() + cells_upto(r.tape, r.tape.len() as int) + "] ".spec_bytes() + r.state
        + "\n".spec_bytes()
}

/// What one applied step contributes to the trace: the instruction,
/// then the tape as it was before the step.
pub open spec fn step_trace(m: MachV, ins: InstrV) -> Seq<u8> {
    render_instr(ins) + "\n".spec_bytes() + tape_line(m.tape, m.head)
}

/// What a halting run ends with: the final tape and the halt message.
pub open spec fn halt_tail(m: MachV) -> Seq<u8> {
    tape_line(m.tape, m.head) + " -- HALT -- with ".spec_bytes() + m.state + "\n\n".spec_bytes()
}

/// The outcome of running the machine for at most `fuel` steps.
pub ghost enum RunOutV {
    /// The run reached a halting state; `trace` is everything printed
    /// after the run's header line.
    Halted { trace: Seq<u8> },
    /// The run failed; `trace` is what was printed before the failure.
    Failed { trace: Seq<u8>, err: RunErrV },
    /// The fuel ran out with the machine still going.
    Running { m: MachV, trace: Seq<u8> },
}

/// Runs the machine for at most `fuel` steps, collecting the trace.
pub open spec fn spec_run(instrs: Seq<InstrV>, halts: Seq<Seq<u8>>, m: MachV, fuel: nat) -> RunOutV
    decreases fuel,
{
    if fuel == 0 {
        RunOutV::Running { m, trace: Seq::empty() }
    } else {
        match spec_step(instrs, halts, m) {
            StepV::Undef { state, read } => RunOutV::Failed {
                trace: Seq::empty(),
                err: RunErrV::Undef { state, read },
            },
            StepV::Underflow { ins } => RunOutV::Failed {
                trace: step_trace(m, ins),
                err: RunErrV::Underflow,
            },
            StepV::Halt { m: m1, ins } => RunOutV::Halted {
                trace: step_trace(m, ins) + halt_tail(m1),
            },
            StepV::Go { m: m2, ins } => match spec_run(instrs, halts, m2, (fuel - 1) as nat) {
                RunOutV::Halted { trace } => RunOutV::Halted {
                    trace: step_trace(m, ins) + trace,
                },
                RunOutV::Failed { trace, err } => RunOutV::Failed {
                    trace: step_trace(m, ins) + trace,
                    err,
                },
                RunOutV::Running { m: m3, trace } => RunOutV::Running {
                    m: m3,
                    trace: step_trace(m, ins) + trace,
                },
            },
        }
    }
}

/// Running one step longer first replays the first `fuel` steps, then
/// takes one more step from wherever the machine stood.
pub proof fn lemma_run_extend(
    instrs: Seq<InstrV>,
    halts: Seq<Seq<u8>>,
    m0: MachV,
    n: nat,
    m: MachV,
    trace: Seq<u8>,
)
    requires
        spec_run(instrs, halts, m0, n) == (RunOutV::Running { m, trace }),
    ensures
        spec_run(instrs, halts, m0, (n + 1) as nat) == (match spec_step(instrs, halts, m) {
            StepV::Undef { state, read } => RunOutV::Failed {
                trace,
                err: RunErrV::Undef { state, read },
            },
            StepV::Underflow { ins } => RunOutV::Failed {
                trace: trace + step_trace(m, ins),
                err: RunErrV::Underflow,
            },
            StepV::Halt { m: m1, ins } => RunOutV::Halted {
                trace: trace + step_trace(m, ins) + halt_tail(m1),
            },
            StepV::Go { m: m2, ins } => RunOutV::Running {
                m: m2,
                trace: trace + step_trace(m, ins),
            },
        }),
    decreases n,
{
    if n == 0 {
        assert(m == m0 && trace == Seq::<u8>::empty());
        match spec_step(instrs, halts, m0) {
            StepV::Undef { state, read } => {},
            StepV::Underflow { ins } => {
                assert(trace + step_trace(m0, ins) =~= step_trace(m0, ins));
            },
            StepV::Halt { m: m1, ins } => {
                assert(trace + step_trace(m0, ins) + halt_tail(m1) =~= step_trace(m0, ins)
                    + halt_tail(m1));
            },
            StepV::Go { m: m2, ins } => {
                assert(trace + step_trace(m0, ins) =~= step_trace(m0, ins) + Seq::<u8>::empty());
            },
        }
    } else {
        match spec_step(instrs, halts, m0) {
            StepV::Go { m: m2, ins } => {
                let line = step_trace(m0, ins);
                match spec_run(instrs, halts, m2, (n - 1) as nat) {
                    RunOutV::Running { m: mi, trace: ti } => {
                        lemma_run_extend(instrs, halts, m2, (n - 1) as nat, mi, ti);
                        assert(mi == m && line + ti == trace);
                        match spec_step(instrs, halts, m) {
                            StepV::Undef { state, read } => {},
                            StepV::Underflow { ins: ins2 } => {
                                assert(line + (ti + step_trace(m, ins2)) =~= trace + step_trace(
                                    m,
                                    ins2,
                                ));
                            },
                            StepV::Halt { m: m1, ins: ins2 } => {
                                assert(line + (ti + step_trace(m, ins2) + halt_tail(m1)) =~= trace
                                    + step_trace(m, ins2) + halt_tail(m1));
                            },
                            StepV::Go { m: m3, ins: ins2 } => {
                                assert(line + (ti + step_trace(m, ins2)) =~= trace + step_trace(
                                    m,
                                    ins2,
                                ));
                            },
                        }
                    },
                    _ => {
                        assert(false);
                    },
                }
            },
            _ => {
                assert(false);
            },
        }
    }
}

/// After a step that does not halt the run, the tape's length is the
/// maximum of its previous length and one past the new head position,
/// exactly the old head cell has been overwritten (with the rule's
/// write symbol), and any new cell holds the filler.  On a halting
/// step the tape keeps its length.
pub proof fn lemma_step_tape_growth(
    instrs: Seq<InstrV>,
    halts: Seq<Seq<u8>>,
    m: MachV,
    m2: MachV,
    ins: InstrV,
)
    requires
        0 <= m.head < m.tape.len(),
        spec_step(instrs, halts, m) == (StepV::Go { m: m2, ins }) || spec_step(instrs, halts, m)
            == (StepV::Halt { m: m2, ins }),
    ensures
        m2.tape[m.head] == ins.write,
        forall|j: int| 0 <= j < m.tape.len() && j != m.head ==> m2.tape[j] == m.tape[j],
        spec_step(instrs, halts, m) == (StepV::Go { m: m2, ins }) ==> m2.tape.len() == (if m2.head
            + 1 > m.tape.len() {
            m2.head + 1
        } else {
            m.tape.len() as int
        }),
        spec_step(instrs, halts, m) == (StepV::Halt { m: m2, ins }) ==> m2.tape.len()
            == m.tape.len(),
        m2.tape.len() > m.tape.len() ==> m2.tape[m.tape.len() as int] == m.filler,
{
}

/// Copies a byte vector.
pub fn clone_bytes(v: &Vec<u8>) -> (r: Vec<u8>)
    ensures
        r@ == v@,
{
    let r = copy_range(v, 0, v.len());
    proof {
        assert(v@.subrange(0, v@.len() as int) =~= v@);
    }
    r
}

/// Copies a vector of symbols.
fn clone_syms(v: &Vec<Vec<u8>>) -> (r: Vec<Vec<u8>>)
    ensures
        seqs_view(r@) == seqs_view(v@),
{
    let mut r: Vec<Vec<u8>> = Vec::new();
    let mut i: usize = 0;
    while i < v.len()
        invariant
            i <= v@.len(),
            seqs_view(r@) =~= seqs_view(v@).subrange(0, i as int),
        decreases v@.len() - i,
    {
        let ghost old_r = r@;
        r.push(clone_bytes(&v[i]));
        proof {
            assert(seqs_view(v@)[i as int] == v@[i as int]@);
            assert(seqs_view(r@) =~= seqs_view(old_r).push(v@[i as int]@));
            assert(seqs_view(v@).subrange(0, i + 1) =~= seqs_view(v@).subrange(0, i as int).push(
                seqs_view(v@)[i as int],
            ));
        }
        i = i + 1;
        assert(seqs_view(r@) =~= seqs_view(v@).subrange(0, i as int));
    }
    proof {
        assert(seqs_view(v@).subrange(0, v@.len() as int) =~= seqs_view(v@));
    }
    r
}

/// True iff two byte vectors hold the same bytes.
pub fn bytes_eq(a: &Vec<u8>, b: &Vec<u8>) -> (r: bool)
    ensures
        r == (a@ == b@),
{
    if a.len() != b.len() {
        return false;
    }
    let mut i: usize = 0;
    while i < a.len()
        invariant
            i <= a@.len(),
            a@.len() == b@.len(),
            forall|j: int| 0 <= j < i ==> a@[j] == b@[j],
        decreases a@.len() - i,
    {
        if a[i] != b[i] {
            return false;
        }
        i = i + 1;
    }
    proof {
        assert(a@ =~= b@);
    }
    true
}

/// Appends an instruction, printed as its five fields.
pub fn push_instr(out: &mut Vec<u8>, ins: &Instr)
    ensures
        final(out)@ == old(out)@ + render_instr(ins@),
{
    push_bytes(out, &ins.state);
    push_lit(out, " ");
    push_bytes(out, &ins.read);
    push_lit(out, " ");
    push_bytes(out, &ins.write);
    push_lit(out, " ");
    match ins.dir {
        Dir::Left => push_lit(out, "<-"),
        Dir::Right => push_lit(out, "->"),
    }
    push_lit(out, " ");
    push_bytes(out, &ins.next_state);
    proof {
        assert(out@ =~= old(out)@ + render_instr(ins@));
    }
}

/// Appends the printed tape: the cells between brackets, then the
/// caret line marking the head's column.
pub fn tape_print(out: &mut Vec<u8>, tape: &Vec<Vec<u8>>, head: usize)
    ensures
        final(out)@ == old(out)@ + tape_line(seqs_view(tape@), head as int),
{
    push_lit(out, "[ ");
    let mut i: usize = 0;
    while i < tape.len()
        invariant
            i <= tape@.len(),
            out@ == old(out)@ + "[ ".spec_bytes() + cells_upto(seqs_view(tape@), i as int),
        decreases tape@.len() - i,
    {
        push_bytes(out, &tape[i]);
        push_lit(out, " ");
        i = i + 1;
        assert(out@ =~= old(out)@ + "[ ".spec_bytes() + cells_upto(seqs_view(tape@), i as int));
    }
    push_lit(out, "]\n  ");
    let mut k: usize = 0;
    while k < head
        invariant
            k <= head,
            out@ == old(out)@ + "[ ".spec_bytes() + cells_upto(
                seqs_view(tape@),
                tape@.len() as int,
            ) + "]\n  ".spec_bytes() + pad(k as int),
        decreases head - k,
    {
        push_lit(out, "  ");
        k = k + 1;
        assert(out@ =~= old(out)@ + "[ ".spec_bytes() + cells_upto(
            seqs_view(tape@),
            tape@.len() as int,
        ) + "]\n  ".spec_bytes() + pad(k as int));
    }
    push_lit(out, "^\n");
    proof {
        assert(out@ =~= old(out)@ + tape_line(seqs_view(tape@), head as int));
    }
}

/// Appends the header line a run's trace starts with.
fn push_run_header(out: &mut Vec<u8>, run: &RunCmd)
    ensures
        final(out)@ == old(out)@ + run_header(run@),
{
    push_lit(out, "#run [ ");
    let mut i: usize = 0;
    while i < run.tape.len()
        invariant
            i <= run.tape@.len(),
            out@ == old(out)@ + "#run [ ".spec_bytes() + cells_upto(
                seqs_view(run.tape@),
                i as int,
            ),
        decreases run.tape@.len() - i,
    {
        push_bytes(out, &run.tape[i]);
        push_lit(out, " ");
        i = i + 1;
        assert(out@ =~= old(out)@ + "#run [ ".spec_bytes() + cells_upto(
            seqs_view(run.tape@),
            i as int,
        ));
    }
    push_lit(out, "] ");
    push_bytes(out, &run.state);
    push_lit(out, "\n");
    proof {
        assert(out@ =~= old(out)@ + run_header(run@));
    }
}

/// First rule matching the state and read symbol, in declaration
/// order: the first instruction in the program wins.
pub fn find_instr(instrs: &Vec<Instr>, state: &Vec<u8>, read: &Vec<u8>) -> (r: Option<usize>)
    ensures
        match r {
            Some(i) => i < instrs@.len() && find_from(instrs_view(instrs@), state@, read@, 0)
                == Some(i as int),
            None => find_from(instrs_view(instrs@), state@, read@, 0) is None,
        },
{
    let mut i: usize = 0;
    while i < instrs.len()
        invariant
            i <= instrs@.len(),
            find_from(instrs_view(instrs@), state@, read@, 0) == find_from(
                instrs_view(instrs@),
                state@,
                read@,
                i as int,
            ),
        decreases instrs@.len() - i,
    {
        if bytes_eq(&instrs[i].state, state) && bytes_eq(&instrs[i].read, read) {
            return Some(i);
        }
        i = i + 1;
    }
    None
}

/// True iff the halting set contains the state.
fn halts_contain(halts: &Vec<Vec<u8>>, s: &Vec<u8>) -> (r: bool)
    ensures
        r == seqs_view(halts@).contains(s@),
{
    let mut i: usize = 0;
    let mut found = false;
    while i < halts.len()
        invariant
            i <= halts@.len(),
            found == (exists|j: int| 0 <= j < i && seqs_view(halts@)[j] == s@),
        decreases halts@.len() - i,
    {
        if bytes_eq(&halts[i], s) {
            found = true;
            assert(seqs_view(halts@)[i as int] == s@);
        }
        i = i + 1;
    }
    found
}

/// An outcome still to come never changes once the run has ended:
/// with more fuel, a halted or failed run replays identically.
pub proof fn lemma_run_stable(
    instrs: Seq<InstrV>,
    halts: Seq<Seq<u8>>,
    m0: MachV,
    n: nat,
    k: nat,
)
    requires
        n <= k,
        !(spec_run(instrs, halts, m0, n) is Running),
    ensures
        spec_run(instrs, halts, m0, k) == spec_run(instrs, halts, m0, n),
    decreases n,
{
    if n == 0 {
        assert(false);
    } else {
        match spec_step(instrs, halts, m0) {
            StepV::Go { m: m2, ins } => {
                lemma_run_stable(instrs, halts, m2, (n - 1) as nat, (k - 1) as nat);
            },
            _ => {},
        }
    }
}

/// How a run or a whole execution ended.
#[derive(Clone, Debug, PartialEq, Eq)]
pub enum ExecEnd {
    /// The run (or every run) reached a halting state.
    Done,
    /// A run failed with this error.
    Failed(RunErr),
    /// The step budget ran out with the machine still going.
    OutOfFuel,
}

/// Model of an execution ending.
pub ghost enum ExecEndV {
    Done,
    Failed(RunErrV),
    OutOfFuel,
}

impl View for ExecEnd {
    type V = ExecEndV;

    open spec fn view(&self) -> ExecEndV {
        match self {
            ExecEnd::Done => ExecEndV::Done,
            ExecEnd::Failed(e) => ExecEndV::Failed(e@),
            ExecEnd::OutOfFuel => ExecEndV::OutOfFuel,
        }
    }
}

/// Executes one run configuration for at most `fuel` steps, appending
/// its full trace: the run's header line, then every step until the
/// machine halts, fails, or exhausts the budget.  The outcome and the
/// appended bytes are exactly those of `spec_run` at that budget.
#[verifier::rlimit(100)]
pub fn run_one(
    instrs: &Vec<Instr>,
    halt_syms: &Vec<Vec<u8>>,
    run: &RunCmd,
    fuel: u64,
    out: &mut Vec<u8>,
) -> (end: ExecEnd)
    requires
        run@.tape.len() > 0,
    ensures
        ({
            let iv = instrs_view(instrs@);
            let hv = seqs_view(halt_syms@);
            let m0 = init_mach(run@);
            match spec_run(iv, hv, m0, fuel as nat) {
                RunOutV::Halted { trace } => end == ExecEnd::Done && final(out)@ == old(out)@
                    + run_header(run@) + trace,
                RunOutV::Failed { trace, err } => (end matches ExecEnd::Failed(e) && e@ == err)
                    && final(out)@ == old(out)@ + run_header(run@) + trace,
                RunOutV::Running { m, trace } => end == ExecEnd::OutOfFuel && final(out)@ == old(
                    out,
                )@ + run_header(run@) + trace,
            }
        }),
{
    let ghost iv = instrs_view(instrs@);
    let ghost hv = seqs_view(halt_syms@);
    let ghost m0 = init_mach(run@);
    let ghost out0 = out@;

    push_run_header(out, run);
    let mut tape = clone_syms(&run.tape);
    let mut state = clone_bytes(&run.state);
    let mut head: usize = 0;
    let filler = clone_bytes(&run.tape[run.tape.len() - 1]);
    let mut k: u64 = 0;
    let ghost mut tr: Seq<u8> = Seq::empty();
    proof {
        assert(seqs_view(tape@) == run@.tape);
        assert(out@ =~= out0 + run_header(run@) + tr);
    }
    while k < fuel
        invariant
            k <= fuel,
            iv == instrs_view(instrs@),
            hv == seqs_view(halt_syms@),
            m0 == init_mach(run@),
            out0 == old(out)@,
            head < tape@.len(),
            spec_run(iv, hv, m0, k as nat) == (RunOutV::Running {
                m: MachV { tape: seqs_view(tape@), head: head as int, state: state@, filler: filler@ },
                trace: tr,
            }),
            out@ == out0 + run_header(run@) + tr,
        decreases fuel - k,
    {
        let _cap = tape.len();
        let ghost mcur = MachV {
            tape: seqs_view(tape@),
            head: head as int,
            state: state@,
            filler: filler@,
        };
        proof {
            lemma_run_extend(iv, hv, m0, k as nat, mcur, tr);
            assert(seqs_view(tape@)[head as int] == tape@[head as int]@);
        }
        match find_instr(instrs, &state, &tape[head]) {
            None => {
                let read = clone_bytes(&tape[head]);
                let e = RunErr::Undef { state, read };
                proof {
                    assert(spec_step(iv, hv, mcur) == StepV::Undef {
                        state: mcur.state,
                        read: mcur.tape[mcur.head],
                    });
                    assert(tr + Seq::<u8>::empty() =~= tr);
                    assert(spec_run(iv, hv, m0, (k + 1) as nat) == (RunOutV::Failed {
                        trace: tr,
                        err: e@,
                    }));
                    lemma_run_stable(iv, hv, m0, (k + 1) as nat, fuel as nat);
                }
                return ExecEnd::Failed(e);
            },
            Some(i) => {
                let ins = &instrs[i];
                proof {
                    assert(instrs_view(instrs@)[i as int] == instrs@[i as int]@);
                }
                push_instr(out, ins);
                push_lit(out, "\n");
                tape_print(out, &tape, head);
                let ghost tr2 = tr + step_trace(mcur, ins@);
                proof {
                    assert(out@ =~= out0 + run_header(run@) + tr2);
                }
                let w = clone_bytes(&ins.write);
                let ghost old_tape = tape@;
                tape[head] = w;
                proof {
                    assert(seqs_view(tape@) =~= seqs_view(old_tape).update(
                        head as int,
                        ins@.write,
                    ));
                }
                state = clone_bytes(&ins.next_state);
                if match ins.dir {
                    Dir::Left => true,
                    Dir::Right => false,
                } {
                    if head == 0 {
                        proof {
                            assert(spec_step(iv, hv, mcur) == StepV::Underflow { ins: ins@ });
                            assert(spec_run(iv, hv, m0, (k + 1) as nat) == (RunOutV::Failed {
                                trace: tr + step_trace(mcur, ins@),
                                err: RunErrV::Underflow,
                            }));
                            lemma_run_stable(iv, hv, m0, (k + 1) as nat, fuel as nat);
                        }
                        return ExecEnd::Failed(RunErr::Underflow);
                    }
                    head = head - 1;
                } else {
                    head = head + 1;
                }
                let ghost m1 = MachV {
                    tape: seqs_view(tape@),
                    head: head as int,
                    state: state@,
                    filler: filler@,
                };
                if halts_contain(halt_syms, &state) {
                    proof {
                        assert(spec_step(iv, hv, mcur) == StepV::Halt { m: m1, ins: ins@ });
                    }
                    tape_print(out, &tape, head);
                    push_lit(out, " -- HALT -- with ");
                    push_bytes(out, &state);
                    push_lit(out, "\n\n");
                    proof {
                        assert(out@ =~= out0 + run_header(run@) + (tr + step_trace(mcur, ins@)
                            + halt_tail(m1)));
                        assert(spec_run(iv, hv, m0, (k + 1) as nat) == (RunOutV::Halted {
                            trace: tr + step_trace(mcur, ins@) + halt_tail(m1),
                        }));
                        lemma_run_stable(iv, hv, m0, (k + 1) as nat, fuel as nat);
                    }
                    return ExecEnd::Done;
                }
                if tape.len() <= head {
                    let f = clone_bytes(&filler);
                    let ghost before_push = tape@;
                    tape.push(f);
                    proof {
                        assert(seqs_view(tape@) =~= seqs_view(before_push).push(filler@));
                    }
                }
                proof {
                    assert(spec_step(iv, hv, mcur) == StepV::Go {
                        m: MachV {
                            tape: seqs_view(tape@),
                            head: head as int,
                            state: state@,
                            filler: filler@,
                        },
                        ins: ins@,
                    });
                    tr = tr2;
                }
                k = k + 1;
            },
        }
    }
    ExecEnd::OutOfFuel
}

/// What executing a whole program prints and leaves behind: each run's
/// trace in order, each run given the same step budget; the first run
/// that fails or exhausts the budget ends the output with its partial
/// trace, and no later run executes.
pub open spec fn runs_ok(
    instrs: Seq<InstrV>,
    halts: Seq<Seq<u8>>,
    runs: Seq<RunV>,
    fuel: nat,
    base: Seq<u8>,
    out: Seq<u8>,
    end: ExecEndV,
) -> bool
    decreases runs.len(),
{
    if runs.len() == 0 {
        out == base && end is Done
    } else {
        match spec_run(instrs, halts, init_mach(runs[0]), fuel) {
            RunOutV::Halted { trace } => runs_ok(
                instrs,
                halts,
                runs.skip(1),
                fuel,
                base + run_header(runs[0]) + trace,
                out,
                end,
            ),
            RunOutV::Failed { trace, err } => out == base + run_header(runs[0]) + trace && end
                == ExecEndV::Failed(err),
            RunOutV::Running { m, trace } => out == base + run_header(runs[0]) + trace && end
                == ExecEndV::OutOfFuel,
        }
    }
}

/// Splicing: a prefix of runs that all halted, followed by the rest of
/// the runs, makes the whole sequence.
proof fn lemma_runs_ok_prefix(
    instrs: Seq<InstrV>,
    halts: Seq<Seq<u8>>,
    runs: Seq<RunV>,
    fuel: nat,
    i: int,
    base: Seq<u8>,
    mid: Seq<u8>,
    out: Seq<u8>,
    end: ExecEndV,
)
    requires
        0 <= i <= runs.len(),
        runs_ok(instrs, halts, runs.subrange(0, i), fuel, base, mid, ExecEndV::Done),
        runs_ok(instrs, halts, runs.skip(i), fuel, mid, out, end),
    ensures
        runs_ok(instrs, halts, runs, fuel, base, out, end),
    decreases i,
{
    if i == 0 {
        assert(runs.subrange(0, 0).len() == 0);
        assert(mid == base);
        assert(runs.skip(0) =~= runs);
    } else {
        let pre = runs.subrange(0, i);
        assert(pre[0] == runs[0]);
        match spec_run(instrs, halts, init_mach(pre[0]), fuel) {
            RunOutV::Halted { trace } => {
                let base1 = base + run_header(runs[0]) + trace;
                assert(pre.skip(1) =~= runs.skip(1).subrange(0, i - 1));
                assert(runs.skip(i) =~= runs.skip(1).skip(i - 1));
                lemma_runs_ok_prefix(
                    instrs,
                    halts,
                    runs.skip(1),
                    fuel,
                    i - 1,
                    base1,
                    mid,
                    out,
                    end,
                );
            },
            _ => {
                assert(false);
            },
        }
    }
}

/// Executes every run of the program in order, each with the given
/// step budget, building the combined trace.  A failing or exhausted
/// run ends execution with everything printed up to that point.
pub fn execute_program(program: &Program, fuel: u64) -> (r: (Vec<u8>, ExecEnd))
    requires
        forall|i: int| 0 <= i < program@.runs.len() ==> program@.runs[i].tape.len() > 0,
    ensures
        runs_ok(
            instrs_view(program.program@),
            seqs_view(program.halt_syms@),
            program@.runs,
            fuel as nat,
            Seq::empty(),
            r.0@,
            r.1@,
        ),
{
    let ghost iv = instrs_view(program.program@);
    let ghost hv = seqs_view(program.halt_syms@);
    let ghost rv = program@.runs;
    let mut out: Vec<u8> = Vec::new();
    let mut i: usize = 0;
    proof {
        assert(runs_ok(iv, hv, rv.subrange(0, 0), fuel as nat, Seq::empty(), out@, ExecEndV::Done));
    }
    while i < program.runs.len()
        invariant
            i <= rv.len(),
            iv == instrs_view(program.program@),
            hv == seqs_view(program.halt_syms@),
            rv == program@.runs,
            forall|j: int| 0 <= j < rv.len() ==> rv[j].tape.len() > 0,
            runs_ok(iv, hv, rv.subrange(0, i as int), fuel as nat, Seq::empty(), out@, ExecEndV::Done),
        decreases rv.len() - i,
    {
        let run = &program.runs[i];
        proof {
            assert(runs_view(program.runs@)[i as int] == program.runs@[i as int]@);
            assert(run@ == rv[i as int]);
        }
        let ghost mid = out@;
        match run_one(&program.program, &program.halt_syms, run, fuel, &mut out) {
            ExecEnd::Done => {
                proof {
                    reveal_with_fuel(runs_ok, 3);
                    let sub = rv.subrange(0, i + 1);
                    assert(sub.skip(i as int) =~= seq![rv[i as int]]);
                    assert(sub.skip(i as int)[0] == rv[i as int]);
                    assert(sub.skip(i as int).skip(1) =~= Seq::<RunV>::empty());
                    assert(runs_ok(iv, hv, sub.skip(i as int), fuel as nat, mid, out@, ExecEndV::Done));
                    assert(sub.subrange(0, i as int) =~= rv.subrange(0, i as int));
                    lemma_runs_ok_prefix(
                        iv,
                        hv,
                        sub,
                        fuel as nat,
                        i as int,
                        Seq::empty(),
                        mid,
                        out@,
                        ExecEndV::Done,
                    );
                }
                i = i + 1;
            },
            end => {
                proof {
                    assert(rv.skip(i as int)[0] == rv[i as int]);
                    assert(runs_ok(iv, hv, rv.skip(i as int), fuel as nat, mid, out@, end@));
                    lemma_runs_ok_prefix(
                        iv,
                        hv,
                        rv,
                        fuel as nat,
                        i as int,
                        Seq::empty(),
                        mid,
                        out@,
                        end@,
                    );
                }
                return (out, end);
            },
        }
    }
    proof {
        assert(rv.subrange(0, rv.len() as int) =~= rv);
    }
    (out, ExecEnd::Done)
}

/// A symbol that prints as itself: non-empty, made of bare-symbol
/// bytes, not opening a directive and not opening a comment.
pub open spec fn bare_symbol(s: Seq<u8>) -> bool {
    &&& s.len() > 0
    &&& forall|k: int| 0 <= k < s.len() ==> is_symbol_byte(s[k])
    &&& s[0] != 35
    &&& !(s.len() >= 2 && s[0] == 47 && s[1] == 47)
}

/// Round trip: serializing an instruction whose fields are bare
/// symbols and parsing the line back yields the identical instruction,
/// with the whole line consumed.
pub proof fn lemma_instr_round_trip(i: InstrV)
    requires
        bare_symbol(i.state),
        bare_symbol(i.read),
        bare_symbol(i.write),
        bare_symbol(i.next_state),
    ensures
        ({
            let c = render_instr(i) + "\n".spec_bytes();
            let o = spec_parse_instr(init_lexer(c));
            o.res == Ok::<InstrV, ErrV>(i) && o.end.cur == c.len()
        }),
{
    broadcast use vstd::string::is_ascii_spec_bytes;

    reveal_strlit(" ");
    reveal_strlit("\n");
    reveal_strlit("<-");
    reveal_strlit("->");
    let sp = " ".spec_bytes();
    let nl = "\n".spec_bytes();
    assert(is_ascii(" ") && is_ascii("\n") && is_ascii("<-") && is_ascii("->"));
    assert(sp =~= seq![32u8]);
    assert(nl =~= seq![10u8]);
    assert("<-".spec_bytes() =~= seq![60u8, 45u8]);
    assert("->".spec_bytes() =~= seq![45u8, 62u8]);

    let c = render_instr(i) + nl;
    let o1 = i.state.len() as int;
    let t2 = o1 + 1;
    let o2 = t2 + i.read.len();
    let t3 = o2 + 1;
    let o3 = t3 + i.write.len();
    let t4 = o3 + 1;
    let o4 = t4 + 2;
    let t5 = o4 + 1;
    let o5 = t5 + i.next_state.len();
    assert(dir_bytes(i.dir).len() == 2);
    assert(c =~= i.state + sp + i.read + sp + i.write + sp + dir_bytes(i.dir) + sp + i.next_state
        + nl);
    assert(c.len() == o5 + 1);
    assert(forall|k: int| 0 <= k < o1 ==> c[k] == i.state[k]);
    assert(c[o1] == 32);
    assert(forall|k: int| t2 <= k < o2 ==> c[k] == i.read[k - t2]);
    assert(c[o2] == 32);
    assert(forall|k: int| t3 <= k < o3 ==> c[k] == i.write[k - t3]);
    assert(c[o3] == 32);
    assert(c[t4] == dir_bytes(i.dir)[0] && c[t4 + 1] == dir_bytes(i.dir)[1]);
    assert(c[o4] == 32);
    assert(forall|k: int| t5 <= k < o5 ==> c[k] == i.next_state[k - t5]);
    assert(c[o5] == 10);

    reveal(spec_parse_instr);
    let ks = seq![TokenKind::Symbol];
    assert(ks[0] == TokenKind::Symbol);
    let ka = seq![TokenKind::LeftArrow, TokenKind::RightArrow];
    assert(ka[0] == TokenKind::LeftArrow && ka[1] == TokenKind::RightArrow);
    let kn = seq![TokenKind::NewLine];
    assert(kn[0] == TokenKind::NewLine);

    let v0 = init_lexer(c);
    lemma_lex_symbol(v0, 0, o1);
    assert(c.subrange(0, o1) =~= i.state);
    let e1 = spec_expect(v0, ks);
    assert(e1.end == (LexerV { cur: o1, ..v0 }));

    lemma_lex_symbol(e1.end, t2, o2);
    assert(c.subrange(t2, o2) =~= i.read);
    let e2 = spec_expect(e1.end, ks);
    assert(e2.end == (LexerV { cur: o2, ..v0 }));

    lemma_lex_symbol(e2.end, t3, o3);
    assert(c.subrange(t3, o3) =~= i.write);
    let e3 = spec_expect(e2.end, ks);
    assert(e3.end == (LexerV { cur: o3, ..v0 }));

    if i.dir == Dir::Left {
        assert(c[t4] == 60 && c[t4 + 1] == 45);
        lemma_lex_literal(e3.end, t4, TokenKind::LeftArrow);
    } else {
        assert(c[t4] == 45 && c[t4 + 1] == 62);
        lemma_lex_literal(e3.end, t4, TokenKind::RightArrow);
    }
    let e4 = spec_expect(e3.end, ka);
    assert(e4.end == (LexerV { cur: o4, ..v0 }));

    lemma_lex_symbol(e4.end, t5, o5);
    assert(c.subrange(t5, o5) =~= i.next_state);
    let e5 = spec_expect(e4.end, ks);
    assert(e5.end == (LexerV { cur: o5, ..v0 }));

    lemma_lex_literal(e5.end, o5, TokenKind::NewLine);
    let e6 = spec_expect(e5.end, kn);
    assert(e6.end.cur == o5 + 1);
}

} // verus!
