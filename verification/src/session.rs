//! The stepping engine: drive single-instruction execution of one constraint
//! program against a frozen execution context, with forward, backward and
//! absolute navigation. The machine has no reverse-execution primitive, so
//! every move to an earlier position resets the machine and deterministically
//! replays from the first instruction; the context (solution, derived
//! tables, pre/post state slots) is precomputed and never changes.

use vstd::prelude::*;
use vstd::string::StringExecFns;

use essential_constraint_asm::Op;
use essential_constraint_vm::{BytecodeMapped, Memory, Repeat};

use crate::decode;
use crate::model::{Key, MutationV, Predicate, SolutionModel, SolutionV, Value, Word};
use crate::snapshot::Slots;
use crate::decode::{comma_sep, parse_type_spec};
use crate::store::{clone_words, words_eq};
use crate::text::{
    chars_string, chars_views, int_chars, join_chars, join_spec, word_chars,
};
use crate::vm::{
    make_solution, map_bytecode, mem_text, mem_text_spec, mem_words, memory_new, op_text,
    op_text_spec, ops_window, repeat_new, repeat_slots, sol_view, step_spec, vm_step, RepeatSlotV,
    StepOutcomeV, StepRaw, StepResultV,
};
use crate::vm::{code_bytes, code_decodes};

verus! {

/// The frozen execution context a session runs against.
pub struct CtxV {
    /// The constraint bytecode being stepped.
    pub code: Seq<u8>,
    /// The solution's contents.
    pub sol: SolutionV,
    /// The index of the solution entry under debug.
    pub index: nat,
    /// The pre-mutation state slots.
    pub pre: Seq<Seq<Word>>,
    /// The post-mutation state slots.
    pub post: Seq<Seq<Word>>,
}

/// The machine's contents: operand stack, scratch memory, repeat counters
/// and program counter.
pub struct MachineV {
    /// The operand stack.
    pub stack: Seq<Word>,
    /// The scratch memory.
    pub memory: Seq<Word>,
    /// The repeat-counter stack.
    pub repeat: Seq<RepeatSlotV>,
    /// The program counter.
    pub pc: nat,
}

/// The machine in its fresh state: everything empty, counter at zero.
pub open spec fn fresh_machine() -> MachineV {
    MachineV { stack: Seq::empty(), memory: Seq::empty(), repeat: Seq::empty(), pc: 0 }
}

/// What executing one operation at the machine's counter leaves and reports.
pub open spec fn raw_step(ctx: CtxV, m: MachineV) -> StepResultV {
    step_spec(ctx.code, m.pc, ctx.sol, ctx.index, ctx.pre, ctx.post, m.stack, m.memory, m.repeat)
}

/// The program counter after an outcome: advanced, set by a jump, or kept.
pub open spec fn step_pc(pc: nat, o: StepOutcomeV) -> nat {
    match o {
        StepOutcomeV::Advance => pc + 1,
        StepOutcomeV::Jump(p) => p,
        _ => pc,
    }
}

/// The machine after one executed operation.
pub open spec fn machine_after_step(ctx: CtxV, m: MachineV) -> MachineV {
    let out = raw_step(ctx, m);
    MachineV {
        stack: out.stack,
        memory: out.memory,
        repeat: out.repeat,
        pc: step_pc(m.pc, out.outcome),
    }
}

/// The machine after `n` executed operations, replayed from fresh.
pub open spec fn replay(ctx: CtxV, n: nat) -> MachineV
    decreases n,
{
    if n == 0 {
        fresh_machine()
    } else {
        machine_after_step(ctx, replay(ctx, (n - 1) as nat))
    }
}

/// What one stepping call reports.
pub enum Outcome {
    /// The program is past its last instruction, or the instruction halted.
    ProgramEnd,
    /// One instruction executed; execution continues.
    Step,
    /// The instruction's execution rule was violated; the session stays
    /// usable and the fault's rendering is retained.
    Panic(String),
}

/// Mathematical view of an [`Outcome`].
pub enum OutcomeV {
    /// The program ended.
    ProgramEnd,
    /// One instruction executed.
    Step,
    /// A recoverable fault, with its rendering.
    Panic(Seq<char>),
}

impl View for Outcome {
    type V = OutcomeV;

    open spec fn view(&self) -> OutcomeV {
        match self {
            Outcome::ProgramEnd => OutcomeV::ProgramEnd,
            Outcome::Step => OutcomeV::Step,
            Outcome::Panic(m) => OutcomeV::Panic(m@),
        }
    }
}

/// What one stepping call does: leaves the machine alone at the program's
/// end, otherwise executes the operation at the counter, counts it, and
/// reports a step, the program's end, or a retained fault.
pub open spec fn sess_step(ctx: CtxV, m: MachineV, pos: nat) -> (MachineV, nat, OutcomeV) {
    if op_text_spec(ctx.code, m.pc) is None {
        (m, pos, OutcomeV::ProgramEnd)
    } else {
        let out = raw_step(ctx, m);
        let m2 = machine_after_step(ctx, m);
        match out.outcome {
            StepOutcomeV::Advance => (m2, pos + 1, OutcomeV::Step),
            StepOutcomeV::Jump(p) => (m2, pos + 1, OutcomeV::Step),
            StepOutcomeV::Halt => (m2, pos + 1, OutcomeV::ProgramEnd),
            StepOutcomeV::Fault(msg) => (m2, pos + 1, OutcomeV::Panic(msg)),
            StepOutcomeV::End => (m, pos, OutcomeV::ProgramEnd),
        }
    }
}

/// Up to `k` stepping calls, stopping early when one reports the program's
/// end or a fault; reports the last call's outcome.
pub open spec fn run_steps(ctx: CtxV, m: MachineV, pos: nat, k: nat) -> (MachineV, nat, OutcomeV)
    decreases k,
{
    if k == 0 {
        (m, pos, OutcomeV::Step)
    } else {
        let (m2, pos2, ov) = sess_step(ctx, m, pos);
        match ov {
            OutcomeV::Step => run_steps(ctx, m2, pos2, (k - 1) as nat),
            _ => (m2, pos2, ov),
        }
    }
}

/// While every call steps, one more call extends the run by one step.
pub proof fn lemma_run_steps_extend(ctx: CtxV, m: MachineV, pos: nat, k: nat)
    requires
        run_steps(ctx, m, pos, k).2 is Step,
    ensures
        run_steps(ctx, m, pos, k + 1) == sess_step(
            ctx,
            run_steps(ctx, m, pos, k).0,
            run_steps(ctx, m, pos, k).1,
        ),
    decreases k,
{
    let (m2, pos2, ov) = sess_step(ctx, m, pos);
    if k == 0 {
        assert(run_steps(ctx, m, pos, 1) == (match ov {
            OutcomeV::Step => run_steps(ctx, m2, pos2, 0),
            _ => (m2, pos2, ov),
        }));
    } else if ov is Step {
        assert(run_steps(ctx, m, pos, k) == run_steps(ctx, m2, pos2, (k - 1) as nat));
        assert(run_steps(ctx, m, pos, k + 1) == run_steps(ctx, m2, pos2, ((k + 1) - 1) as nat));
        assert(((k + 1) - 1) as nat == (k - 1) as nat + 1);
        lemma_run_steps_extend(ctx, m2, pos2, (k - 1) as nat);
    }
}

/// The classification of a final stack when the program ends.
#[derive(Debug, Clone, Copy, PartialEq, Eq, Structural)]
pub enum EndStatus {
    /// Exactly `[1]`: the constraint holds.
    Success,
    /// Exactly `[0]`: the constraint explicitly evaluated to false.
    ExplicitFalse,
    /// Any other shape: the program left an unexpected stack.
    Anomalous,
}

/// The classification of a final stack: exactly `[1]` is success, exactly
/// `[0]` is an explicit false, anything else is anomalous.
pub open spec fn classify_spec(stack: Seq<Word>) -> EndStatus {
    if stack == seq![1i64] {
        EndStatus::Success
    } else if stack == seq![0i64] {
        EndStatus::ExplicitFalse
    } else {
        EndStatus::Anomalous
    }
}

/// Classify the final stack of an ended program.
pub fn classify_end_stack(stack: &Vec<Word>) -> (r: EndStatus)
    ensures
        r == classify_spec(stack@),
{
    if stack.len() == 1 && stack[0] == 1 {
        proof {
            assert(stack@ =~= seq![1i64]);
        }
        EndStatus::Success
    } else if stack.len() == 1 && stack[0] == 0 {
        proof {
            assert(stack@ =~= seq![0i64]);
        }
        EndStatus::ExplicitFalse
    } else {
        proof {
            assert(stack@ != seq![1i64] && stack@ != seq![0i64]) by {
                if stack@ == seq![1i64] {
                    assert(stack@.len() == 1 && stack@[0] == 1i64);
                }
                if stack@ == seq![0i64] {
                    assert(stack@.len() == 1 && stack@[0] == 0i64);
                }
            }
        }
        EndStatus::Anomalous
    }
}

/// Why a session could not be built or stepped.
#[derive(Debug, Clone, PartialEq, Eq)]
pub enum SessionError {
    /// The solution holds no entry at the debug index.
    MissingSolutionData,
    /// The predicate holds no constraint at the given index.
    NoConstraint,
    /// The constraint bytecode is malformed; the decode error is retained.
    BytecodeDecode(String),
    /// The position counter cannot count any further steps.
    StepLimit,
}

/// The rendering of a word list, bracketed and comma-separated.
pub open spec fn words_list_spec(ws: Seq<Word>) -> Seq<char> {
    seq!['['] + join_spec(Seq::new(ws.len(), |i: int| int_chars(ws[i] as int)), comma_sep())
        + seq![']']
}

/// The rendering of the operand stack.
pub open spec fn stack_text_spec(ws: Seq<Word>) -> Seq<char> {
    "Stack("@ + words_list_spec(ws) + ")"@
}

/// The rendering of the session: the last executed operation, then the
/// stack and the scratch memory.
pub open spec fn render_spec(last_op: Option<Seq<char>>, stack: Seq<Word>, mem: Seq<Word>) -> Seq<
    char,
> {
    (match last_op {
        Some(t) => "Op: "@ + t + "\n"@,
        None => Seq::empty(),
    }) + "  ├── "@ + stack_text_spec(stack) + "\n  └── "@ + mem_text_spec(mem) + "\n"@
}

/// The message reported when the program ends, by final-stack class.
pub open spec fn end_message(stack: Seq<Word>, rendered: Seq<char>) -> Seq<char> {
    match classify_spec(stack) {
        EndStatus::Success => "Program ended successfully.\n"@ + rendered,
        EndStatus::ExplicitFalse => "Program ended with false!\n"@ + rendered,
        EndStatus::Anomalous => "Program ended with unexpected stack: "@ + stack_text_spec(stack)
            + "\n"@ + rendered,
    }
}

/// The message reported when an instruction faults.
pub open spec fn panic_message(fault: Seq<char>, rendered: Seq<char>) -> Seq<char> {
    "Program panic: "@ + fault + "\n"@ + rendered
}

/// Render a word list.
#[verifier::loop_isolation(false)]
#[verifier::spinoff_prover]
fn words_list_text(ws: &Vec<Word>) -> (r: Vec<char>)
    ensures
        r@ == words_list_spec(ws@),
{
    let ghost views = Seq::new(ws@.len(), |i: int| int_chars(ws@[i] as int));
    let mut parts: Vec<Vec<char>> = Vec::new();
    let mut i: usize = 0;
    while i < ws.len()
        invariant
            0 <= i <= ws@.len(),
            views == Seq::new(ws@.len(), |j: int| int_chars(ws@[j] as int)),
            chars_views(parts@) == views.take(i as int),
        decreases ws@.len() - i,
    {
        let piece = word_chars(ws[i]);
        proof {
            crate::text::lemma_chars_views_push(parts@, piece);
            assert(views.take(i + 1) =~= views.take(i as int).push(views[i as int]));
        }
        parts.push(piece);
        i += 1;
    }
    proof {
        assert(views.take(views.len() as int) =~= views);
    }
    let mut sep: Vec<char> = Vec::new();
    sep.push(',');
    sep.push(' ');
    proof {
        assert(sep@ =~= comma_sep());
    }
    let joined = join_chars(&parts, &sep);
    let mut out: Vec<char> = Vec::new();
    out.push('[');
    crate::text::extend_chars(&mut out, &joined);
    out.push(']');
    proof {
        assert(out@ =~= words_list_spec(ws@));
    }
    out
}

/// Render the operand stack as text.
pub fn stack_text(ws: &Vec<Word>) -> (r: String)
    ensures
        r@ == stack_text_spec(ws@),
{
    let inner = words_list_text(ws);
    let mut out = String::new();
    out.append("Stack(");
    let s = chars_string(&inner);
    out.append(s.as_str());
    out.append(")");
    out
}

/// A debugger for one constraint program: the frozen context and the fresh
/// machine, ready to begin a stepping session.
pub struct ConstraintDebugger {
    solution: SolutionModel,
    sol_vm: essential_types::solution::Solution,
    index: u16,
    code_bytes: Vec<u8>,
    code: BytecodeMapped<Op, Vec<u8>>,
    pre_state: Vec<Value>,
    post_state: Vec<Value>,
    stack: Vec<Word>,
    memory: Memory,
    repeat: Repeat,
    pc: usize,
}

impl ConstraintDebugger {
    /// The frozen execution context.
    pub closed spec fn ctx(&self) -> CtxV {
        CtxV {
            code: self.code_bytes@,
            sol: self.solution.deep_view(),
            index: self.index as nat,
            pre: self.pre_state.deep_view(),
            post: self.post_state.deep_view(),
        }
    }

    /// The machine's contents.
    pub closed spec fn machine(&self) -> MachineV {
        MachineV {
            stack: self.stack@,
            memory: mem_words(self.memory),
            repeat: repeat_slots(self.repeat),
            pc: self.pc as nat,
        }
    }

    /// The debugger's internal invariant: the opaque values held for the
    /// machine correspond to the modeled context, and the machine is fresh.
    pub closed spec fn wf(&self) -> bool {
        &&& sol_view(self.sol_vm) == self.solution.deep_view()
        &&& code_bytes(self.code) == self.code_bytes@
        &&& (self.index as int) < self.solution.data@.len()
        &&& self.machine() == fresh_machine()
    }

    /// Build a debugger for the constraint at index `constraint` of the
    /// predicate, against the given solution, debug index and precomputed
    /// state slots. Fails exactly when the debug index has no solution
    /// entry, the constraint index has no constraint, or the constraint's
    /// bytecode does not decode.
    pub fn new(
        solution: SolutionModel,
        index: u16,
        predicate: Predicate,
        constraint: usize,
        slots: Slots,
    ) -> (r: Result<ConstraintDebugger, SessionError>)
        ensures
            match r {
                Ok(d) => {
                    &&& d.wf()
                    &&& (index as int) < solution.data@.len()
                    &&& constraint < predicate.constraints@.len()
                    &&& code_decodes(predicate.constraints@[constraint as int]@)
                    &&& d.ctx() == (CtxV {
                        code: predicate.constraints@[constraint as int]@,
                        sol: solution.deep_view(),
                        index: index as nat,
                        pre: slots.pre.deep_view(),
                        post: slots.post.deep_view(),
                    })
                },
                Err(SessionError::MissingSolutionData) => (index as int) >= solution.data@.len(),
                Err(SessionError::NoConstraint) => (index as int) < solution.data@.len()
                    && constraint >= predicate.constraints@.len(),
                Err(SessionError::BytecodeDecode(_)) => (index as int) < solution.data@.len()
                    && constraint < predicate.constraints@.len() && !code_decodes(
                    predicate.constraints@[constraint as int]@,
                ),
                Err(SessionError::StepLimit) => false,
            },
    {
        if (index as usize) >= solution.data.len() {
            return Err(SessionError::MissingSolutionData);
        }
        if constraint >= predicate.constraints.len() {
            return Err(SessionError::NoConstraint);
        }
        let code_bytes = clone_bytes(&predicate.constraints[constraint]);
        let code = match map_bytecode(&code_bytes) {
            Ok(code) => code,
            Err(e) => {
                return Err(SessionError::BytecodeDecode(e));
            },
        };
        let sol_vm = make_solution(&solution);
        Ok(
            ConstraintDebugger {
                solution,
                sol_vm,
                index,
                code_bytes,
                code,
                pre_state: slots.pre,
                post_state: slots.post,
                stack: Vec::new(),
                memory: memory_new(),
                repeat: repeat_new(),
                pc: 0,
            },
        )
    }

    /// Begin a stepping session at the fresh machine.
    pub fn start_session(self) -> (r: Session)
        requires
            self.wf(),
        ensures
            r.wf(),
            r.ctx() == self.ctx(),
            r.machine() == fresh_machine(),
            r.position_v() == 0,
            r.last_op_v() is None,
    {
        Session { d: self, pos: 0, last_op: None }
    }
}

/// Clone a byte vector.
fn clone_bytes(v: &Vec<u8>) -> (r: Vec<u8>)
    ensures
        r@ == v@,
{
    let r = v.clone();
    proof {
        assert forall|i: int| 0 <= i < v@.len() implies r@[i] == v@[i] by {
            assert(cloned::<u8>(v@[i], r@[i]));
        }
        assert(r@ =~= v@);
    }
    r
}

/// A stepping session: the debugger's context and machine plus the count of
/// executed instructions and the last executed instruction's rendering.
pub struct Session {
    d: ConstraintDebugger,
    pos: usize,
    last_op: Option<String>,
}

impl Session {
    /// The frozen execution context.
    pub closed spec fn ctx(&self) -> CtxV {
        self.d.ctx()
    }

    /// The machine's contents.
    pub closed spec fn machine(&self) -> MachineV {
        self.d.machine()
    }

    /// The count of executed instructions since the last reset.
    pub closed spec fn position_v(&self) -> nat {
        self.pos as nat
    }

    /// The rendering of the last executed instruction.
    pub closed spec fn last_op_v(&self) -> Option<Seq<char>> {
        match self.last_op {
            Some(ref s) => Some(s@),
            None => None,
        }
    }

    /// The session's internal invariant: the opaque machine values hold the
    /// modeled contents and the machine is exactly the replay of `pos`
    /// executed instructions from fresh.
    pub closed spec fn wf(&self) -> bool {
        &&& sol_view(self.d.sol_vm) == self.d.solution.deep_view()
        &&& code_bytes(self.d.code) == self.d.code_bytes@
        &&& (self.d.index as int) < self.d.solution.data@.len()
        &&& self.machine() == replay(self.ctx(), self.pos as nat)
    }

    /// The executed-instruction count.
    pub fn position(&self) -> (r: usize)
        ensures
            r as nat == self.position_v(),
    {
        self.pos
    }

    /// The operand stack's words, bottom first.
    pub fn stack_words(&self) -> (r: &Vec<Word>)
        ensures
            r@ == self.machine().stack,
    {
        &self.d.stack
    }

    /// Reset the machine to fresh without touching the context.
    pub fn reset_session(&mut self)
        requires
            old(self).wf(),
        ensures
            final(self).wf(),
            final(self).ctx() == old(self).ctx(),
            final(self).machine() == fresh_machine(),
            final(self).position_v() == 0,
            final(self).last_op_v() == old(self).last_op_v(),
    {
        self.d.stack = Vec::new();
        self.d.memory = memory_new();
        self.d.repeat = repeat_new();
        self.d.pc = 0;
        self.pos = 0;
    }

    /// Execute one instruction. At the program's end nothing changes and the
    /// end is reported; otherwise the executed instruction is counted, the
    /// machine takes the step's outcome, and a fault is retained as session
    /// state rather than an error. Fails only when the position counter is
    /// exhausted.
    #[verifier::spinoff_prover]
    pub fn step_forward(&mut self) -> (r: Result<Outcome, SessionError>)
        requires
            old(self).wf(),
        ensures
            final(self).wf(),
            final(self).ctx() == old(self).ctx(),
            match r {
                Ok(o) => {
                    &&& old(self).position_v() < usize::MAX
                    &&& ({
                        let (m2, pos2, ov) = sess_step(
                            old(self).ctx(),
                            old(self).machine(),
                            old(self).position_v(),
                        );
                        final(self).machine() == m2 && final(self).position_v() == pos2 && o@ == ov
                            && final(self).last_op_v() == (match op_text_spec(
                            old(self).ctx().code,
                            old(self).machine().pc,
                        ) {
                            Some(t) => Some(t),
                            None => old(self).last_op_v(),
                        })
                    })
                },
                Err(e) => {
                    &&& e == SessionError::StepLimit
                    &&& old(self).position_v() == usize::MAX
                    &&& final(self).machine() == old(self).machine()
                    &&& final(self).position_v() == old(self).position_v()
                    &&& final(self).last_op_v() == old(self).last_op_v()
                },
            },
    {
        if self.pos == usize::MAX {
            return Err(SessionError::StepLimit);
        }
        let t = op_text(&self.d.code, self.d.pc);
        let t = match t {
            Some(t) => t,
            None => {
                return Ok(Outcome::ProgramEnd);
            },
        };
        self.last_op = Some(t);
        let raw = vm_step(
            &self.d.code,
            self.d.pc,
            &self.d.sol_vm,
            self.d.index,
            &self.d.pre_state,
            &self.d.post_state,
            &mut self.d.stack,
            &mut self.d.memory,
            &mut self.d.repeat,
        );
        match raw {
            StepRaw::Advance => {
                self.d.pc = self.d.pc + 1;
                self.pos = self.pos + 1;
                Ok(Outcome::Step)
            },
            StepRaw::Jump(p) => {
                self.d.pc = p;
                self.pos = self.pos + 1;
                Ok(Outcome::Step)
            },
            StepRaw::Halt => {
                self.pos = self.pos + 1;
                Ok(Outcome::ProgramEnd)
            },
            StepRaw::Fault(m) => {
                self.pos = self.pos + 1;
                Ok(Outcome::Panic(m))
            },
            StepRaw::End => Ok(Outcome::ProgramEnd),
        }
    }

    /// Run up to `max(i, 1)` stepping calls from the current state, stopping
    /// early when one reports the program's end or a fault; reports the last
    /// call's outcome. Fails only when the position counter is exhausted,
    /// which cannot happen while `position + max(i, 1)` fits the counter.
    #[verifier::loop_isolation(false)]
    #[verifier::spinoff_prover]
    #[verifier::spinoff_prover]
    pub fn play_to(&mut self, i: usize) -> (r: Result<Outcome, SessionError>)
        requires
            old(self).wf(),
        ensures
            final(self).wf(),
            final(self).ctx() == old(self).ctx(),
            ({
                let k: nat = if i == 0 {
                    1
                } else {
                    i as nat
                };
                match r {
                    Ok(o) => {
                        let (m2, pos2, ov) = run_steps(
                            old(self).ctx(),
                            old(self).machine(),
                            old(self).position_v(),
                            k,
                        );
                        final(self).machine() == m2 && final(self).position_v() == pos2 && o@ == ov
                    },
                    Err(e) => {
                        &&& e == SessionError::StepLimit
                        &&& final(self).position_v() == usize::MAX
                        &&& exists|j: nat|
                            run_steps(old(self).ctx(), old(self).machine(), old(self).position_v(), j)
                                == (final(self).machine(), final(self).position_v(), OutcomeV::Step)
                    },
                }
            }),
            old(self).position_v() + (if i == 0 {
                1nat
            } else {
                i as nat
            }) <= usize::MAX ==> r is Ok,
    {
        let ghost ctx = self.ctx();
        let ghost m0 = self.machine();
        let ghost p0 = self.position_v();
        let k = if i == 0 {
            1
        } else {
            i
        };
        let mut j: usize = 0;
        while j < k
            invariant
                self.wf(),
                self.ctx() == ctx,
                0 <= j <= k,
                run_steps(ctx, m0, p0, j as nat) == (self.machine(), self.position_v(), OutcomeV::Step),
            decreases k - j,
        {
            let ghost pre_machine = self.machine();
            let ghost pre_pos = self.position_v();
            match self.step_forward() {
                Err(e) => {
                    proof {
                        assert(pre_pos == usize::MAX);
                        assert(p0 + k as nat > usize::MAX) by {
                            lemma_run_steps_pos_grows(ctx, m0, p0, j as nat);
                        }
                        assert(run_steps(ctx, m0, p0, j as nat) == (
                            self.machine(),
                            self.position_v(),
                            OutcomeV::Step,
                        ));
                    }
                    return Err(e);
                },
                Ok(o) => {
                    proof {
                        lemma_run_steps_extend(ctx, m0, p0, j as nat);
                    }
                    match o {
                        Outcome::Step => {},
                        _ => {
                            proof {
                                lemma_run_steps_absorb(ctx, m0, p0, (j + 1) as nat, k as nat);
                            }
                            return Ok(o);
                        },
                    }
                },
            }
            j += 1;
        }
        Ok(Outcome::Step)
    }
}

/// A run's position never shrinks: it grows by at most one per call.
proof fn lemma_run_steps_pos_grows(ctx: CtxV, m: MachineV, pos: nat, k: nat)
    ensures
        pos <= run_steps(ctx, m, pos, k).1 <= pos + k,
    decreases k,
{
    if k > 0 {
        let (m2, pos2, ov) = sess_step(ctx, m, pos);
        if ov is Step {
            lemma_run_steps_pos_grows(ctx, m2, pos2, (k - 1) as nat);
        }
    }
}

/// Once a run stops early, running longer changes nothing.
proof fn lemma_run_steps_absorb(ctx: CtxV, m: MachineV, pos: nat, t: nat, k: nat)
    requires
        t <= k,
        !(run_steps(ctx, m, pos, t).2 is Step),
    ensures
        run_steps(ctx, m, pos, k) == run_steps(ctx, m, pos, t),
    decreases t,
{
    if t > 0 {
        let (m2, pos2, ov) = sess_step(ctx, m, pos);
        if ov is Step {
            lemma_run_steps_absorb(ctx, m2, pos2, (t - 1) as nat, (k - 1) as nat);
        }
    }
}

/// The message a finished or faulted stepping call leaves: the rendering,
/// followed by an end marker for a finished program, or prefixed by the
/// fault for a faulted one.
pub open spec fn outcome_message(ov: OutcomeV, rendered: Seq<char>) -> Seq<char> {
    match ov {
        OutcomeV::ProgramEnd => rendered + "\nProgram ended"@,
        OutcomeV::Step => rendered,
        OutcomeV::Panic(msg) => panic_message(msg, rendered),
    }
}

/// Append the end-of-program marker.
pub fn end(out: &mut String)
    ensures
        final(out)@ == old(out)@ + "\nProgram ended"@,
{
    out.append("\nProgram ended");
}

/// Fold a stepping call's outcome into the rendered message.
fn handle_outcome(outcome: Outcome, out: &mut String)
    ensures
        final(out)@ == outcome_message(outcome@, old(out)@),
{
    match outcome {
        Outcome::ProgramEnd => end(out),
        Outcome::Panic(e) => {
            let mut msg = String::new();
            msg.append("Program panic: ");
            msg.append(e.as_str());
            msg.append("\n");
            msg.append(out.as_str());
            proof {
                assert(msg@ =~= panic_message(e@, old(out)@));
            }
            *out = msg;
        },
        Outcome::Step => {},
    }
}

impl Session {
    /// Render the session: the last executed instruction, the stack and the
    /// scratch memory.
    #[verifier::spinoff_prover]
    pub fn render(&self) -> (r: String)
        ensures
            r@ == render_spec(self.last_op_v(), self.machine().stack, self.machine().memory),
    {
        let mut out = String::new();
        match &self.last_op {
            Some(t) => {
                out.append("Op: ");
                out.append(t.as_str());
                out.append("\n");
            },
            None => {},
        }
        out.append("  ├── ");
        let st = stack_text(&self.d.stack);
        out.append(st.as_str());
        out.append("\n  └── ");
        let mt = mem_text(&self.d.memory);
        out.append(mt.as_str());
        out.append("\n");
        proof {
            assert(out@ =~= render_spec(self.last_op_v(), self.machine().stack,
                self.machine().memory));
        }
        out
    }

    /// Execute one instruction and render the session, marking the program's
    /// end or a fault in the message.
    #[verifier::spinoff_prover]
    pub fn next(&mut self, out: &mut String) -> (r: Result<(), SessionError>)
        requires
            old(self).wf(),
        ensures
            final(self).wf(),
            final(self).ctx() == old(self).ctx(),
            match r {
                Ok(()) => ({
                    let (m2, pos2, ov) = sess_step(
                        old(self).ctx(),
                        old(self).machine(),
                        old(self).position_v(),
                    );
                    &&& final(self).machine() == m2
                    &&& final(self).position_v() == pos2
                    &&& final(out)@ == outcome_message(
                        ov,
                        render_spec(final(self).last_op_v(), m2.stack, m2.memory),
                    )
                }),
                Err(e) => {
                    &&& e == SessionError::StepLimit
                    &&& old(self).position_v() == usize::MAX
                    &&& final(self).machine() == old(self).machine()
                    &&& final(self).position_v() == old(self).position_v()
                    &&& final(out)@ == old(out)@
                },
            },
    {
        let outcome = match self.step_forward() {
            Ok(o) => o,
            Err(e) => {
                return Err(e);
            },
        };
        let rendered = self.render();
        *out = rendered;
        handle_outcome(outcome, out);
        Ok(())
    }

    /// Step back one position: reset the machine and replay from the first
    /// instruction to the previous position (never below the first step).
    /// Rewind has no native primitive; it is deterministic replay.
    #[verifier::spinoff_prover]
    pub fn back(&mut self, out: &mut String) -> (r: Result<(), SessionError>)
        requires
            old(self).wf(),
        ensures
            final(self).wf(),
            final(self).ctx() == old(self).ctx(),
            r is Ok,
            ({
                let k: nat = if old(self).position_v() <= 2 {
                    1
                } else {
                    (old(self).position_v() - 1) as nat
                };
                let (m2, pos2, ov) = run_steps(old(self).ctx(), fresh_machine(), 0, k);
                &&& final(self).machine() == m2
                &&& final(self).position_v() == pos2
                &&& final(out)@ == outcome_message(
                    ov,
                    render_spec(final(self).last_op_v(), m2.stack, m2.memory),
                )
            }),
    {
        let target = if self.pos == 0 {
            0
        } else {
            self.pos - 1
        };
        self.reset_session();
        let outcome = match self.play_to(target) {
            Ok(o) => o,
            Err(e) => {
                proof {
                    assert(false);
                }
                return Err(e);
            },
        };
        let rendered = self.render();
        *out = rendered;
        handle_outcome(outcome, out);
        Ok(())
    }

    /// Seek to position `i` (at least one step): reset the machine and
    /// replay from the first instruction, stopping early at the program's
    /// end or a fault.
    pub fn play(&mut self, i: usize, out: &mut String) -> (r: Result<(), SessionError>)
        requires
            old(self).wf(),
        ensures
            final(self).wf(),
            final(self).ctx() == old(self).ctx(),
            r is Ok,
            ({
                let k: nat = if i == 0 {
                    1
                } else {
                    i as nat
                };
                let (m2, pos2, ov) = run_steps(old(self).ctx(), fresh_machine(), 0, k);
                &&& final(self).machine() == m2
                &&& final(self).position_v() == pos2
                &&& final(out)@ == outcome_message(
                    ov,
                    render_spec(final(self).last_op_v(), m2.stack, m2.memory),
                )
            }),
    {
        self.reset_session();
        let outcome = match self.play_to(i) {
            Ok(o) => o,
            Err(e) => {
                proof {
                    assert(false);
                }
                return Err(e);
            },
        };
        let rendered = self.render();
        *out = rendered;
        handle_outcome(outcome, out);
        Ok(())
    }

    /// Step until the program ends or an instruction faults, then report
    /// distinctly how it ended: a final stack of exactly `[1]` is success,
    /// exactly `[0]` is an explicit false, anything else is anomalous, and a
    /// fault is reported with its rendering.
    #[verifier::spinoff_prover]
    pub fn play_till_error(&mut self, out: &mut String) -> (r: Result<(), SessionError>)
        requires
            old(self).wf(),
        ensures
            final(self).wf(),
            final(self).ctx() == old(self).ctx(),
            match r {
                Ok(()) => exists|j: nat|
                    #![trigger run_steps(old(self).ctx(), old(self).machine(), old(self).position_v(), j)]
                    j >= 1 && ({
                        let (m2, pos2, ov) = run_steps(
                            old(self).ctx(),
                            old(self).machine(),
                            old(self).position_v(),
                            j,
                        );
                        &&& final(self).machine() == m2
                        &&& final(self).position_v() == pos2
                        &&& match ov {
                            OutcomeV::Step => false,
                            OutcomeV::ProgramEnd => final(out)@ == end_message(
                                m2.stack,
                                render_spec(final(self).last_op_v(), m2.stack, m2.memory),
                            ),
                            OutcomeV::Panic(msg) => final(out)@ == panic_message(
                                msg,
                                render_spec(final(self).last_op_v(), m2.stack, m2.memory),
                            ),
                        }
                    }),
                Err(e) => {
                    &&& e == SessionError::StepLimit
                    &&& final(self).position_v() == usize::MAX
                    &&& exists|j: nat|
                        run_steps(old(self).ctx(), old(self).machine(), old(self).position_v(), j)
                            == (final(self).machine(), final(self).position_v(), OutcomeV::Step)
                },
            },
    {
        let ghost ctx = self.ctx();
        let ghost m0 = self.machine();
        let ghost p0 = self.position_v();
        let ghost mut j_count: nat = 0;
        loop
            invariant
                self.wf(),
                self.ctx() == ctx,
                ctx == old(self).ctx(),
                m0 == old(self).machine(),
                p0 == old(self).position_v(),
                run_steps(ctx, m0, p0, j_count) == (self.machine(), self.position_v(), OutcomeV::Step),
            decreases usize::MAX - self.pos,
        {
            let ghost pre_pos = self.position_v();
            match self.step_forward() {
                Err(e) => {
                    proof {
                        assert(run_steps(ctx, m0, p0, j_count) == (
                            self.machine(),
                            self.position_v(),
                            OutcomeV::Step,
                        ));
                    }
                    return Err(e);
                },
                Ok(Outcome::Step) => {
                    proof {
                        lemma_run_steps_extend(ctx, m0, p0, j_count);
                        j_count = j_count + 1;
                        assert(self.position_v() == pre_pos + 1);
                    }
                },
                Ok(Outcome::ProgramEnd) => {
                    proof {
                        lemma_run_steps_extend(ctx, m0, p0, j_count);
                        j_count = j_count + 1;
                    }
                    let status = classify_end_stack(&self.d.stack);
                    let rendered = self.render();
                    let mut msg = String::new();
                    match status {
                        EndStatus::Success => {
                            msg.append("Program ended successfully.\n");
                        },
                        EndStatus::ExplicitFalse => {
                            msg.append("Program ended with false!\n");
                        },
                        EndStatus::Anomalous => {
                            msg.append("Program ended with unexpected stack: ");
                            let st = stack_text(&self.d.stack);
                            msg.append(st.as_str());
                            msg.append("\n");
                        },
                    }
                    msg.append(rendered.as_str());
                    *out = msg;
                    proof {
                        assert(out@ =~= end_message(self.machine().stack, render_spec(
                            self.last_op_v(),
                            self.machine().stack,
                            self.machine().memory,
                        )));
                        assert(j_count >= 1 && ({
                            let (m2, pos2, ov) = run_steps(ctx, m0, p0, j_count);
                            &&& self.machine() == m2
                            &&& self.position_v() == pos2
                            &&& ov is ProgramEnd
                        }));
                    }
                    return Ok(());
                },
                Ok(Outcome::Panic(e)) => {
                    proof {
                        lemma_run_steps_extend(ctx, m0, p0, j_count);
                        j_count = j_count + 1;
                    }
                    let rendered = self.render();
                    let mut msg = String::new();
                    msg.append("Program panic: ");
                    msg.append(e.as_str());
                    msg.append("\n");
                    msg.append(rendered.as_str());
                    *out = msg;
                    proof {
                        assert(out@ =~= panic_message(e@, render_spec(
                            self.last_op_v(),
                            self.machine().stack,
                            self.machine().memory,
                        )));
                        assert(j_count >= 1 && ({
                            let (m2, pos2, ov) = run_steps(ctx, m0, p0, j_count);
                            &&& self.machine() == m2
                            &&& self.position_v() == pos2
                            &&& ov == OutcomeV::Panic(e@)
                        }));
                    }
                    return Ok(());
                },
            }
        }
    }

    /// Decode a span of the operand stack as a typed value for display.
    pub fn parse_type(&self, ty: &str) -> (r: String)
        ensures
            r@ == parse_type_spec(self.machine().stack, ty@),
    {
        decode::parse_type(self.d.stack.as_slice(), ty)
    }

    /// The number of pre-mutation state slots.
    pub fn pre_len(&self) -> (r: usize)
        ensures
            r as nat == self.ctx().pre.len(),
    {
        self.d.pre_state.len()
    }

    /// The number of post-mutation state slots.
    pub fn post_len(&self) -> (r: usize)
        ensures
            r as nat == self.ctx().post.len(),
    {
        self.d.post_state.len()
    }

    /// The pre-mutation state slot at `i`, if any.
    pub fn pre_slot(&self, i: usize) -> (r: Option<&Value>)
        ensures
            match r {
                Some(v) => (i as int) < self.ctx().pre.len() && v@ == self.ctx().pre[i as int],
                None => (i as int) >= self.ctx().pre.len(),
            },
    {
        if i < self.d.pre_state.len() {
            Some(&self.d.pre_state[i])
        } else {
            None
        }
    }

    /// The post-mutation state slot at `i`, if any.
    pub fn post_slot(&self, i: usize) -> (r: Option<&Value>)
        ensures
            match r {
                Some(v) => (i as int) < self.ctx().post.len() && v@ == self.ctx().post[i as int],
                None => (i as int) >= self.ctx().post.len(),
            },
    {
        if i < self.d.post_state.len() {
            Some(&self.d.post_state[i])
        } else {
            None
        }
    }

    /// The number of solution entries.
    pub fn data_count(&self) -> (r: usize)
        ensures
            r as nat == self.ctx().sol.data.len(),
    {
        self.d.solution.data.len()
    }


    /// The distinct keys of an entry's transient payloads, in first-use
    /// order; empty when the entry is out of range.
    #[verifier::loop_isolation(false)]
    #[verifier::spinoff_prover]
    pub fn transient_keys(&self, entry: usize) -> (r: Vec<Key>)
        ensures
            (entry as int) < self.ctx().sol.data.len() ==> keys_views(r@) == distinct_keys(
                self.ctx().sol.data[entry as int].transient_data,
            ),
            (entry as int) >= self.ctx().sol.data.len() ==> r@.len() == 0,
            forall|i: int, j: int| 0 <= i < j < r@.len() ==> r@[i]@ != r@[j]@,
            forall|i: int|
                0 <= i < r@.len() ==> transient_lookup(
                    self.ctx().sol,
                    entry as nat,
                    #[trigger] r@[i]@,
                ) is Some,
    {
        let mut r: Vec<Key> = Vec::new();
        if entry >= self.d.solution.data.len() {
            return r;
        }
        let muts = &self.d.solution.data[entry].transient_data;
        let ghost mv = self.ctx().sol.data[entry as int].transient_data;
        proof {
            assert(mv =~= muts.deep_view());
            assert(mv.take(0) =~= Seq::<MutationV>::empty());
            assert(keys_views(r@) =~= distinct_keys(mv.take(0)));
        }
        let mut i: usize = 0;
        while i < muts.len()
            invariant
                0 <= i <= muts@.len(),
                mv == muts.deep_view(),
                mv.len() == muts@.len(),
                keys_views(r@) == distinct_keys(mv.take(i as int)),
            decreases muts@.len() - i,
        {
            let key = &muts[i].key;
            let mut seen = false;
            let mut a: usize = 0;
            while a < r.len()
                invariant
                    0 <= a <= r@.len(),
                    seen <==> exists|b: int| 0 <= b < a && r@[b]@ == key@,
                decreases r@.len() - a,
            {
                if words_eq(r[a].as_slice(), key.as_slice()) {
                    seen = true;
                    proof {
                        assert(r@[a as int]@ == key@);
                    }
                    break ;
                }
                a += 1;
            }
            let ghost r0 = r@;
            proof {
                assert(mv[i as int].key == key@);
                assert(mv.take(i + 1).drop_last() =~= mv.take(i as int));
                assert(mv.take(i + 1).last() == mv[i as int]);
                assert(seen <==> keys_hold(keys_views(r0), key@)) by {
                    if seen {
                        let b = choose|b: int| 0 <= b < r0.len() && r0[b]@ == key@;
                        assert(keys_views(r0)[b] == key@);
                    }
                    if keys_hold(keys_views(r0), key@) {
                        let b = choose|b: int|
                            0 <= b < keys_views(r0).len() && keys_views(r0)[b] == key@;
                        assert(r0[b]@ == key@);
                    }
                }
            }
            if !seen {
                r.push(clone_words(key));
                proof {
                    assert(keys_views(r@) =~= keys_views(r0).push(key@));
                }
            }
            i += 1;
        }
        proof {
            assert(mv.take(mv.len() as int) =~= mv);
            lemma_distinct_keys(mv);
            assert forall|i: int, j: int|
                0 <= i < j < r@.len() implies r@[i]@ != r@[j]@ by {
                assert(keys_views(r@)[i] == r@[i]@);
                assert(keys_views(r@)[j] == r@[j]@);
            }
            assert forall|i: int|
                0 <= i < r@.len() implies transient_lookup(
                self.ctx().sol,
                entry as nat,
                r@[i]@,
            ) is Some by {
                assert(keys_views(r@)[i] == r@[i]@);
                let b = choose|b: int| 0 <= b < mv.len() && distinct_keys(mv)[i] == mv[b].key;
                lemma_last_mut_present(mv, mv[b].key, b);
            }
        }
        r
    }

    /// The transient payload an entry supplies at a key: the last payload
    /// the entry declares for that key, if any.
    #[verifier::loop_isolation(false)]
    pub fn transient_value(&self, entry: usize, key: &Key) -> (r: Option<&Value>)
        ensures
            match r {
                Some(v) => transient_lookup(self.ctx().sol, entry as nat, key@) == Some(v@),
                None => transient_lookup(self.ctx().sol, entry as nat, key@) is None,
            },
    {
        if entry >= self.d.solution.data.len() {
            return None;
        }
        let muts = &self.d.solution.data[entry].transient_data;
        let ghost mv = self.ctx().sol.data[entry as int].transient_data;
        let mut j: usize = muts.len();
        proof {
            assert(mv =~= muts.deep_view());
            assert(mv.take(mv.len() as int) =~= mv);
        }
        while j > 0
            invariant
                0 <= j <= muts@.len(),
                mv == muts.deep_view(),
                mv.len() == muts@.len(),
                last_mut(mv.take(j as int), key@) == last_mut(mv, key@),
            decreases j,
        {
            proof {
                assert(mv.take(j as int).last() == mv[j - 1]);
                assert(mv.take(j as int).drop_last() =~= mv.take(j - 1));
            }
            if words_eq(muts[j - 1].key.as_slice(), key.as_slice()) {
                proof {
                    assert(mv[j - 1].key == key@);
                    assert(last_mut(mv.take(j as int), key@) == Some(mv[j - 1].value));
                }
                return Some(&muts[j - 1].value);
            }
            proof {
                assert(mv[j - 1].key != key@);
            }
            j -= 1;
        }
        proof {
            assert(mv.take(0) =~= Seq::<MutationV>::empty());
        }
        None
    }
}


/// A position shifted by a signed offset, clamped to the counter's range.
pub open spec fn clamp_pos(pos: nat, d: int) -> nat {
    if pos + d < 0 {
        0
    } else if pos + d > usize::MAX {
        usize::MAX as nat
    } else {
        (pos + d) as nat
    }
}

/// The listing of up to `len` operations from `at`: one line per operation,
/// the line `cur` positions in marked as current, ending early at the
/// program's end.
pub open spec fn window_lines(code: Seq<u8>, at: nat, len: nat, cur: int) -> Seq<char>
    decreases len,
{
    if len == 0 {
        Seq::empty()
    } else {
        match op_text_spec(code, at) {
            None => Seq::empty(),
            Some(t) => (if cur == 0 {
                "> Op: "@ + t + "\n"@
            } else {
                "Op: "@ + t + "\n"@
            }) + window_lines(code, at + 1, (len - 1) as nat, cur - 1),
        }
    }
}

impl Session {
    /// List the operations in a window around the current position: the
    /// window runs from `position + start` to `position + end` (clamped),
    /// one line per operation with the current position's operation marked.
    /// A window past the program's end leaves the output untouched.
    #[verifier::loop_isolation(false)]
    #[verifier::spinoff_prover]
    pub fn list(&self, start: isize, end: isize, out: &mut String)
        requires
            self.wf(),
        ensures
            ({
                let s = clamp_pos(self.position_v(), start as int);
                let e = clamp_pos(self.position_v(), end as int);
                let len: nat = if e > s {
                    (e - s) as nat
                } else {
                    0
                };
                let cur: int = if s <= self.position_v() < e {
                    self.position_v() - s
                } else {
                    -1
                };
                if op_text_spec(self.ctx().code, s) is None {
                    if s == 0 || !(op_text_spec(self.ctx().code, (s - 1) as nat) is None) {
                        final(out)@ == Seq::<char>::empty()
                    } else {
                        final(out)@ == old(out)@
                    }
                } else {
                    final(out)@ == window_lines(self.ctx().code, s, len, cur)
                }
            }),
    {
        let s_b = shift_clamped(self.pos, start);
        let e_b = shift_clamped(self.pos, end);
        let len = if e_b > s_b {
            e_b - s_b
        } else {
            0
        };
        let ghost cur: int = if s_b <= self.pos < e_b {
            self.pos - s_b
        } else {
            -1int
        };
        let window = match ops_window(&self.d.code, s_b, len) {
            None => {
                return ;
            },
            Some(v) => v,
        };
        let mut text = String::new();
        let mut i: usize = 0;
        proof {
            if op_text_spec(self.ctx().code, s_b as nat) is None {
                assert(window@.len() == 0) by {
                    if window@.len() > 0 {
                        assert(op_text_spec(self.ctx().code, (s_b + 0) as nat) == Some(
                            window@[0]@,
                        ));
                    }
                }
            }
        }
        while i < window.len()
            invariant
                0 <= i <= window@.len(),
                window@.len() <= len,
                forall|j: int|
                    0 <= j < window@.len() ==> op_text_spec(
                        self.ctx().code,
                        (s_b + j) as nat,
                    ) == Some(#[trigger] window@[j]@),
                window@.len() < len ==> op_text_spec(
                    self.ctx().code,
                    (s_b + window@.len()) as nat,
                ) is None,
                cur == (if s_b <= self.pos < e_b {
                    self.pos - s_b
                } else {
                    -1int
                }),
                len == (if e_b > s_b {
                    e_b - s_b
                } else {
                    0
                }),
                text@ + window_lines(self.ctx().code, (s_b + i) as nat, (len - i) as nat, cur - i)
                    == window_lines(self.ctx().code, s_b as nat, len as nat, cur),
            decreases window@.len() - i,
        {
            if i == self.pos.wrapping_sub(s_b) && s_b <= self.pos && self.pos < e_b {
                text.append("> Op: ");
            } else {
                text.append("Op: ");
            }
            text.append(window[i].as_str());
            text.append("\n");
            proof {
                assert(text@ + window_lines(
                    self.ctx().code,
                    (s_b + i + 1) as nat,
                    (len - i - 1) as nat,
                    cur - i - 1,
                ) =~= window_lines(self.ctx().code, s_b as nat, len as nat, cur));
            }
            i += 1;
        }
        proof {
            if window@.len() < len {
                assert(window_lines(
                    self.ctx().code,
                    (s_b + window@.len()) as nat,
                    (len - window@.len()) as nat,
                    cur - window@.len(),
                ) == Seq::<char>::empty());
            }
            assert(text@ + Seq::<char>::empty() =~= text@);
        }
        *out = text;
    }
}

/// `pos` shifted by `d`, clamped to the counter's range.
fn shift_clamped(pos: usize, d: isize) -> (r: usize)
    ensures
        r as nat == clamp_pos(pos as nat, d as int),
{
    if d >= 0 {
        match pos.checked_add(d as usize) {
            Some(v) => v,
            None => usize::MAX,
        }
    } else {
        let mag: usize = if d == isize::MIN {
            (isize::MAX as usize) + 1
        } else {
            (-d) as usize
        };
        if pos >= mag {
            pos - mag
        } else {
            0
        }
    }
}


/// The command summary shown by the prompt.
pub fn help_msg() -> (r: String)
    ensures
        r@ == "Commands:\n    n | next: Step forward\n    b | back: Step back\n    p | play [i]: Play to ith op\n    e | end: Play till end or error is hit\n    l | list [start] [end]: List ops from start to end\n    s | show: Show transient data, pre state, or post state\n    t | type <i> [type]: Parse the ith word in the stack as the given type. See `help type` for more info.\n    q | quit | exit: Quit\n    h | help: Show this message\n    "@,
{
    let mut s = String::new();
    s.append(
        "Commands:\n    n | next: Step forward\n    b | back: Step back\n    p | play [i]: Play to ith op\n    e | end: Play till end or error is hit\n    l | list [start] [end]: List ops from start to end\n    s | show: Show transient data, pre state, or post state\n    t | type <i> [type]: Parse the ith word in the stack as the given type. See `help type` for more info.\n    q | quit | exit: Quit\n    h | help: Show this message\n    ",
    );
    s
}

/// The type-expression summary shown by the prompt.
pub fn types_msg() -> (r: String)
    ensures
        r@ == "Primitives: int, bool, b256\n    Arrays: primitive[] (e.g. int[])\n    Tuple: { primitive, primitive, ... } (e.g. {int, bool, b256})\n    Note that nesting types is not currently supported.\n    To parse a section of the stack as a type, use `t <i> [type]` \n    e.g. `t 1 int[2]` to parse the second and third word as ints.\n    `b256` is always printed as hex. \n    You can force hex formatting by adding `HEX` to the end of the command.\n    e.g. `t 1 int HEX`\n    "@,
{
    let mut s = String::new();
    s.append(
        "Primitives: int, bool, b256\n    Arrays: primitive[] (e.g. int[])\n    Tuple: { primitive, primitive, ... } (e.g. {int, bool, b256})\n    Note that nesting types is not currently supported.\n    To parse a section of the stack as a type, use `t <i> [type]` \n    e.g. `t 1 int[2]` to parse the second and third word as ints.\n    `b256` is always printed as hex. \n    You can force hex formatting by adding `HEX` to the end of the command.\n    e.g. `t 1 int HEX`\n    ",
    );
    s
}

/// The last transient payload declared for a key, scanning the declarations
/// in order and letting later ones win.
pub open spec fn last_mut(ms: Seq<MutationV>, k: Seq<Word>) -> Option<Seq<Word>>
    decreases ms.len(),
{
    if ms.len() == 0 {
        None
    } else if ms.last().key == k {
        Some(ms.last().value)
    } else {
        last_mut(ms.drop_last(), k)
    }
}



/// The word sequences a vector of keys holds.
pub open spec fn keys_views(r: Seq<Key>) -> Seq<Seq<Word>> {
    Seq::new(r.len(), |i: int| r[i]@)
}

/// Whether a key sequence holds the given key.
pub open spec fn keys_hold(ks: Seq<Seq<Word>>, k: Seq<Word>) -> bool {
    exists|i: int| 0 <= i < ks.len() && ks[i] == k
}

/// The distinct keys of the payloads, in first-use order: scanning left to
/// right, a key joins the list the first time it appears.
pub open spec fn distinct_keys(ms: Seq<MutationV>) -> Seq<Seq<Word>>
    decreases ms.len(),
{
    if ms.len() == 0 {
        Seq::empty()
    } else {
        let p = distinct_keys(ms.drop_last());
        if keys_hold(p, ms.last().key) {
            p
        } else {
            p.push(ms.last().key)
        }
    }
}

/// The distinct keys are pairwise distinct and each comes from some payload.
proof fn lemma_distinct_keys(ms: Seq<MutationV>)
    ensures
        forall|a: int, b: int|
            0 <= a < b < distinct_keys(ms).len() ==> distinct_keys(ms)[a] != distinct_keys(ms)[b],
        forall|a: int|
            0 <= a < distinct_keys(ms).len() ==> exists|i: int|
                0 <= i < ms.len() && #[trigger] distinct_keys(ms)[a] == ms[i].key,
    decreases ms.len(),
{
    if ms.len() > 0 {
        let t = ms.drop_last();
        lemma_distinct_keys(t);
        let p = distinct_keys(t);
        assert forall|a: int|
            0 <= a < distinct_keys(ms).len() implies exists|i: int|
            0 <= i < ms.len() && #[trigger] distinct_keys(ms)[a] == ms[i].key by {
            if a < p.len() {
                let i = choose|i: int| 0 <= i < t.len() && p[a] == t[i].key;
                assert(distinct_keys(ms)[a] == ms[i].key);
            } else {
                assert(distinct_keys(ms)[a] == ms[ms.len() - 1].key);
            }
        }
    }
}

/// A key some payload declares always has a transient value.
proof fn lemma_last_mut_present(ms: Seq<MutationV>, k: Seq<Word>, b: int)
    requires
        0 <= b < ms.len(),
        ms[b].key == k,
    ensures
        last_mut(ms, k) is Some,
    decreases ms.len(),
{
    if ms.last().key != k {
        assert(b < ms.len() - 1);
        lemma_last_mut_present(ms.drop_last(), k, b);
    }
}

/// The transient payload entry `ix` supplies at key `k`, if any.
pub open spec fn transient_lookup(sol: SolutionV, ix: nat, k: Seq<Word>) -> Option<Seq<Word>> {
    if ix < sol.data.len() {
        last_mut(sol.data[ix as int].transient_data, k)
    } else {
        None
    }
}

/// Replay determinism: a seek replays from the fresh machine, so seeking a
/// position, stepping back, and seeking the same position again restores
/// exactly the machine and position the first seek produced. The middle
/// replay cannot interfere: every seek resets the machine first, and the
/// frozen context never changes.
pub proof fn lemma_replay_deterministic(ctx: CtxV, k: usize)
    ensures
        ({
            let steps: nat = if k == 0 {
                1
            } else {
                k as nat
            };
            let first = run_steps(ctx, fresh_machine(), 0, steps);
            let back_steps: nat = if first.1 <= 2 {
                1
            } else {
                (first.1 - 1) as nat
            };
            let stepped_back = run_steps(ctx, fresh_machine(), 0, back_steps);
            let again = run_steps(ctx, fresh_machine(), 0, steps);
            again == first
        }),
{
}

/// Monotonic position: while every stepping call reports a step, the
/// position after `n` calls from the fresh machine is exactly `n`, and the
/// machine (its program counter included) is exactly the direct `n`-step
/// replay.
pub proof fn lemma_monotonic_position(ctx: CtxV, n: nat)
    requires
        run_steps(ctx, fresh_machine(), 0, n).2 is Step,
    ensures
        run_steps(ctx, fresh_machine(), 0, n).1 == n,
        run_steps(ctx, fresh_machine(), 0, n).0 == replay(ctx, n),
{
    lemma_run_steps_counts(ctx, 0, n);
}

/// While every call steps, a run of `n` calls from the replay state at
/// position `p` lands on the replay state at position `p + n`.
proof fn lemma_run_steps_counts(ctx: CtxV, p: nat, n: nat)
    requires
        run_steps(ctx, replay(ctx, p), p, n).2 is Step,
    ensures
        run_steps(ctx, replay(ctx, p), p, n).1 == p + n,
        run_steps(ctx, replay(ctx, p), p, n).0 == replay(ctx, p + n),
    decreases n,
{
    if n > 0 {
        let m = replay(ctx, p);
        let (m2, pos2, ov) = sess_step(ctx, m, p);
        assert(ov is Step);
        assert(m2 == machine_after_step(ctx, m));
        assert(replay(ctx, p + 1) == machine_after_step(ctx, replay(ctx, p)));
        assert(m2 == replay(ctx, p + 1));
        assert(pos2 == p + 1);
        lemma_run_steps_counts(ctx, p + 1, (n - 1) as nat);
    }
}


} // verus!
