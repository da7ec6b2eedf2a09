//! The trusted boundary to the constraint virtual machine: declarations of
//! the VM's types, names for their contents, and wrappers around the calls
//! the stepping engine makes. Everything else in the crate is verified
//! against the contracts stated here.

use vstd::prelude::*;

use essential_constraint_asm::Op;
use essential_types::{solution, ContentAddress, PredicateAddress};
use essential_constraint_vm::Stack as VmStack;
use essential_constraint_vm::{
    mut_keys_set, step_op, transient_data, Access, BytecodeMapped, Memory, ProgramControlFlow,
    Repeat, SolutionAccess, StateSlots,
};

use crate::model::{SolutionV, Word};

verus! {

/// The VM's solution type, opaque to verification.
#[verifier::external_type_specification]
#[verifier::external_body]
pub struct ExVmSolution(essential_types::solution::Solution);

/// One decoded constraint operation, opaque to verification.
#[verifier::external_type_specification]
#[verifier::external_body]
pub struct ExOp(Op);

/// The VM's scratch memory, opaque to verification.
#[verifier::external_type_specification]
#[verifier::external_body]
pub struct ExMemory(Memory);

/// The VM's repeat-counter stack, opaque to verification.
#[verifier::external_type_specification]
#[verifier::external_body]
pub struct ExRepeat(Repeat);

/// Bytecode mapped to operation boundaries, opaque to verification.
#[verifier::external_type_specification]
#[verifier::external_body]
#[verifier::reject_recursive_types(O)]
#[verifier::reject_recursive_types(B)]
pub struct ExBytecodeMapped<O, B>(BytecodeMapped<O, B>);

/// The solution entries a VM solution value holds, as the model's view.
pub uninterp spec fn sol_view(s: essential_types::solution::Solution) -> SolutionV;

/// The bytecode bytes a mapped program was built from.
pub uninterp spec fn code_bytes(c: BytecodeMapped<Op, Vec<u8>>) -> Seq<u8>;

/// Whether a byte sequence decodes as well-formed constraint bytecode.
pub uninterp spec fn code_decodes(bytes: Seq<u8>) -> bool;

/// The words a VM memory value holds.
pub uninterp spec fn mem_words(m: Memory) -> Seq<Word>;

/// One repeat-counter slot: its counter, direction, limit and location.
pub struct RepeatSlotV {
    /// The current counter value.
    pub counter: int,
    /// Whether the counter counts up to a limit (else down to zero).
    pub counts_up: bool,
    /// The limit counted up to, when counting up.
    pub limit: int,
    /// The program counter the repeat returns to.
    pub location: nat,
}

/// The repeat slots a VM repeat stack holds, bottom first.
pub uninterp spec fn repeat_slots(r: Repeat) -> Seq<RepeatSlotV>;

/// The rendering of the operation at a program counter, a function of the
/// mapped bytes and the counter alone; `None` past the last operation.
pub uninterp spec fn op_text_spec(code: Seq<u8>, pc: nat) -> Option<Seq<char>>;

/// The rendering of a memory value, a function of its words alone.
pub uninterp spec fn mem_text_spec(mem: Seq<Word>) -> Seq<char>;

/// What one execution step leaves behind and reports.
pub enum StepOutcomeV {
    /// The operation completed; execution advances to the next counter.
    Advance,
    /// The operation completed and set the program counter.
    Jump(nat),
    /// The operation halted the program.
    Halt,
    /// The operation's execution rule was violated; the rendering of the
    /// fault is retained.
    Fault(Seq<char>),
    /// No operation exists at the program counter.
    End,
}

/// The machine contents and outcome one execution step leaves: a function of
/// the code, counter, solution contents, state slots and machine contents.
pub struct StepResultV {
    /// The operand stack after the step.
    pub stack: Seq<Word>,
    /// The scratch memory after the step.
    pub memory: Seq<Word>,
    /// The repeat stack after the step.
    pub repeat: Seq<RepeatSlotV>,
    /// What the step reported.
    pub outcome: StepOutcomeV,
}

/// What executing one operation leaves and reports, as a function of the
/// mapped code, program counter, solution contents, debug index, state
/// slots, and machine contents. The VM's step is deterministic in exactly
/// these inputs.
pub uninterp spec fn step_spec(
    code: Seq<u8>,
    pc: nat,
    sol: SolutionV,
    index: nat,
    pre: Seq<Seq<Word>>,
    post: Seq<Seq<Word>>,
    stack: Seq<Word>,
    memory: Seq<Word>,
    repeat: Seq<RepeatSlotV>,
) -> StepResultV;

/// What one execution step reported, in executable form.
pub enum StepRaw {
    /// The operation completed; advance the program counter.
    Advance,
    /// The operation completed and set the program counter.
    Jump(usize),
    /// The operation halted the program.
    Halt,
    /// The operation's execution rule was violated.
    Fault(String),
    /// No operation exists at the program counter.
    End,
}

/// Build a VM solution from the model.
///
/// Relies on the `essential_types` solution structs holding exactly the
/// fields they are built from: the result's contents are the model's view.
#[verifier::external_body]
pub(crate) fn make_solution(m: &crate::model::SolutionModel) -> (r:
    essential_types::solution::Solution)
    ensures
        sol_view(r) == m.deep_view(),
{
    let conv = |ms: &Vec<crate::model::Mutation>| -> Vec<solution::Mutation> { ms.iter().map(|t| solution::Mutation { key: t.key.clone(), value: t.value.clone() }).collect() };
    let data = m.data.iter().map(|e| solution::SolutionData {
        predicate_to_solve: PredicateAddress { contract: ContentAddress(e.predicate_to_solve.contract), predicate: ContentAddress(e.predicate_to_solve.predicate) },
        decision_variables: e.decision_variables.clone(),
        transient_data: conv(&e.transient_data),
        state_mutations: conv(&e.state_mutations),
    }).collect();
    solution::Solution { data }
}

/// Map constraint bytecode to operation boundaries.
///
/// Relies on `BytecodeMapped::try_from_bytes`: mapping succeeds exactly on
/// well-formed bytecode, and the mapped program keeps the given bytes.
#[verifier::external_body]
pub(crate) fn map_bytecode(bytes: &Vec<u8>) -> (r: Result<BytecodeMapped<Op, Vec<u8>>, String>)
    ensures
        r is Ok <==> code_decodes(bytes@),
        r matches Ok(c) ==> code_bytes(c) == bytes@,
{
    match BytecodeMapped::try_from_bytes(bytes.clone()) {
        Ok(c) => Ok(c),
        Err(e) => Err(format!("{:?}", e)),
    }
}

/// A fresh, empty VM memory.
///
/// Relies on `Memory::new`: the fresh memory holds no words.
#[verifier::external_body]
pub(crate) fn memory_new() -> (r: Memory)
    ensures
        mem_words(r) == Seq::<Word>::empty(),
{
    Memory::new()
}

/// A fresh, empty repeat stack.
///
/// Relies on `Repeat::new`: the fresh repeat stack holds no slots.
#[verifier::external_body]
pub(crate) fn repeat_new() -> (r: Repeat)
    ensures
        repeat_slots(r) == Seq::<RepeatSlotV>::empty(),
{
    Repeat::new()
}

/// The rendering of the operation at `pc`, if one exists.
///
/// Relies on `BytecodeMapped::op` and on `Debug` formatting of operations:
/// the operation at an index is a function of the mapped bytes and the index
/// alone, present exactly for indices below the operation count (which fits
/// in `usize` because each operation occupies at least one mapped byte).
#[verifier::external_body]
pub(crate) fn op_text(code: &BytecodeMapped<Op, Vec<u8>>, pc: usize) -> (r: Option<String>)
    ensures
        match r {
            Some(s) => op_text_spec(code_bytes(*code), pc as nat) == Some(s@) && pc < usize::MAX,
            None => op_text_spec(code_bytes(*code), pc as nat) is None,
        },
{
    code.op(pc).map(|op| format!("{:?}", op))
}

/// The renderings of up to `len` operations starting at `start`; `None`
/// exactly when `start` lies past one-past-the-end.
///
/// Relies on `BytecodeMapped::ops_from` and the slice's `ops` iterator: the
/// window holds the operations at `start`, `start + 1`, ... in order, ending
/// early only at the program's end; `ops_from` answers for every start up to
/// and including the operation count, and refuses starts beyond it.
#[verifier::external_body]
pub(crate) fn ops_window(code: &BytecodeMapped<Op, Vec<u8>>, start: usize, len: usize) -> (r:
    Option<Vec<String>>)
    ensures
        match r {
            Some(v) => {
                &&& v@.len() <= len
                &&& forall|i: int|
                    0 <= i < v@.len() ==> op_text_spec(code_bytes(*code), (start + i) as nat)
                        == Some(#[trigger] v@[i]@)
                &&& (v@.len() < len ==> op_text_spec(
                    code_bytes(*code),
                    (start + v@.len()) as nat,
                ) is None)
                &&& (start == 0 || !(op_text_spec(code_bytes(*code), (start - 1) as nat) is None))
            },
            None => {
                &&& op_text_spec(code_bytes(*code), start as nat) is None
                &&& start >= 1
                &&& op_text_spec(code_bytes(*code), (start - 1) as nat) is None
            },
        },
{
    code.ops_from(start).map(|ops| ops.ops().take(len).map(|op| format!("{:?}", op)).collect())
}

/// The rendering of the machine's scratch memory.
///
/// Relies on `Debug` formatting of `Memory`: the rendering is a function of
/// the memory's words alone.
#[verifier::external_body]
pub(crate) fn mem_text(m: &Memory) -> (r: String)
    ensures
        r@ == mem_text_spec(mem_words(*m)),
{
    format!("{:?}", m)
}

/// Execute the operation at `pc` against the machine and context.
///
/// Relies on `essential_constraint_vm::step_op`, with `mut_keys_set`,
/// `transient_data` and `SolutionAccess::new` deriving the access it is
/// given: one step reads nothing but the mapped code, the counter, the
/// solution's contents, the state slots and the machine's contents, and its
/// effect and outcome are the named function of exactly those. The debug
/// index must address a solution entry, as the access derivation indexes it.
#[verifier::external_body]
pub(crate) fn vm_step(
    code: &BytecodeMapped<Op, Vec<u8>>,
    pc: usize,
    sol: &essential_types::solution::Solution,
    index: u16,
    pre: &Vec<Vec<Word>>,
    post: &Vec<Vec<Word>>,
    stack: &mut Vec<Word>,
    memory: &mut Memory,
    repeat: &mut Repeat,
) -> (r: StepRaw)
    requires
        (index as int) < sol_view(*sol).data.len(),
    ensures
        ({
            let out = step_spec(
                code_bytes(*code),
                pc as nat,
                sol_view(*sol),
                index as nat,
                pre.deep_view(),
                post.deep_view(),
                old(stack)@,
                mem_words(*old(memory)),
                repeat_slots(*old(repeat)),
            );
            &&& final(stack)@ == out.stack
            &&& mem_words(*final(memory)) == out.memory
            &&& repeat_slots(*final(repeat)) == out.repeat
            &&& match r {
                StepRaw::Advance => out.outcome == StepOutcomeV::Advance && pc < usize::MAX,
                StepRaw::Jump(p) => out.outcome == StepOutcomeV::Jump(p as nat),
                StepRaw::Halt => out.outcome == StepOutcomeV::Halt,
                StepRaw::Fault(m) => out.outcome == StepOutcomeV::Fault(m@),
                StepRaw::End => out.outcome == StepOutcomeV::End,
            }
            &&& (r is End <==> op_text_spec(code_bytes(*code), pc as nat) is None)
        }),
{
    let mk = mut_keys_set(sol, index);
    let td = transient_data(sol);
    let access = Access { solution: SolutionAccess::new(sol, index, &mk, &td), state_slots: StateSlots { pre: pre.as_slice(), post: post.as_slice() } };
    let op = match code.op(pc) { Some(op) => op, None => return StepRaw::End };
    let mut stk: VmStack = core::mem::take(stack).into();
    let res = step_op(access, op, &mut stk, memory, pc, repeat);
    *stack = stk.into();
    match res {
        Ok(None) => StepRaw::Advance,
        Ok(Some(ProgramControlFlow::Pc(p))) => StepRaw::Jump(p),
        Ok(Some(ProgramControlFlow::Halt)) => StepRaw::Halt,
        Err(e) => StepRaw::Fault(format!("{:?}", e)),
    }
}

} // verus!
