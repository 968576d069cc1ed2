//! What holds of every program and every state of the machine.

use vstd::prelude::*;
use crate::program::{
    InstructionView,
    LabelView,
    Opcode,
    OperandView,
    reference_resolves,
    well_formed,
};
use crate::runtime::{
    Action,
    awaits_input,
    Fault,
    jump_taken,
    MachineView,
    operand_value,
    run_spec,
    RuntimeErrorKind,
    step_spec,
    Stop,
};

verus! {

/// A value stored in a cell is the value the cell then stands for, and the
/// other cells stand for what they stood for before.
pub proof fn lemma_store_then_read(s: MachineView, cell: u8, v: i32, other: u8)
    requires
        s.memory.len() == 26,
        cell < 26,
        other < 26,
    ensures
        operand_value(OperandView::Address(cell), s.store(cell as int, v).memory) == Some(v),
        other != cell ==> operand_value(OperandView::Address(other), s.store(cell as int, v).memory)
            == operand_value(OperandView::Address(other), s.memory),
{
}

/// Storing the accumulator in a cell and loading the cell in the next
/// instruction gives the accumulator its value back, whatever the
/// accumulator held in between: after `st x` the cell holds the value, and
/// after `ld x` so does the accumulator.
pub proof fn lemma_store_load_round_trip(
    program: Seq<InstructionView>,
    labels: Seq<LabelView>,
    s: MachineView,
    cell: u8,
    between: i32,
)
    requires
        s.memory.len() == 26,
        cell < 26,
        s.program_counter + 1 < program.len(),
        program[s.program_counter as int].opcode == Opcode::Store,
        program[s.program_counter as int].operand == OperandView::Address(cell),
        program[s.program_counter as int + 1].opcode == Opcode::Load,
        program[s.program_counter as int + 1].operand == OperandView::Address(cell),
    ensures
        match step_spec(program, labels, s, None) {
            Ok((stored, action)) => {
                &&& action == Action::Continue
                &&& stored.memory[cell as int] == s.accumulator
                &&& match step_spec(program, labels, stored.load(between), None) {
                    Ok((loaded, action)) => {
                        &&& action == Action::Continue
                        &&& loaded.accumulator == s.accumulator
                        &&& loaded.memory == stored.memory
                    },
                    Err(_) => false,
                }
            },
            Err(_) => false,
        },
{
}

/// `div` and `mod` with an operand that stands for zero fail with
/// `DivisionByZero` at the line of the instruction.
pub proof fn lemma_division_by_zero(
    program: Seq<InstructionView>,
    labels: Seq<LabelView>,
    s: MachineView,
    input: Option<i32>,
)
    requires
        s.program_counter < program.len(),
        program[s.program_counter as int].opcode == Opcode::Div
            || program[s.program_counter as int].opcode == Opcode::Mod,
        operand_value(program[s.program_counter as int].operand, s.memory) == Some(0i32),
    ensures
        step_spec(program, labels, s, input) == Err::<(MachineView, Action), Fault>(
            Fault {
                kind: RuntimeErrorKind::DivisionByZero,
                line: program[s.program_counter as int].source_line,
            },
        ),
{
}

/// A jump that is taken to an immediate index that is no index of the
/// program fails with `JumpOutOfRange` at the line of the instruction.
pub proof fn lemma_jump_out_of_range(
    program: Seq<InstructionView>,
    labels: Seq<LabelView>,
    s: MachineView,
    input: Option<i32>,
    n: i32,
)
    requires
        s.program_counter < program.len(),
        jump_taken(program[s.program_counter as int].opcode, s.flag),
        program[s.program_counter as int].operand == OperandView::Immediate(n),
        n < 0 || n >= program.len(),
    ensures
        step_spec(program, labels, s, input) == Err::<(MachineView, Action), Fault>(
            Fault {
                kind: RuntimeErrorKind::JumpOutOfRange,
                line: program[s.program_counter as int].source_line,
            },
        ),
{
}

/// A step never changes the number of memory cells.
pub proof fn lemma_step_keeps_cells(
    program: Seq<InstructionView>,
    labels: Seq<LabelView>,
    s: MachineView,
    input: Option<i32>,
)
    requires
        s.memory.len() == 26,
    ensures
        step_spec(program, labels, s, input) matches Ok((next, _)) ==> next.memory.len() == 26,
{
}

/// On a well-formed program, a step from an instruction of the program
/// leads to an instruction of the program, and if it fails, then not for
/// want of an instruction or of a label.
pub proof fn lemma_step_well_formed(
    program: Seq<InstructionView>,
    labels: Seq<LabelView>,
    s: MachineView,
    input: Option<i32>,
)
    requires
        well_formed(program, labels),
        s.program_counter < program.len(),
    ensures
        match step_spec(program, labels, s, input) {
            Ok((next, _)) => next.program_counter < program.len(),
            Err(fault) => fault.kind != RuntimeErrorKind::UnknownOpcode && fault.kind
                != RuntimeErrorKind::UnresolvedLabel,
        },
{
    let instr = program[s.program_counter as int];
    assert(reference_resolves(instr, labels));
}

/// A run of a well-formed program from one of its instructions never fails
/// for want of an instruction or of a label.
pub proof fn lemma_run_well_formed(
    program: Seq<InstructionView>,
    labels: Seq<LabelView>,
    s: MachineView,
    input: Seq<i32>,
    output: Seq<i32>,
    steps: nat,
)
    requires
        well_formed(program, labels),
        s.program_counter < program.len(),
    ensures
        run_spec(program, labels, s, input, output, steps).end matches Err(fault) ==> fault.kind
            != RuntimeErrorKind::UnknownOpcode && fault.kind != RuntimeErrorKind::UnresolvedLabel,
    decreases steps,
{
    if steps > 0 {
        let offered = if input.len() > 0 {
            Some(input[0])
        } else {
            None
        };
        lemma_step_well_formed(program, labels, s, offered);
        match step_spec(program, labels, s, offered) {
            Ok((next, Action::Output(v))) => {
                lemma_run_well_formed(
                    program,
                    labels,
                    next,
                    input,
                    output.push(v),
                    (steps - 1) as nat,
                );
            },
            Ok((next, Action::Continue)) => {
                let unread = if awaits_input(program, s) {
                    input.drop_first()
                } else {
                    input
                };
                lemma_run_well_formed(program, labels, next, unread, output, (steps - 1) as nat);
            },
            _ => {},
        }
    }
}

/// The step limit only cuts a run short: a run that ends within `steps`
/// steps ends in the same way, with the same output, under any larger limit.
pub proof fn lemma_run_within_limit(
    program: Seq<InstructionView>,
    labels: Seq<LabelView>,
    s: MachineView,
    input: Seq<i32>,
    output: Seq<i32>,
    steps: nat,
    more: nat,
)
    requires
        steps <= more,
        run_spec(program, labels, s, input, output, steps).end != Ok::<Stop, Fault>(
            Stop::StepLimit,
        ),
    ensures
        run_spec(program, labels, s, input, output, more) == run_spec(
            program,
            labels,
            s,
            input,
            output,
            steps,
        ),
    decreases steps,
{
    if steps > 0 {
        let offered = if input.len() > 0 {
            Some(input[0])
        } else {
            None
        };
        match step_spec(program, labels, s, offered) {
            Ok((next, Action::Output(v))) => {
                lemma_run_within_limit(
                    program,
                    labels,
                    next,
                    input,
                    output.push(v),
                    (steps - 1) as nat,
                    (more - 1) as nat,
                );
            },
            Ok((next, Action::Continue)) => {
                let unread = if awaits_input(program, s) {
                    input.drop_first()
                } else {
                    input
                };
                lemma_run_within_limit(
                    program,
                    labels,
                    next,
                    unread,
                    output,
                    (steps - 1) as nat,
                    (more - 1) as nat,
                );
            },
            _ => {},
        }
    }
}

} // verus!
