//! The execution engine: machine state, the meaning of one instruction, and
//! the loop that runs a program against a prepared list of inputs.

use vstd::prelude::*;
use vstd::string::*;
use crate::program::{
    InstructionView,
    LabelTable,
    LabelView,
    MEMORY_CELLS,
    Opcode,
    Operand,
    OperandView,
    Program,
    resolve_spec,
    well_formed,
};
use crate::runtime::laws::lemma_run_well_formed;

pub mod laws;

verus! {

/// Outcome of comparing the accumulator with an operand.
#[derive(Clone, Copy, Debug, PartialEq, Eq, Structural)]
pub enum CmpResult {
    Greater,
    Equal,
    Less,
}

/// How `a` stands to `b`.
pub open spec fn compare_spec(a: int, b: int) -> CmpResult {
    if a < b {
        CmpResult::Less
    } else if a == b {
        CmpResult::Equal
    } else {
        CmpResult::Greater
    }
}

/// Stores in `flag` how `a` stands to `b`.
pub fn compare(a: i32, b: i32, flag: &mut CmpResult)
    ensures
        *final(flag) == compare_spec(a as int, b as int),
{
    if a < b {
        *flag = CmpResult::Less;
    } else if a == b {
        *flag = CmpResult::Equal;
    } else {
        *flag = CmpResult::Greater;
    }
}

/// The ways in which executing an instruction can fail.
#[derive(Clone, Copy, Debug, PartialEq, Eq, Structural)]
pub enum RuntimeErrorKind {
    /// The operand has a shape the opcode cannot use.
    InvalidOperandKind,
    /// `div` or `mod` with a divisor of zero.
    DivisionByZero,
    /// A jump to an index that is no instruction of the program.
    JumpOutOfRange,
    /// A jump to a label with no definition, or with several.
    UnresolvedLabel,
    /// The program counter points at no instruction.
    UnknownOpcode,
}

impl RuntimeErrorKind {
    /// The text that reports this kind of failure.
    pub open spec fn message(self) -> Seq<char> {
        match self {
            RuntimeErrorKind::InvalidOperandKind => "invalid operand kind"@,
            RuntimeErrorKind::DivisionByZero => "division by zero"@,
            RuntimeErrorKind::JumpOutOfRange => "jump out of range"@,
            RuntimeErrorKind::UnresolvedLabel => "unresolved label"@,
            RuntimeErrorKind::UnknownOpcode => "unknown function"@,
        }
    }

    /// The text that reports this kind of failure.
    pub fn describe(self) -> (s: String)
        ensures
            s@ == self.message(),
    {
        match self {
            RuntimeErrorKind::InvalidOperandKind => String::from_str("invalid operand kind"),
            RuntimeErrorKind::DivisionByZero => String::from_str("division by zero"),
            RuntimeErrorKind::JumpOutOfRange => String::from_str("jump out of range"),
            RuntimeErrorKind::UnresolvedLabel => String::from_str("unresolved label"),
            RuntimeErrorKind::UnknownOpcode => String::from_str("unknown function"),
        }
    }
}

/// A failure of the running program: what went wrong, the message for it,
/// and the source line of the instruction that failed (0 when the program
/// counter pointed at no instruction).
#[derive(Clone, Debug, PartialEq, Eq)]
pub struct RuntimeError {
    pub kind: RuntimeErrorKind,
    pub msg: String,
    pub line: usize,
}

/// Mathematical value of a [`RuntimeError`]: its kind and line.
pub struct Fault {
    pub kind: RuntimeErrorKind,
    pub line: nat,
}

impl View for RuntimeError {
    type V = Fault;

    open spec fn view(&self) -> Fault {
        Fault { kind: self.kind, line: self.line as nat }
    }
}

impl RuntimeError {
    /// The message is the one that belongs to the kind.
    pub open spec fn wf(&self) -> bool {
        self.msg@ == self.kind.message()
    }

    /// The error of the given kind at the given line.
    pub fn new(kind: RuntimeErrorKind, line: usize) -> (e: RuntimeError)
        ensures
            e@ == (Fault { kind, line: line as nat }),
            e.wf(),
    {
        RuntimeError { kind, msg: kind.describe(), line }
    }
}

/// The registers and memory of the machine.
#[derive(Clone, Copy, Debug, PartialEq, Eq)]
pub struct MachineState {
    pub memory: [i32; 26],
    pub accumulator: i32,
    pub flag: CmpResult,
    pub program_counter: usize,
}

/// Mathematical value of a [`MachineState`]; `memory` has 26 entries.
pub struct MachineView {
    pub memory: Seq<i32>,
    pub accumulator: i32,
    pub flag: CmpResult,
    pub program_counter: nat,
}

impl MachineView {
    /// The state every run starts in: all cells and the accumulator zero,
    /// the flag `Equal`, the program counter at the first instruction.
    pub open spec fn initial() -> MachineView {
        MachineView {
            memory: Seq::new(26, |i: int| 0i32),
            accumulator: 0,
            flag: CmpResult::Equal,
            program_counter: 0,
        }
    }

    /// The state with cell `a` holding `v`.
    pub open spec fn store(self, a: int, v: i32) -> MachineView {
        MachineView { memory: self.memory.update(a, v), ..self }
    }

    /// The state with the accumulator holding `v`.
    pub open spec fn load(self, v: i32) -> MachineView {
        MachineView { accumulator: v, ..self }
    }

    /// The state with the flag set to `flag`.
    pub open spec fn flagged(self, flag: CmpResult) -> MachineView {
        MachineView { flag, ..self }
    }

    /// The state with the program counter at `target`.
    pub open spec fn at(self, target: nat) -> MachineView {
        MachineView { program_counter: target, ..self }
    }

    /// The state with the program counter at the following instruction.
    pub open spec fn advance(self) -> MachineView {
        self.at(self.program_counter + 1)
    }
}

impl View for MachineState {
    type V = MachineView;

    open spec fn view(&self) -> MachineView {
        MachineView {
            memory: self.memory@,
            accumulator: self.accumulator,
            flag: self.flag,
            program_counter: self.program_counter as nat,
        }
    }
}

impl MachineState {
    /// A machine in its initial state.
    pub fn new() -> (state: MachineState)
        ensures
            state@ == MachineView::initial(),
    {
        let state = MachineState {
            memory: [0i32; 26],
            accumulator: 0,
            flag: CmpResult::Equal,
            program_counter: 0,
        };
        assert(state@.memory =~= MachineView::initial().memory);
        state
    }
}

/// The 32-bit two's-complement value that agrees with `x` modulo 2^32.
pub open spec fn wrap32(x: int) -> i32 {
    let r = x % 0x1_0000_0000;
    if r > i32::MAX {
        (r - 0x1_0000_0000) as i32
    } else {
        r as i32
    }
}

/// Quotient of `a` by `b`, rounded toward zero (`b` is not zero).
pub open spec fn trunc_div(a: int, b: int) -> int {
    if a >= 0 && b > 0 {
        a / b
    } else if a >= 0 {
        -(a / (-b))
    } else if b > 0 {
        -((-a) / b)
    } else {
        (-a) / (-b)
    }
}

/// Remainder of `a` by `b` that goes with [`trunc_div`]: it has the sign of
/// `a` (`b` is not zero).
pub open spec fn trunc_rem(a: int, b: int) -> int {
    let m = if b > 0 {
        b
    } else {
        -b
    };
    if a >= 0 {
        a % m
    } else {
        -((-a) % m)
    }
}

/// The accumulator after an arithmetic opcode has combined `acc` with `v`:
/// the exact result wrapped to 32 bits, or `None` for a division or
/// remainder by zero. Other opcodes leave the accumulator as it is.
pub open spec fn arith_spec(opcode: Opcode, acc: i32, v: i32) -> Option<i32> {
    match opcode {
        Opcode::Add => Some(wrap32(acc + v)),
        Opcode::Sub => Some(wrap32(acc - v)),
        Opcode::Mul => Some(wrap32(acc * v)),
        Opcode::Div => if v == 0 {
            None
        } else {
            Some(wrap32(trunc_div(acc as int, v as int)))
        },
        Opcode::Mod => if v == 0 {
            None
        } else {
            Some(wrap32(trunc_rem(acc as int, v as int)))
        },
        _ => Some(acc),
    }
}

/// Combines the accumulator `acc` with the operand value `v` as `opcode`
/// asks; `None` reports a division or remainder by zero.
pub fn arith(opcode: Opcode, acc: i32, v: i32) -> (r: Option<i32>)
    ensures
        r == arith_spec(opcode, acc, v),
{
    match opcode {
        Opcode::Add => Some(acc.wrapping_add(v)),
        Opcode::Sub => Some(acc.wrapping_sub(v)),
        Opcode::Mul => Some(acc.wrapping_mul(v)),
        Opcode::Div => {
            if v == 0 {
                None
            } else {
                proof {
                    lemma_trunc_div_rem(acc as int, v as int);
                }
                match acc.checked_div(v) {
                    Some(q) => Some(q),
                    None => Some(i32::MIN),
                }
            }
        },
        Opcode::Mod => {
            if v == 0 {
                None
            } else {
                proof {
                    lemma_trunc_div_rem(acc as int, v as int);
                }
                match acc.checked_rem(v) {
                    Some(q) => Some(q),
                    None => Some(0),
                }
            }
        },
        _ => Some(acc),
    }
}

/// What the driver of the machine has to do after a step.
#[derive(Clone, Copy, Debug, PartialEq, Eq, Structural)]
pub enum Action {
    /// Nothing: take the next step.
    Continue,
    /// Hand the value to the output sink, then take the next step.
    Output(i32),
    /// The instruction reads a value and none was offered: the state is
    /// unchanged, and the step is to be taken again with a value.
    AwaitInput,
    /// The program has reached `End`.
    Halt,
}

/// The value an operand stands for: an immediate stands for itself, the
/// address of a memory cell for what the cell holds. Other operands have no
/// value.
pub open spec fn operand_value(operand: OperandView, memory: Seq<i32>) -> Option<i32> {
    match operand {
        OperandView::Immediate(n) => Some(n),
        OperandView::Address(a) => if a < MEMORY_CELLS {
            Some(memory[a as int])
        } else {
            None
        },
        _ => None,
    }
}

/// The cell an operand names, if it is the address of a memory cell.
pub open spec fn operand_cell(operand: OperandView) -> Option<int> {
    match operand {
        OperandView::Address(a) => if a < MEMORY_CELLS {
            Some(a as int)
        } else {
            None
        },
        _ => None,
    }
}

/// Where a jump with `operand` leads in a program of `len` instructions:
/// an immediate is the index itself, a label reference the index that the
/// one definition of the name binds. Either must be an index of the program.
pub open spec fn jump_target(operand: OperandView, labels: Seq<LabelView>, len: nat) -> Result<
    nat,
    RuntimeErrorKind,
> {
    match operand {
        OperandView::Immediate(n) => if 0 <= n < len {
            Ok(n as nat)
        } else {
            Err(RuntimeErrorKind::JumpOutOfRange)
        },
        OperandView::LabelRef(name) => match resolve_spec(labels, name) {
            Some(index) => if index < len {
                Ok(index)
            } else {
                Err(RuntimeErrorKind::JumpOutOfRange)
            },
            None => Err(RuntimeErrorKind::UnresolvedLabel),
        },
        _ => Err(RuntimeErrorKind::InvalidOperandKind),
    }
}

/// Whether a jump opcode transfers control under `flag`.
pub open spec fn jump_taken(opcode: Opcode, flag: CmpResult) -> bool {
    match opcode {
        Opcode::Jump => true,
        Opcode::JumpIfLess => flag == CmpResult::Less,
        Opcode::JumpIfEqual => flag == CmpResult::Equal,
        Opcode::JumpIfGreater => flag == CmpResult::Greater,
        _ => false,
    }
}

/// The effect of `instr` on state `s` in a program of `len` instructions:
/// the next state and what the driver has to do, or the kind of failure.
/// `input` is the value offered to an `Input` instruction; every other
/// instruction ignores it.
pub open spec fn execute(
    instr: InstructionView,
    labels: Seq<LabelView>,
    len: nat,
    s: MachineView,
    input: Option<i32>,
) -> Result<(MachineView, Action), RuntimeErrorKind> {
    match instr.opcode {
        Opcode::End => Ok((s, Action::Halt)),
        Opcode::Store => match operand_cell(instr.operand) {
            Some(a) => Ok((s.store(a, s.accumulator).advance(), Action::Continue)),
            None => Err(RuntimeErrorKind::InvalidOperandKind),
        },
        Opcode::Input => match operand_cell(instr.operand) {
            Some(a) => match input {
                Some(v) => Ok((s.store(a, v).advance(), Action::Continue)),
                None => Ok((s, Action::AwaitInput)),
            },
            None => Err(RuntimeErrorKind::InvalidOperandKind),
        },
        Opcode::Jump | Opcode::JumpIfLess | Opcode::JumpIfEqual | Opcode::JumpIfGreater => {
            if jump_taken(instr.opcode, s.flag) {
                match jump_target(instr.operand, labels, len) {
                    Ok(target) => Ok((s.at(target), Action::Continue)),
                    Err(kind) => Err(kind),
                }
            } else {
                Ok((s.advance(), Action::Continue))
            }
        },
        _ => match operand_value(instr.operand, s.memory) {
            None => Err(RuntimeErrorKind::InvalidOperandKind),
            Some(v) => match instr.opcode {
                Opcode::Load => Ok((s.load(v).advance(), Action::Continue)),
                Opcode::Output => Ok((s.advance(), Action::Output(v))),
                Opcode::Compare => Ok(
                    (
                        s.flagged(compare_spec(s.accumulator as int, v as int)).advance(),
                        Action::Continue,
                    ),
                ),
                _ => match arith_spec(instr.opcode, s.accumulator, v) {
                    Some(r) => Ok((s.load(r).advance(), Action::Continue)),
                    None => Err(RuntimeErrorKind::DivisionByZero),
                },
            },
        },
    }
}

/// One step of the machine: the instruction at the program counter is
/// executed. A failure carries the source line of that instruction. A program
/// counter that points at no instruction fails with `UnknownOpcode` at
/// line 0.
pub open spec fn step_spec(
    program: Seq<InstructionView>,
    labels: Seq<LabelView>,
    s: MachineView,
    input: Option<i32>,
) -> Result<(MachineView, Action), Fault> {
    if s.program_counter >= program.len() {
        Err(Fault { kind: RuntimeErrorKind::UnknownOpcode, line: 0 })
    } else {
        let instr = program[s.program_counter as int];
        match execute(instr, labels, program.len(), s, input) {
            Ok(next) => Ok(next),
            Err(kind) => Err(Fault { kind, line: instr.source_line }),
        }
    }
}

/// Whether the next step reads a value: the program counter is at an `Input`
/// instruction whose operand names a cell.
pub open spec fn awaits_input(program: Seq<InstructionView>, s: MachineView) -> bool {
    &&& s.program_counter < program.len()
    &&& program[s.program_counter as int].opcode == Opcode::Input
    &&& operand_cell(program[s.program_counter as int].operand).is_some()
}

/// The value `operand` stands for, if it has one.
fn value_of(operand: &Operand, memory: &[i32; 26]) -> (r: Option<i32>)
    ensures
        r == operand_value(operand@, memory@),
{
    match operand {
        Operand::Immediate(n) => Some(*n),
        Operand::Address(a) => {
            if *a < 26 {
                Some(memory[*a as usize])
            } else {
                None
            }
        },
        _ => None,
    }
}

/// The index of the cell `operand` names, if it names one.
fn cell_of(operand: &Operand) -> (r: Option<usize>)
    ensures
        match r {
            Some(a) => operand_cell(operand@) == Some(a as int),
            None => operand_cell(operand@).is_none(),
        },
{
    match operand {
        Operand::Address(a) => {
            if *a < 26 {
                Some(*a as usize)
            } else {
                None
            }
        },
        _ => None,
    }
}

/// The index a jump with `operand` leads to in a program of `len`
/// instructions.
fn target_of(operand: &Operand, labels: &LabelTable, len: usize) -> (r: Result<
    usize,
    RuntimeErrorKind,
>)
    ensures
        match r {
            Ok(t) => jump_target(operand@, labels@, len as nat) == Ok::<nat, RuntimeErrorKind>(
                t as nat,
            ),
            Err(kind) => jump_target(operand@, labels@, len as nat) == Err::<
                nat,
                RuntimeErrorKind,
            >(kind),
        },
{
    match operand {
        Operand::Immediate(n) => {
            if 0 <= *n && (*n as usize) < len {
                Ok(*n as usize)
            } else {
                Err(RuntimeErrorKind::JumpOutOfRange)
            }
        },
        Operand::LabelRef(name) => match labels.resolve(name) {
            Some(index) => {
                if index < len {
                    Ok(index)
                } else {
                    Err(RuntimeErrorKind::JumpOutOfRange)
                }
            },
            None => Err(RuntimeErrorKind::UnresolvedLabel),
        },
        _ => Err(RuntimeErrorKind::InvalidOperandKind),
    }
}

/// Whether a jump opcode transfers control under `flag`.
fn taken(opcode: Opcode, flag: CmpResult) -> (r: bool)
    ensures
        r == jump_taken(opcode, flag),
{
    match opcode {
        Opcode::Jump => true,
        Opcode::JumpIfLess => flag == CmpResult::Less,
        Opcode::JumpIfEqual => flag == CmpResult::Equal,
        Opcode::JumpIfGreater => flag == CmpResult::Greater,
        _ => false,
    }
}

/// Whether the next step reads a value.
pub fn reads_input(program: &Program, state: &MachineState) -> (r: bool)
    ensures
        r == awaits_input(program@, state@),
{
    let pc = state.program_counter;
    if pc >= program.instructions.len() {
        return false;
    }
    let instr = &program.instructions[pc];
    assert(program@[pc as int] == instr@);
    match instr.opcode {
        Opcode::Input => cell_of(&instr.operand).is_some(),
        _ => false,
    }
}

/// Executes the instruction at the program counter.
///
/// On success `state` is the next state and the result says what the caller
/// has to do before the next step. `Action::AwaitInput` is returned, with the
/// state unchanged, when the instruction reads a value and `input` is `None`;
/// the caller obtains a value and repeats the step with it. On failure the
/// state is unchanged.
pub fn step(
    program: &Program,
    labels: &LabelTable,
    state: &mut MachineState,
    input: Option<i32>,
) -> (res: Result<Action, RuntimeError>)
    ensures
        match res {
            Ok(action) => step_spec(program@, labels@, old(state)@, input) == Ok::<
                (MachineView, Action),
                Fault,
            >((final(state)@, action)),
            Err(e) => {
                &&& step_spec(program@, labels@, old(state)@, input) == Err::<
                    (MachineView, Action),
                    Fault,
                >(e@)
                &&& e.wf()
                &&& *final(state) == *old(state)
            },
        },
{
    let pc = state.program_counter;
    let len = program.instructions.len();
    if pc >= len {
        return Err(RuntimeError::new(RuntimeErrorKind::UnknownOpcode, 0));
    }
    let instr = &program.instructions[pc];
    let line = instr.source_line;
    assert(program@[pc as int] == instr@);
    match instr.opcode {
        Opcode::End => Ok(Action::Halt),
        Opcode::Store => match cell_of(&instr.operand) {
            Some(a) => {
                state.memory[a] = state.accumulator;
                state.program_counter = pc + 1;
                Ok(Action::Continue)
            },
            None => Err(RuntimeError::new(RuntimeErrorKind::InvalidOperandKind, line)),
        },
        Opcode::Input => match cell_of(&instr.operand) {
            Some(a) => match input {
                Some(v) => {
                    state.memory[a] = v;
                    state.program_counter = pc + 1;
                    Ok(Action::Continue)
                },
                None => Ok(Action::AwaitInput),
            },
            None => Err(RuntimeError::new(RuntimeErrorKind::InvalidOperandKind, line)),
        },
        Opcode::Jump | Opcode::JumpIfLess | Opcode::JumpIfEqual | Opcode::JumpIfGreater => {
            if taken(instr.opcode, state.flag) {
                match target_of(&instr.operand, labels, len) {
                    Ok(target) => {
                        state.program_counter = target;
                        Ok(Action::Continue)
                    },
                    Err(kind) => Err(RuntimeError::new(kind, line)),
                }
            } else {
                state.program_counter = pc + 1;
                Ok(Action::Continue)
            }
        },
        _ => match value_of(&instr.operand, &state.memory) {
            None => Err(RuntimeError::new(RuntimeErrorKind::InvalidOperandKind, line)),
            Some(v) => match instr.opcode {
                Opcode::Load => {
                    state.accumulator = v;
                    state.program_counter = pc + 1;
                    Ok(Action::Continue)
                },
                Opcode::Output => {
                    state.program_counter = pc + 1;
                    Ok(Action::Output(v))
                },
                Opcode::Compare => {
                    compare(state.accumulator, v, &mut state.flag);
                    state.program_counter = pc + 1;
                    Ok(Action::Continue)
                },
                _ => match arith(instr.opcode, state.accumulator, v) {
                    Some(r) => {
                        state.accumulator = r;
                        state.program_counter = pc + 1;
                        Ok(Action::Continue)
                    },
                    None => Err(RuntimeError::new(RuntimeErrorKind::DivisionByZero, line)),
                },
            },
        },
    }
}

/// Why a run ended without a failure.
#[derive(Clone, Copy, Debug, PartialEq, Eq, Structural)]
pub enum Stop {
    /// The program reached `End`.
    Finished,
    /// An `Input` instruction was reached after the last value was read.
    InputExhausted,
    /// The allowed number of steps was taken and the program had not ended.
    StepLimit,
}

/// What a run leaves behind: the last state, the values not read, everything
/// written, and how the run ended.
pub struct RunView {
    pub state: MachineView,
    pub unread: Seq<i32>,
    pub output: Seq<i32>,
    pub end: Result<Stop, Fault>,
}

/// Runs `program` from state `s` for at most `steps` steps. Each `Input`
/// instruction reads the first value of `input` not yet read; each `Output`
/// instruction appends its value to `output`.
pub open spec fn run_spec(
    program: Seq<InstructionView>,
    labels: Seq<LabelView>,
    s: MachineView,
    input: Seq<i32>,
    output: Seq<i32>,
    steps: nat,
) -> RunView
    decreases steps,
{
    if steps == 0 {
        RunView { state: s, unread: input, output, end: Ok(Stop::StepLimit) }
    } else {
        let offered = if input.len() > 0 {
            Some(input[0])
        } else {
            None
        };
        match step_spec(program, labels, s, offered) {
            Err(fault) => RunView { state: s, unread: input, output, end: Err(fault) },
            Ok((next, action)) => match action {
                Action::Halt => RunView {
                    state: next,
                    unread: input,
                    output,
                    end: Ok(Stop::Finished),
                },
                Action::AwaitInput => RunView {
                    state: next,
                    unread: input,
                    output,
                    end: Ok(Stop::InputExhausted),
                },
                Action::Output(v) => run_spec(
                    program,
                    labels,
                    next,
                    input,
                    output.push(v),
                    (steps - 1) as nat,
                ),
                Action::Continue => run_spec(
                    program,
                    labels,
                    next,
                    if awaits_input(program, s) {
                        input.drop_first()
                    } else {
                        input
                    },
                    output,
                    (steps - 1) as nat,
                ),
            },
        }
    }
}

/// Runs `program` on a fresh machine for at most `max_steps` steps, reading
/// from `input` in order and appending what the program writes to `output`.
///
/// The result is how the run ended: `End` reached, the input used up, the
/// step limit reached, or the failure of an instruction. A well-formed
/// program never fails for want of an instruction or of a label.
pub fn run(
    program: &Program,
    labels: &LabelTable,
    input: &Vec<i32>,
    output: &mut Vec<i32>,
    max_steps: u64,
) -> (res: Result<Stop, RuntimeError>)
    ensures
        ({
            let r = run_spec(
                program@,
                labels@,
                MachineView::initial(),
                input@,
                old(output)@,
                max_steps as nat,
            );
            &&& final(output)@ == r.output
            &&& match res {
                Ok(stop) => r.end == Ok::<Stop, Fault>(stop),
                Err(e) => r.end == Err::<Stop, Fault>(e@) && e.wf(),
            }
        }),
        well_formed(program@, labels@) ==> !(res matches Err(e) && (e.kind
            == RuntimeErrorKind::UnknownOpcode || e.kind == RuntimeErrorKind::UnresolvedLabel)),
{
    proof {
        if well_formed(program@, labels@) {
            lemma_run_well_formed(
                program@,
                labels@,
                MachineView::initial(),
                input@,
                old(output)@,
                max_steps as nat,
            );
        }
    }
    let mut state = MachineState::new();
    let mut read: usize = 0;
    let mut left: u64 = max_steps;
    let ghost whole = run_spec(
        program@,
        labels@,
        MachineView::initial(),
        input@,
        old(output)@,
        max_steps as nat,
    );
    assert(input@.skip(0) =~= input@);
    while left > 0
        invariant
            read <= input.len(),
            well_formed(program@, labels@) ==> !(whole.end matches Err(fault) && (fault.kind
                == RuntimeErrorKind::UnknownOpcode || fault.kind
                == RuntimeErrorKind::UnresolvedLabel)),
            whole == run_spec(
                program@,
                labels@,
                MachineView::initial(),
                input@,
                old(output)@,
                max_steps as nat,
            ),
            whole == run_spec(
                program@,
                labels@,
                state@,
                input@.skip(read as int),
                output@,
                left as nat,
            ),
        decreases left,
    {
        let reading = reads_input(program, &state);
        let offered = if read < input.len() {
            Some(input[read])
        } else {
            None
        };
        match step(program, labels, &mut state, offered) {
            Err(e) => {
                return Err(e);
            },
            Ok(Action::Halt) => {
                return Ok(Stop::Finished);
            },
            Ok(Action::AwaitInput) => {
                return Ok(Stop::InputExhausted);
            },
            Ok(Action::Output(v)) => {
                output.push(v);
            },
            Ok(Action::Continue) => {
                if reading {
                    assert(input@.skip(read as int).drop_first() =~= input@.skip(read + 1));
                    read += 1;
                }
            },
        }
        left -= 1;
    }
    Ok(Stop::StepLimit)
}

/// When the exact result of an addition, subtraction or multiplication is a
/// 32-bit integer, it is the result; so is the quotient rounded toward zero,
/// and the remainder, which always is one.
pub proof fn lemma_arith_exact(opcode: Opcode, acc: i32, v: i32)
    ensures
        opcode == Opcode::Add && i32::MIN <= acc + v <= i32::MAX ==> arith_spec(opcode, acc, v)
            == Some((acc + v) as i32),
        opcode == Opcode::Sub && i32::MIN <= acc - v <= i32::MAX ==> arith_spec(opcode, acc, v)
            == Some((acc - v) as i32),
        opcode == Opcode::Mul && i32::MIN <= acc * v <= i32::MAX ==> arith_spec(opcode, acc, v)
            == Some((acc * v) as i32),
        opcode == Opcode::Div && v != 0 && !(acc == i32::MIN && v == -1) ==> arith_spec(
            opcode,
            acc,
            v,
        ) == Some(trunc_div(acc as int, v as int) as i32),
        opcode == Opcode::Mod && v != 0 ==> arith_spec(opcode, acc, v) == Some(
            trunc_rem(acc as int, v as int) as i32,
        ),
{
    lemma_wrap32_exact(acc + v);
    lemma_wrap32_exact(acc - v);
    lemma_wrap32_exact(acc * v);
    if v != 0 {
        lemma_trunc_div_rem(acc as int, v as int);
        if !(acc == i32::MIN && v == -1) {
            assert(i32::MIN <= trunc_div(acc as int, v as int) <= i32::MAX);
        }
        assert(i32::MIN <= trunc_rem(acc as int, v as int) <= i32::MAX);
        lemma_wrap32_exact(trunc_div(acc as int, v as int));
        lemma_wrap32_exact(trunc_rem(acc as int, v as int));
    }
}

/// Wrapping leaves a 32-bit integer as it is.
pub proof fn lemma_wrap32_exact(x: int)
    ensures
        i32::MIN <= x <= i32::MAX ==> wrap32(x) == x,
{
}

/// Quotient and remainder fit together: the quotient times the divisor plus
/// the remainder is the dividend; the remainder is smaller in magnitude than
/// the divisor and has the sign of the dividend; the quotient is the
/// dividend for the divisor 1, its negation for the divisor -1, and at most
/// half of it in magnitude for any other.
pub proof fn lemma_trunc_div_rem(a: int, b: int)
    requires
        b != 0,
    ensures
        trunc_div(a, b) * b + trunc_rem(a, b) == a,
        a >= 0 ==> 0 <= trunc_rem(a, b) <= a,
        a <= 0 ==> a <= trunc_rem(a, b) <= 0,
        b > 0 ==> -b < trunc_rem(a, b) < b,
        b < 0 ==> b < trunc_rem(a, b) < -b,
        b == 1 ==> trunc_div(a, b) == a,
        b == -1 ==> trunc_div(a, b) == -a,
        a >= 0 && b != 1 && b != -1 ==> -a <= 2 * trunc_div(a, b) <= a,
        a <= 0 && b != 1 && b != -1 ==> a <= 2 * trunc_div(a, b) <= -a,
{
    let m = if b > 0 {
        b
    } else {
        -b
    };
    let n = if a >= 0 {
        a
    } else {
        -a
    };
    let q = n / m;
    let r = n % m;
    vstd::arithmetic::div_mod::lemma_fundamental_div_mod(n, m);
    vstd::arithmetic::div_mod::lemma_mod_bound(n, m);
    vstd::arithmetic::div_mod::lemma_div_pos_is_pos(n, m);
    assert(n == m * q + r);
    assert(0 <= r < m);
    assert(q >= 0);
    assert(m * q >= q && (m >= 2 ==> m * q >= 2 * q)) by (nonlinear_arith)
        requires
            m >= 1,
            q >= 0,
    ;
    assert(m == 1 ==> m * q == q) by (nonlinear_arith);
    assert(trunc_div(a, b) == if (a >= 0) == (b > 0) {
        q
    } else {
        -q
    });
    assert(trunc_rem(a, b) == if a >= 0 {
        r
    } else {
        -r
    });
    assert(trunc_div(a, b) * b == if a >= 0 {
        m * q
    } else {
        -(m * q)
    }) by (nonlinear_arith)
        requires
            m == if b > 0 {
                b
            } else {
                -b
            },
            trunc_div(a, b) == if (a >= 0) == (b > 0) {
                q
            } else {
                -q
            },
            b != 0,
    ;
}

} // verus!
