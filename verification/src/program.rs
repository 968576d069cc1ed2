//! The data model: instructions, programs and label tables, each with the
//! mathematical value that contracts speak about.

use vstd::prelude::*;

verus! {

/// The fifteen operations of the machine.
#[derive(Clone, Copy, Debug, PartialEq, Eq, Structural)]
pub enum Opcode {
    Load,
    Store,
    Input,
    Output,
    Add,
    Sub,
    Mul,
    Div,
    Mod,
    Compare,
    Jump,
    JumpIfLess,
    JumpIfEqual,
    JumpIfGreater,
    End,
}

impl Opcode {
    /// The four opcodes whose operand names an instruction to continue at.
    pub open spec fn is_jump(self) -> bool {
        self == Opcode::Jump || self == Opcode::JumpIfLess || self == Opcode::JumpIfEqual
            || self == Opcode::JumpIfGreater
    }

    /// Whether the opcode belongs to the jump family.
    pub fn is_jump_family(self) -> (r: bool)
        ensures
            r == self.is_jump(),
    {
        match self {
            Opcode::Jump | Opcode::JumpIfLess | Opcode::JumpIfEqual | Opcode::JumpIfGreater => true,
            _ => false,
        }
    }
}

/// Number of memory cells, one per lowercase letter.
pub const MEMORY_CELLS: usize = 26;

/// What an instruction operates on.
///
/// `Address` holds the index of a memory cell and is meaningful below
/// [`MEMORY_CELLS`]. `Absent` is the operand of an instruction that takes
/// none.
#[derive(Clone, Debug, PartialEq, Eq)]
pub enum Operand {
    Immediate(i32),
    Address(u8),
    LabelRef(Vec<u8>),
    LabelDef(Vec<u8>),
    Absent,
}

/// Mathematical value of an [`Operand`]: label names are byte sequences.
pub enum OperandView {
    Immediate(i32),
    Address(u8),
    LabelRef(Seq<u8>),
    LabelDef(Seq<u8>),
    Absent,
}

impl View for Operand {
    type V = OperandView;

    open spec fn view(&self) -> OperandView {
        match *self {
            Operand::Immediate(n) => OperandView::Immediate(n),
            Operand::Address(a) => OperandView::Address(a),
            Operand::LabelRef(name) => OperandView::LabelRef(name@),
            Operand::LabelDef(name) => OperandView::LabelDef(name@),
            Operand::Absent => OperandView::Absent,
        }
    }
}

/// One instruction together with the number of the source line it came from.
#[derive(Clone, Debug, PartialEq, Eq)]
pub struct Instruction {
    pub opcode: Opcode,
    pub operand: Operand,
    pub source_line: usize,
}

/// Mathematical value of an [`Instruction`].
pub struct InstructionView {
    pub opcode: Opcode,
    pub operand: OperandView,
    pub source_line: nat,
}

impl View for Instruction {
    type V = InstructionView;

    open spec fn view(&self) -> InstructionView {
        InstructionView {
            opcode: self.opcode,
            operand: self.operand@,
            source_line: self.source_line as nat,
        }
    }
}

/// An ordered list of instructions; the view is the sequence of their values.
#[derive(Clone, Debug, PartialEq, Eq)]
pub struct Program {
    pub instructions: Vec<Instruction>,
}

impl View for Program {
    type V = Seq<InstructionView>;

    open spec fn view(&self) -> Seq<InstructionView> {
        Seq::new(self.instructions@.len(), |i: int| self.instructions@[i]@)
    }
}

/// One label definition: a name bound to the index of an instruction.
#[derive(Clone, Debug, PartialEq, Eq)]
pub struct Label {
    pub name: Vec<u8>,
    pub index: usize,
}

/// Mathematical value of a [`Label`].
pub struct LabelView {
    pub name: Seq<u8>,
    pub index: nat,
}

impl View for Label {
    type V = LabelView;

    open spec fn view(&self) -> LabelView {
        LabelView { name: self.name@, index: self.index as nat }
    }
}

/// The label definitions of a program in the order they were written. A name
/// may occur more than once; such a name cannot be resolved.
#[derive(Clone, Debug, PartialEq, Eq)]
pub struct LabelTable {
    pub entries: Vec<Label>,
}

impl View for LabelTable {
    type V = Seq<LabelView>;

    open spec fn view(&self) -> Seq<LabelView> {
        Seq::new(self.entries@.len(), |i: int| self.entries@[i]@)
    }
}

/// The definitions of `name` in `labels`, in order.
pub open spec fn definitions(labels: Seq<LabelView>, name: Seq<u8>) -> Seq<LabelView> {
    labels.filter(|l: LabelView| l.name == name)
}

/// The instruction index that `name` stands for: defined when `labels` holds
/// exactly one definition of it.
pub open spec fn resolve_spec(labels: Seq<LabelView>, name: Seq<u8>) -> Option<nat> {
    let defs = definitions(labels, name);
    if defs.len() == 1 {
        Some(defs[0].index)
    } else {
        None
    }
}

/// Whether two byte strings are equal.
pub fn same_bytes(a: &Vec<u8>, b: &Vec<u8>) -> (r: bool)
    ensures
        r == (a@ == b@),
{
    if a.len() != b.len() {
        return false;
    }
    let mut i: usize = 0;
    while i < a.len()
        invariant
            i <= a.len(),
            a.len() == b.len(),
            forall|j: int| 0 <= j < i ==> a@[j] == b@[j],
        decreases a.len() - i,
    {
        if a[i] != b[i] {
            return false;
        }
        i += 1;
    }
    assert(a@ =~= b@);
    true
}

impl LabelTable {
    /// How many definitions of `name` the table holds.
    pub fn count(&self, name: &Vec<u8>) -> (n: usize)
        ensures
            n == definitions(self@, name@).len(),
    {
        self.scan(name).0
    }

    /// The instruction index bound to `name`, if exactly one definition of
    /// it exists.
    pub fn resolve(&self, name: &Vec<u8>) -> (r: Option<usize>)
        ensures
            match r {
                Some(index) => resolve_spec(self@, name@) == Some(index as nat),
                None => resolve_spec(self@, name@).is_none(),
            },
    {
        let (count, index) = self.scan(name);
        if count == 1 {
            Some(index)
        } else {
            None
        }
    }

    /// Number of definitions of `name`, and the index bound by the last of
    /// them (0 when there is none).
    fn scan(&self, name: &Vec<u8>) -> (r: (usize, usize))
        ensures
            r.0 == definitions(self@, name@).len(),
            r.1 == if r.0 > 0 {
                definitions(self@, name@).last().index
            } else {
                0
            },
    {
        let mut count: usize = 0;
        let mut index: usize = 0;
        let mut i: usize = 0;
        while i < self.entries.len()
            invariant
                i <= self.entries.len(),
                count <= i,
                count == definitions(self@.take(i as int), name@).len(),
                index == if count > 0 {
                    definitions(self@.take(i as int), name@).last().index
                } else {
                    0
                },
            decreases self.entries.len() - i,
        {
            proof {
                let prefix = self@.take(i as int);
                assert(self@.take(i + 1) =~= prefix.push(self@[i as int]));
                prefix.lemma_filter_push(self@[i as int], |l: LabelView| l.name == name@);
            }
            if same_bytes(&self.entries[i].name, name) {
                count += 1;
                index = self.entries[i].index;
            }
            i += 1;
        }
        assert(self@.take(i as int) =~= self@);
        (count, index)
    }
}

/// Whether the label that an instruction refers to, if it refers to one,
/// resolves.
pub open spec fn reference_resolves(instruction: InstructionView, labels: Seq<LabelView>) -> bool {
    match instruction.operand {
        OperandView::LabelRef(name) => resolve_spec(labels, name).is_some(),
        _ => true,
    }
}

/// Whether an address operand, if the instruction has one, names a memory
/// cell.
pub open spec fn address_in_range(instruction: InstructionView) -> bool {
    match instruction.operand {
        OperandView::Address(a) => a < MEMORY_CELLS,
        _ => true,
    }
}

/// What holds of a checked program: its last instruction is its only `End`,
/// every label it refers to resolves, and every address names a memory cell.
pub open spec fn well_formed(program: Seq<InstructionView>, labels: Seq<LabelView>) -> bool {
    &&& program.len() > 0
    &&& forall|i: int|
        0 <= i < program.len() ==> ((#[trigger] program[i]).opcode == Opcode::End <==> i
            == program.len() - 1)
    &&& forall|i: int| 0 <= i < program.len() ==> reference_resolves(#[trigger] program[i], labels)
    &&& forall|i: int| 0 <= i < program.len() ==> address_in_range(#[trigger] program[i])
}

} // verus!
