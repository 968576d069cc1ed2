//! Label resolution: every label that an instruction refers to must be
//! defined exactly once.

use vstd::prelude::*;
use crate::parser::syntax_checker::{Defect, ParseError, ParseErrorKind};
use crate::program::{
    definitions,
    InstructionView,
    LabelTable,
    LabelView,
    Operand,
    OperandView,
    Program,
};

verus! {

/// What is wrong with the label that an instruction refers to, if anything:
/// a name without definition is unknown, a name with several is ambiguous.
/// The defect is at the line of the instruction.
pub open spec fn reference_defect(instruction: InstructionView, labels: Seq<LabelView>) -> Option<
    Defect,
> {
    match instruction.operand {
        OperandView::LabelRef(name) => {
            let found = definitions(labels, name).len();
            if found == 0 {
                Some(Defect { kind: ParseErrorKind::UnknownLabel, line: instruction.source_line })
            } else if found > 1 {
                Some(Defect { kind: ParseErrorKind::AmbiguousLabel, line: instruction.source_line })
            } else {
                None
            }
        },
        _ => None,
    }
}

/// The defect of the first of the first `n` instructions that refers to a
/// label not defined exactly once.
pub open spec fn label_defect(
    program: Seq<InstructionView>,
    labels: Seq<LabelView>,
    n: nat,
) -> Option<Defect>
    decreases n,
{
    if n == 0 {
        None
    } else {
        match label_defect(program, labels, (n - 1) as nat) {
            Some(defect) => Some(defect),
            None => reference_defect(program[n - 1], labels),
        }
    }
}

/// The defect that `semantic_checker` reports for a program, if any.
pub open spec fn semantic_defect(program: Seq<InstructionView>, labels: Seq<LabelView>) -> Option<
    Defect,
> {
    label_defect(program, labels, program.len())
}

/// A defect among the first `n` instructions is the defect of any longer
/// part of the program.
pub proof fn lemma_label_defect_stays(
    program: Seq<InstructionView>,
    labels: Seq<LabelView>,
    n: nat,
    m: nat,
)
    requires
        n <= m,
        label_defect(program, labels, n).is_some(),
    ensures
        label_defect(program, labels, m) == label_defect(program, labels, n),
    decreases m,
{
    if n < m {
        lemma_label_defect_stays(program, labels, n, (m - 1) as nat);
    }
}

/// Checks that every label reference of the program has exactly one
/// definition in `labels`, and reports the first that has not.
pub fn semantic_checker(program: &Program, labels: &LabelTable) -> (r: Result<(), ParseError>)
    ensures
        match r {
            Ok(_) => semantic_defect(program@, labels@).is_none(),
            Err(e) => semantic_defect(program@, labels@) == Some(e@) && e.wf(),
        },
{
    let n = program.instructions.len();
    let mut i: usize = 0;
    while i < n
        invariant
            i <= n,
            n == program.instructions.len(),
            label_defect(program@, labels@, i as nat).is_none(),
        decreases n - i,
    {
        let instruction = &program.instructions[i];
        assert(program@[i as int] == instruction@);
        match &instruction.operand {
            Operand::LabelRef(name) => {
                let found = labels.count(name);
                if found != 1 {
                    let kind = if found == 0 {
                        ParseErrorKind::UnknownLabel
                    } else {
                        ParseErrorKind::AmbiguousLabel
                    };
                    proof {
                        lemma_label_defect_stays(program@, labels@, (i + 1) as nat, n as nat);
                    }
                    return Err(ParseError::new(kind, instruction.source_line));
                }
            },
            _ => {},
        }
        i += 1;
    }
    Ok(())
}

} // verus!
