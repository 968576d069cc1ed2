//! What holds of every program text.

use vstd::prelude::*;
use crate::parser::parse_spec;
use crate::parser::semantic_checker::{
    label_defect,
    lemma_label_defect_stays,
    reference_defect,
    semantic_defect,
};
use crate::parser::syntax_checker::{
    Defect,
    ends,
    lemma_scanned,
    lemma_single_end,
    ParseErrorKind,
    scan_spec,
    syntax_spec,
};
use crate::program::{
    definitions,
    InstructionView,
    LabelView,
    Opcode,
    OperandView,
    reference_resolves,
    resolve_spec,
    well_formed,
};

verus! {

/// A text whose lines are free of defects and whose program is empty or
/// does not end with `end` is rejected with `MissingEnd`, at the line of the
/// last instruction (line 0 if there is none).
pub proof fn lemma_missing_end(lines: Seq<Seq<u8>>)
    requires
        scan_spec(lines, lines.len()) matches Ok(source) && (source.instructions.len() == 0
            || source.instructions.last().opcode != Opcode::End),
    ensures
        ({
            &&& scan_spec(lines, lines.len()) matches Ok(source)
            &&& parse_spec(lines) matches Err(defect)
            &&& defect.kind == ParseErrorKind::MissingEnd
            &&& defect.line == if source.instructions.len() == 0 {
                0
            } else {
                source.instructions.last().source_line
            }
        }),
{
}

/// A text whose lines are free of defects and whose program ends with `end`
/// and holds another `end` before it is rejected with `DuplicateEnd` at the
/// line of the second `end` of the program.
pub proof fn lemma_duplicate_end(lines: Seq<Seq<u8>>)
    requires
        scan_spec(lines, lines.len()) matches Ok(source) && source.instructions.len() > 0
            && source.instructions.last().opcode == Opcode::End && ends(source.instructions).len()
            >= 2,
    ensures
        ({
            &&& scan_spec(lines, lines.len()) matches Ok(source)
            &&& parse_spec(lines) matches Err(defect)
            &&& defect.kind == ParseErrorKind::DuplicateEnd
            &&& defect.line == ends(source.instructions)[1].source_line
        }),
{
}

/// A program in which instruction `i` refers to a label that is not defined
/// exactly once is rejected with `UnknownLabel` or `AmbiguousLabel`. If no
/// instruction before `i` is at fault, the defect is that of `i`: at its
/// line, `UnknownLabel` if the label has no definition and `AmbiguousLabel`
/// if it has several.
pub proof fn lemma_unresolved_reference(
    program: Seq<InstructionView>,
    labels: Seq<LabelView>,
    i: int,
    name: Seq<u8>,
)
    requires
        0 <= i < program.len(),
        program[i].operand == OperandView::LabelRef(name),
        definitions(labels, name).len() != 1,
    ensures
        semantic_defect(program, labels) matches Some(defect) && (defect.kind
            == ParseErrorKind::UnknownLabel || defect.kind == ParseErrorKind::AmbiguousLabel),
        (forall|j: int| 0 <= j < i ==> reference_defect(#[trigger] program[j], labels).is_none())
            ==> semantic_defect(program, labels) == Some(
            Defect {
                kind: if definitions(labels, name).len() == 0 {
                    ParseErrorKind::UnknownLabel
                } else {
                    ParseErrorKind::AmbiguousLabel
                },
                line: program[i].source_line,
            },
        ),
{
    lemma_label_defect_kinds(program, labels, (i + 1) as nat);
    lemma_label_defect_stays(program, labels, (i + 1) as nat, program.len());
    if forall|j: int| 0 <= j < i ==> reference_defect(#[trigger] program[j], labels).is_none() {
        lemma_no_label_defect(program, labels, i as nat);
    }
}

/// A text with such a reference is rejected, with one of the two label
/// defects if its lines and its ending are free of defects: no program comes
/// out of it that could be run.
pub proof fn lemma_unresolved_reference_rejected(lines: Seq<Seq<u8>>, i: int, name: Seq<u8>)
    requires
        syntax_spec(lines) matches Ok(source) && 0 <= i < source.instructions.len()
            && source.instructions[i].operand == OperandView::LabelRef(name) && definitions(
            source.labels,
            name,
        ).len() != 1,
    ensures
        parse_spec(lines) matches Err(defect) && (defect.kind == ParseErrorKind::UnknownLabel
            || defect.kind == ParseErrorKind::AmbiguousLabel),
{
    let source = syntax_spec(lines)->Ok_0;
    lemma_unresolved_reference(source.instructions, source.labels, i, name);
}

/// A program that the label check accepts refers only to labels that
/// resolve.
pub proof fn lemma_checked_references_resolve(
    program: Seq<InstructionView>,
    labels: Seq<LabelView>,
    i: int,
    name: Seq<u8>,
)
    requires
        semantic_defect(program, labels).is_none(),
        0 <= i < program.len(),
        program[i].operand == OperandView::LabelRef(name),
    ensures
        resolve_spec(labels, name).is_some(),
{
    if definitions(labels, name).len() != 1 {
        lemma_unresolved_reference(program, labels, i, name);
    }
}

/// The defect of a label check is one of the two label defects.
proof fn lemma_label_defect_kinds(program: Seq<InstructionView>, labels: Seq<LabelView>, n: nat)
    ensures
        label_defect(program, labels, n) matches Some(defect) ==> defect.kind
            == ParseErrorKind::UnknownLabel || defect.kind == ParseErrorKind::AmbiguousLabel,
    decreases n,
{
    if n > 0 {
        lemma_label_defect_kinds(program, labels, (n - 1) as nat);
    }
}

/// Instructions that are not at fault give no defect.
proof fn lemma_no_label_defect(program: Seq<InstructionView>, labels: Seq<LabelView>, n: nat)
    requires
        forall|j: int| 0 <= j < n ==> reference_defect(#[trigger] program[j], labels).is_none(),
    ensures
        label_defect(program, labels, n).is_none(),
    decreases n,
{
    if n > 0 {
        lemma_no_label_defect(program, labels, (n - 1) as nat);
    }
}

/// The program of a text without defect is well formed.
pub proof fn lemma_parsed_well_formed(lines: Seq<Seq<u8>>)
    requires
        parse_spec(lines).is_ok(),
    ensures
        well_formed(parse_spec(lines)->Ok_0.instructions, parse_spec(lines)->Ok_0.labels),
{
    let source = parse_spec(lines)->Ok_0;
    lemma_scanned(lines, lines.len());
    lemma_single_end(source.instructions);
    assert forall|i: int| 0 <= i < source.instructions.len() implies reference_resolves(
        #[trigger] source.instructions[i],
        source.labels,
    ) by {
        if let OperandView::LabelRef(name) = source.instructions[i].operand {
            lemma_checked_references_resolve(source.instructions, source.labels, i, name);
        }
    }
}

} // verus!
