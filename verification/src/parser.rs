//! The front end: from source lines to a checked program.

use vstd::prelude::*;
use crate::parser::laws::lemma_parsed_well_formed;
use crate::parser::lexer::views;
use crate::parser::semantic_checker::semantic_defect;
use crate::parser::syntax_checker::{Defect, ParseError, SourceView, syntax_spec};
use crate::program::{LabelTable, Program, well_formed};

pub mod laws;
pub mod lexer;
pub mod semantic_checker;
pub mod syntax_checker;

verus! {

/// The program that a text denotes, or the first defect of the text: a
/// defect of a line, else of how the program ends, else of a label
/// reference.
pub open spec fn parse_spec(lines: Seq<Seq<u8>>) -> Result<SourceView, Defect> {
    match syntax_spec(lines) {
        Err(defect) => Err(defect),
        Ok(source) => match semantic_defect(source.instructions, source.labels) {
            Some(defect) => Err(defect),
            None => Ok(source),
        },
    }
}

/// Reads and checks a program text, given as its lines.
pub fn parser(lines: &Vec<Vec<u8>>) -> (r: Result<(Program, LabelTable), ParseError>)
    ensures
        match r {
            Ok((program, labels)) => {
                &&& parse_spec(views(lines@)) == Ok::<SourceView, Defect>(
                    SourceView { instructions: program@, labels: labels@ },
                )
                &&& well_formed(program@, labels@)
            },
            Err(e) => parse_spec(views(lines@)) == Err::<SourceView, Defect>(e@) && e.wf(),
        },
{
    match syntax_checker::parser(lines) {
        Ok((program, labels)) => {
            match semantic_checker::semantic_checker(&program, &labels) {
                Err(e) => Err(e),
                Ok(_) => {
                    proof {
                        lemma_parsed_well_formed(views(lines@));
                    }
                    Ok((program, labels))
                },
            }
        },
        Err(e) => Err(e),
    }
}

} // verus!
