//! Front ends that turn the text of an assembly file into its model.
use crate::assembly_file::{AssemblyFile, AssemblyFileView};
use crate::syntax::lexer::fits;
use vstd::prelude::*;

pub mod grammar;
pub mod lexemes;
pub mod lexer;
pub mod nasm;
pub mod rules;
pub mod shapes;
pub mod traces;

pub use nasm::NASM;

verus! {

/// A front end: a grammar for the text of assembly files.
pub trait Syntax: Sized {
    /// How a parse fails.
    type Error: View;

    /// What parsing the text `source` of the file `file` gives.
    spec fn outcome(file: Seq<char>, source: Seq<char>) -> Result<
        AssemblyFileView,
        <Self::Error as View>::V,
    >;

    /// What the parse of this parser will give.
    spec fn pending(&self) -> Result<AssemblyFileView, <Self::Error as View>::V>;

    /// Whether this parser is fit to parse, as one from `new_parser` is.
    spec fn ready(&self) -> bool;

    /// A parser for the text `source` of the file `file`.
    fn new_parser(file: &str, source: &str) -> (r: Result<Self, Self::Error>)
        requires
            fits(source@),
        ensures
            match r {
                Ok(parser) => parser.ready() && parser.pending() == Self::outcome(file@, source@),
                Err(e) => Self::outcome(file@, source@) == Err::<
                    AssemblyFileView,
                    <Self::Error as View>::V,
                >(e@),
            },
    ;

    /// Parses the text that this parser was made for.
    fn parse(self) -> (r: Result<AssemblyFile, Self::Error>)
        requires
            self.ready(),
        ensures
            match r {
                Ok(file) => self.pending() == Ok::<AssemblyFileView, <Self::Error as View>::V>(
                    file@,
                ) && file.wf(),
                Err(e) => self.pending() == Err::<AssemblyFileView, <Self::Error as View>::V>(e@),
            },
    ;
}

} // verus!
