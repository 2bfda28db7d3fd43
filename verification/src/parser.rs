//! A second front end over the same translation pipeline, with the same
//! shape of entry point as [`crate::assembler`].  `Assembler` is the
//! primary interface; `Parser` offers the identical behaviour under the
//! name the translation step is often known by.

use vstd::prelude::*;

use crate::assembler::SpecCommand;
use crate::pipeline::{assemble_source, assemble_spec, res_view, AsmError};
use vstd::string::StringExecFns;

verus! {

/// A resolved compute instruction: dest, comp and jump mnemonics.
pub struct CCommand {
    pub(crate) dest: Vec<char>,
    pub(crate) comp: Vec<char>,
    pub(crate) jmp: Vec<char>,
}

/// A resolved instruction, ready to encode: an address instruction whose
/// operand is already a number, or a compute instruction.
pub enum Command {
    A { address: usize },
    C { command: CCommand },
}

impl View for Command {
    type V = SpecCommand;

    closed spec fn view(&self) -> SpecCommand {
        match self {
            Command::A { address } => SpecCommand::A { address: *address as nat },
            Command::C { command } => SpecCommand::C {
                dest: command.dest@,
                comp: command.comp@,
                jump: command.jmp@,
            },
        }
    }
}

/// Parser-led assembler for one source document; its view is the source
/// text it was built from.
pub struct Parser {
    source: String,
}

impl View for Parser {
    type V = Seq<char>;

    closed spec fn view(&self) -> Seq<char> {
        self.source@
    }
}

impl Parser {
    /// Creates a new parser over the given source text.
    pub fn new(input: &str) -> (p: Parser)
        ensures
            p@ == input@,
    {
        Parser { source: String::from_str(input) }
    }

    /// Translates the source into machine-language text: one 16-character
    /// binary line per instruction, in source order; or the first error.
    pub fn assemble(&mut self) -> (r: Result<String, AsmError>)
        ensures
            final(self)@ == old(self)@,
            res_view(r) == assemble_spec(old(self)@),
    {
        assemble_source(self.source.as_str())
    }
}

} // verus!
