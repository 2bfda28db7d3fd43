//! The assembler's public entry point: build one from the source text,
//! then `assemble` it into the machine-language text, or into the first
//! error the source contains.

use vstd::prelude::*;

use crate::chars::chars_to_string;
use crate::encode::{encode_address, encode_address_exec, encode_compute, encode_compute_exec, sat_u64};
use crate::pipeline::{assemble_source, assemble_spec, res_view, AsmError, SpecError};
use vstd::string::StringExecFns;

verus! {

/// A resolved compute instruction: dest, comp and jump mnemonics.
pub struct CCommand {
    pub(crate) dest: Vec<char>,
    pub(crate) comp: Vec<char>,
    pub(crate) jmp: Vec<char>,
}

/// A resolved instruction, ready to encode: an address instruction whose
/// operand is already a number, or a compute instruction.
pub enum Command {
    A { address: usize },
    C { command: CCommand },
}

/// Spec form of a resolved instruction.
pub enum SpecCommand {
    A { address: nat },
    C { dest: Seq<char>, comp: Seq<char>, jump: Seq<char> },
}

impl View for Command {
    type V = SpecCommand;

    closed spec fn view(&self) -> SpecCommand {
        match self {
            Command::A { address } => SpecCommand::A { address: *address as nat },
            Command::C { command } => SpecCommand::C {
                dest: command.dest@,
                comp: command.comp@,
                jump: command.jmp@,
            },
        }
    }
}

/// A resolved address instruction.
pub(crate) fn cmd_a(address: usize) -> (c: Command)
    ensures
        c@ == (SpecCommand::A { address: address as nat }),
{
    Command::A { address }
}

/// A resolved compute instruction from its three mnemonics.
pub(crate) fn cmd_c(dest: Vec<char>, comp: Vec<char>, jump: Vec<char>) -> (c: Command)
    ensures
        c@ == (SpecCommand::C { dest: dest@, comp: comp@, jump: jump@ }),
{
    Command::C { command: CCommand { dest, comp, jmp: jump } }
}

/// The encoding of a resolved instruction, where it has one.
pub open spec fn spec_encode_command(c: SpecCommand) -> Option<Seq<char>> {
    match c {
        SpecCommand::A { address } => if address < 32768 {
            Some(encode_address(address))
        } else {
            None
        },
        SpecCommand::C { dest, comp, jump } => encode_compute(dest, comp, jump),
    }
}

/// The error reported for a resolved instruction that has no encoding.
pub open spec fn spec_encode_error(c: SpecCommand, line: nat) -> SpecError {
    match c {
        SpecCommand::A { address } => SpecError::AddressOverflow {
            line,
            address: sat_u64(address),
        },
        SpecCommand::C { dest: _, comp, jump: _ } => SpecError::UnknownMnemonic {
            line,
            token: comp,
        },
    }
}

/// Renders one resolved instruction as its 16 characters, or reports why
/// it cannot be encoded, naming source line `line`.
pub(crate) fn encode_command(cmd: &Command, line: usize) -> (r: Result<Vec<char>, AsmError>)
    ensures
        match r {
            Ok(v) => spec_encode_command(cmd@) == Some(v@),
            Err(e) => spec_encode_command(cmd@) is None && e@ == spec_encode_error(
                cmd@,
                line as nat,
            ),
        },
{
    match cmd {
        Command::A { address } => {
            let a: usize = *address;
            if a < 32768 {
                Ok(encode_address_exec(a as u64))
            } else {
                Err(AsmError::AddressOverflow { line, address: a as u64 })
            }
        },
        Command::C { command } => {
            match encode_compute_exec(&command.dest, &command.comp, &command.jmp) {
                Some(v) => Ok(v),
                None => Err(
                    AsmError::UnknownMnemonic { line, token: chars_to_string(&command.comp) },
                ),
            }
        },
    }
}

/// Assembler for one source document.  A fresh one is built per document;
/// its view is the source text it was built from.
pub struct Assembler {
    source: String,
}

impl View for Assembler {
    type V = Seq<char>;

    closed spec fn view(&self) -> Seq<char> {
        self.source@
    }
}

impl Assembler {
    /// Creates a new assembler over the given source text.
    pub fn new(input: &str) -> (a: Assembler)
        ensures
            a@ == input@,
    {
        Assembler { source: String::from_str(input) }
    }

    /// Translates the source into machine-language text: one 16-character
    /// binary line per instruction, in source order; or the first error.
    pub fn assemble(&mut self) -> (r: Result<String, AsmError>)
        ensures
            final(self)@ == old(self)@,
            res_view(r) == assemble_spec(old(self)@),
    {
        assemble_source(self.source.as_str())
    }
}

} // verus!
