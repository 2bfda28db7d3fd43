//! The two-pass translation pipeline.  Pass 1 walks the normalized
//! instructions and binds every label to the ROM address of the instruction
//! that follows it.  Pass 2 walks them again, resolves symbolic operands
//! (allocating variable addresses from 16 upward for names not bound as
//! labels), encodes every instruction, and assembles the output text.
//! Both passes abort on the first error; no partial output is returned.

use vstd::prelude::*;

use crate::assembler::{cmd_a, cmd_c, encode_command};
use crate::chars::{chars_to_string, push_char, str_to_chars};
use crate::encode::{dec_value, encode_address, encode_compute, sat_u64};
use crate::instruction::{
    classify, classify_text, Instruction, Operand, SpecInstruction, SpecOperand,
};
use crate::normalize::{
    instructions_of, norms_view, normalized_instructions, NormLine, SpecNormLine,
};
use crate::symbols::{initial_table, SymbolTable};
use vstd::pervasive::unreached;

verus! {

/// Spec form of an assembly error.
pub enum SpecError {
    /// A normalized instruction matches none of the three productions.
    Syntax { line: nat },
    /// A comp token is well-formed but absent from the encoding table.
    UnknownMnemonic { line: nat, token: Seq<char> },
    /// A resolved address does not fit the 15-bit address field.
    AddressOverflow { line: nat, address: nat },
    /// A symbol would be bound twice.
    DuplicateBinding { symbol: Seq<char> },
}

/// An assembly error: the reason the source was rejected, with the 1-based
/// source line number where that applies.  An overflowing address is
/// reported clamped to the `u64` range.
#[derive(Debug)]
pub enum AsmError {
    Syntax { line: usize },
    UnknownMnemonic { line: usize, token: String },
    AddressOverflow { line: usize, address: u64 },
    DuplicateBinding { symbol: String },
}

impl View for AsmError {
    type V = SpecError;

    open spec fn view(&self) -> SpecError {
        match self {
            AsmError::Syntax { line } => SpecError::Syntax { line: *line as nat },
            AsmError::UnknownMnemonic { line, token } => SpecError::UnknownMnemonic {
                line: *line as nat,
                token: token@,
            },
            AsmError::AddressOverflow { line, address } => SpecError::AddressOverflow {
                line: *line as nat,
                address: *address as nat,
            },
            AsmError::DuplicateBinding { symbol } => SpecError::DuplicateBinding {
                symbol: symbol@,
            },
        }
    }
}

/// Pass 1 over the instruction sequence: starting from ROM address `rom`
/// and table `tbl`, binds every label to the ROM address of the next
/// instruction and yields the final table, or the first error.
pub open spec fn pass1(
    ns: Seq<SpecNormLine>,
    rom: nat,
    tbl: Map<Seq<char>, nat>,
) -> Result<Map<Seq<char>, nat>, SpecError>
    decreases ns.len(),
{
    if ns.len() == 0 {
        Ok(tbl)
    } else {
        match classify(ns[0].text) {
            None => Err(SpecError::Syntax { line: ns[0].line }),
            Some(SpecInstruction::Label(sym)) => if tbl.contains_key(sym) {
                Err(SpecError::DuplicateBinding { symbol: sym })
            } else {
                pass1(ns.drop_first(), rom, tbl.insert(sym, rom))
            },
            Some(_) => pass1(ns.drop_first(), rom + 1, tbl),
        }
    }
}

/// One output line followed by the rest of the output, unless the rest
/// already failed.
pub open spec fn prepend_line(
    line16: Seq<char>,
    rest: Result<Seq<char>, SpecError>,
) -> Result<Seq<char>, SpecError> {
    match rest {
        Ok(out) => Ok(line16 + seq!['\n'] + out),
        Err(e) => Err(e),
    }
}

/// Pass 2 over the instruction sequence: with label table `tbl` and next
/// free variable address `vn`, encodes every instruction and yields the
/// output text, or the first error.
pub open spec fn pass2(
    ns: Seq<SpecNormLine>,
    tbl: Map<Seq<char>, nat>,
    vn: nat,
) -> Result<Seq<char>, SpecError>
    decreases ns.len(),
{
    if ns.len() == 0 {
        Ok(Seq::empty())
    } else {
        let line = ns[0].line;
        match classify(ns[0].text) {
            None => Err(SpecError::Syntax { line }),
            Some(SpecInstruction::Label(_)) => pass2(ns.drop_first(), tbl, vn),
            Some(SpecInstruction::Address(SpecOperand::Numeric(digits))) => {
                let n = dec_value(digits);
                if n < 32768 {
                    prepend_line(encode_address(n), pass2(ns.drop_first(), tbl, vn))
                } else {
                    Err(SpecError::AddressOverflow { line, address: sat_u64(n) })
                }
            },
            Some(SpecInstruction::Address(SpecOperand::Symbolic(sym))) => {
                if tbl.contains_key(sym) {
                    let a = tbl[sym];
                    if a < 32768 {
                        prepend_line(encode_address(a), pass2(ns.drop_first(), tbl, vn))
                    } else {
                        Err(SpecError::AddressOverflow { line, address: sat_u64(a) })
                    }
                } else {
                    if vn < 32768 {
                        prepend_line(
                            encode_address(vn),
                            pass2(ns.drop_first(), tbl.insert(sym, vn), vn + 1),
                        )
                    } else {
                        Err(SpecError::AddressOverflow { line, address: sat_u64(vn) })
                    }
                }
            },
            Some(SpecInstruction::Compute { dest, comp, jump }) => {
                match encode_compute(dest, comp, jump) {
                    Some(bits16) => prepend_line(bits16, pass2(ns.drop_first(), tbl, vn)),
                    None => Err(SpecError::UnknownMnemonic { line, token: comp }),
                }
            },
        }
    }
}

/// The whole translation: normalize, resolve labels, then encode with
/// variable allocation starting at address 16.
pub open spec fn assemble_spec(s: Seq<char>) -> Result<Seq<char>, SpecError> {
    let ns = instructions_of(s);
    match pass1(ns, 0, initial_table()) {
        Err(e) => Err(e),
        Ok(tbl) => pass2(ns, tbl, 16),
    }
}

/// The translation result seen at the spec level.
pub open spec fn res_view(r: Result<String, AsmError>) -> Result<Seq<char>, SpecError> {
    match r {
        Ok(out) => Ok(out@),
        Err(e) => Err(e@),
    }
}

/// Law: the pre-seeded names resolve to their fixed addresses — `R0`
/// through `R15` to 0 through 15, the five pointer names to 0 through 4,
/// `SCREEN` to 16384 and `KBD` to 24576.
pub proof fn lemma_predefined_registers()
    ensures
        initial_table().contains_key("R0"@) && initial_table()["R0"@] == 0,
        initial_table().contains_key("R1"@) && initial_table()["R1"@] == 1,
        initial_table().contains_key("R2"@) && initial_table()["R2"@] == 2,
        initial_table().contains_key("R3"@) && initial_table()["R3"@] == 3,
        initial_table().contains_key("R4"@) && initial_table()["R4"@] == 4,
        initial_table().contains_key("R5"@) && initial_table()["R5"@] == 5,
        initial_table().contains_key("R6"@) && initial_table()["R6"@] == 6,
        initial_table().contains_key("R7"@) && initial_table()["R7"@] == 7,
        initial_table().contains_key("R8"@) && initial_table()["R8"@] == 8,
        initial_table().contains_key("R9"@) && initial_table()["R9"@] == 9,
        initial_table().contains_key("R10"@) && initial_table()["R10"@] == 10,
        initial_table().contains_key("R11"@) && initial_table()["R11"@] == 11,
        initial_table().contains_key("R12"@) && initial_table()["R12"@] == 12,
        initial_table().contains_key("R13"@) && initial_table()["R13"@] == 13,
        initial_table().contains_key("R14"@) && initial_table()["R14"@] == 14,
        initial_table().contains_key("R15"@) && initial_table()["R15"@] == 15,
        initial_table().contains_key("SP"@) && initial_table()["SP"@] == 0,
        initial_table().contains_key("LCL"@) && initial_table()["LCL"@] == 1,
        initial_table().contains_key("ARG"@) && initial_table()["ARG"@] == 2,
        initial_table().contains_key("THIS"@) && initial_table()["THIS"@] == 3,
        initial_table().contains_key("THAT"@) && initial_table()["THAT"@] == 4,
        initial_table().contains_key("SCREEN"@) && initial_table()["SCREEN"@] == 16384,
        initial_table().contains_key("KBD"@) && initial_table()["KBD"@] == 24576,
{
    broadcast use vstd::string::group_string_axioms;

    reveal_strlit("SP");
    reveal_strlit("LCL");
    reveal_strlit("ARG");
    reveal_strlit("THIS");
    reveal_strlit("THAT");
    reveal_strlit("R0");
    reveal_strlit("R1");
    reveal_strlit("R2");
    reveal_strlit("R3");
    reveal_strlit("R4");
    reveal_strlit("R5");
    reveal_strlit("R6");
    reveal_strlit("R7");
    reveal_strlit("R8");
    reveal_strlit("R9");
    reveal_strlit("R10");
    reveal_strlit("R11");
    reveal_strlit("R12");
    reveal_strlit("R13");
    reveal_strlit("R14");
    reveal_strlit("R15");
    reveal_strlit("SCREEN");
    reveal_strlit("KBD");
    assert("SP"@.len() == 2);
    assert("SP"@[0] == 'S');
    assert("SP"@[1] == 'P');
    assert("LCL"@.len() == 3);
    assert("LCL"@[0] == 'L');
    assert("LCL"@[1] == 'C');
    assert("LCL"@[2] == 'L');
    assert("ARG"@.len() == 3);
    assert("ARG"@[0] == 'A');
    assert("ARG"@[1] == 'R');
    assert("ARG"@[2] == 'G');
    assert("THIS"@.len() == 4);
    assert("THIS"@[0] == 'T');
    assert("THIS"@[1] == 'H');
    assert("THIS"@[2] == 'I');
    assert("THIS"@[3] == 'S');
    assert("THAT"@.len() == 4);
    assert("THAT"@[0] == 'T');
    assert("THAT"@[1] == 'H');
    assert("THAT"@[2] == 'A');
    assert("THAT"@[3] == 'T');
    assert("R0"@.len() == 2);
    assert("R0"@[0] == 'R');
    assert("R0"@[1] == '0');
    assert("R1"@.len() == 2);
    assert("R1"@[0] == 'R');
    assert("R1"@[1] == '1');
    assert("R2"@.len() == 2);
    assert("R2"@[0] == 'R');
    assert("R2"@[1] == '2');
    assert("R3"@.len() == 2);
    assert("R3"@[0] == 'R');
    assert("R3"@[1] == '3');
    assert("R4"@.len() == 2);
    assert("R4"@[0] == 'R');
    assert("R4"@[1] == '4');
    assert("R5"@.len() == 2);
    assert("R5"@[0] == 'R');
    assert("R5"@[1] == '5');
    assert("R6"@.len() == 2);
    assert("R6"@[0] == 'R');
    assert("R6"@[1] == '6');
    assert("R7"@.len() == 2);
    assert("R7"@[0] == 'R');
    assert("R7"@[1] == '7');
    assert("R8"@.len() == 2);
    assert("R8"@[0] == 'R');
    assert("R8"@[1] == '8');
    assert("R9"@.len() == 2);
    assert("R9"@[0] == 'R');
    assert("R9"@[1] == '9');
    assert("R10"@.len() == 3);
    assert("R10"@[0] == 'R');
    assert("R10"@[1] == '1');
    assert("R10"@[2] == '0');
    assert("R11"@.len() == 3);
    assert("R11"@[0] == 'R');
    assert("R11"@[1] == '1');
    assert("R11"@[2] == '1');
    assert("R12"@.len() == 3);
    assert("R12"@[0] == 'R');
    assert("R12"@[1] == '1');
    assert("R12"@[2] == '2');
    assert("R13"@.len() == 3);
    assert("R13"@[0] == 'R');
    assert("R13"@[1] == '1');
    assert("R13"@[2] == '3');
    assert("R14"@.len() == 3);
    assert("R14"@[0] == 'R');
    assert("R14"@[1] == '1');
    assert("R14"@[2] == '4');
    assert("R15"@.len() == 3);
    assert("R15"@[0] == 'R');
    assert("R15"@[1] == '1');
    assert("R15"@[2] == '5');
    assert("SCREEN"@.len() == 6);
    assert("SCREEN"@[0] == 'S');
    assert("SCREEN"@[1] == 'C');
    assert("SCREEN"@[2] == 'R');
    assert("SCREEN"@[3] == 'E');
    assert("SCREEN"@[4] == 'E');
    assert("SCREEN"@[5] == 'N');
    assert("KBD"@.len() == 3);
    assert("KBD"@[0] == 'K');
    assert("KBD"@[1] == 'B');
    assert("KBD"@[2] == 'D');
}

/// Law: an address instruction with a numeric operand below 2^15 encodes as
/// that number — a leading `0` and the 15-bit binary form, by
/// `crate::encode::lemma_address_encoding` — and touches neither the table
/// nor the variable counter.
pub proof fn lemma_numeric_instruction_encoding(
    ns: Seq<SpecNormLine>,
    tbl: Map<Seq<char>, nat>,
    vn: nat,
    digits: Seq<char>,
)
    requires
        ns.len() > 0,
        classify(ns[0].text) == Some(SpecInstruction::Address(SpecOperand::Numeric(digits))),
        dec_value(digits) < 32768,
    ensures
        pass2(ns, tbl, vn) == prepend_line(
            encode_address(dec_value(digits)),
            pass2(ns.drop_first(), tbl, vn),
        ),
{
}

/// Law: an address instruction whose symbol is already bound, a register
/// or label among them, is encoded straight from its binding — the table
/// and the variable counter go to the rest of the pass unchanged, so no
/// variable-address slot is consumed.
pub proof fn lemma_bound_symbol_uses_binding(
    ns: Seq<SpecNormLine>,
    tbl: Map<Seq<char>, nat>,
    vn: nat,
    sym: Seq<char>,
)
    requires
        ns.len() > 0,
        classify(ns[0].text) == Some(SpecInstruction::Address(SpecOperand::Symbolic(sym))),
        tbl.contains_key(sym),
        tbl[sym] < 32768,
    ensures
        pass2(ns, tbl, vn) == prepend_line(encode_address(tbl[sym]), pass2(ns.drop_first(), tbl, vn)),
{
}

/// Law: an address instruction whose symbol is not yet bound allocates the
/// next free variable address: the instruction encodes as that address, and
/// the rest of the pass runs with the symbol bound to it and the counter
/// advanced by one.  Re-encountering the symbol later therefore yields the
/// same address, by `lemma_bound_symbol_uses_binding`.
pub proof fn lemma_fresh_symbol_allocation(
    ns: Seq<SpecNormLine>,
    tbl: Map<Seq<char>, nat>,
    vn: nat,
    sym: Seq<char>,
)
    requires
        ns.len() > 0,
        classify(ns[0].text) == Some(SpecInstruction::Address(SpecOperand::Symbolic(sym))),
        !tbl.contains_key(sym),
        vn < 32768,
    ensures
        pass2(ns, tbl, vn) == prepend_line(
            encode_address(vn),
            pass2(ns.drop_first(), tbl.insert(sym, vn), vn + 1),
        ),
{
}

/// Law: two distinct never-bound symbols met in successive address
/// instructions take successive variable addresses, `vn` then `vn + 1`.
pub proof fn lemma_variable_allocation_monotonic(
    ns: Seq<SpecNormLine>,
    tbl: Map<Seq<char>, nat>,
    vn: nat,
    sym1: Seq<char>,
    sym2: Seq<char>,
)
    requires
        ns.len() >= 2,
        classify(ns[0].text) == Some(SpecInstruction::Address(SpecOperand::Symbolic(sym1))),
        classify(ns[1].text) == Some(SpecInstruction::Address(SpecOperand::Symbolic(sym2))),
        !tbl.contains_key(sym1),
        !tbl.contains_key(sym2),
        sym1 != sym2,
        vn + 1 < 32768,
    ensures
        pass2(ns, tbl, vn) == prepend_line(
            encode_address(vn),
            prepend_line(
                encode_address(vn + 1),
                pass2(ns.drop_first().drop_first(), tbl.insert(sym1, vn).insert(sym2, vn + 1), vn + 2),
            ),
        ),
{
    lemma_fresh_symbol_allocation(ns, tbl, vn, sym1);
    assert(ns.drop_first()[0] == ns[1]);
    lemma_fresh_symbol_allocation(ns.drop_first(), tbl.insert(sym1, vn), vn + 1, sym2);
}

/// Machine-code text: a sequence of 17-character groups, each 16 `0`/`1`
/// characters closed by a newline.
pub open spec fn machine_code_text(s: Seq<char>) -> bool {
    &&& s.len() % 17 == 0
    &&& forall|i: int| 0 <= i < s.len() && i % 17 == 16 ==> s[i] == '\n'
    &&& forall|i: int|
        0 <= i < s.len() && i % 17 != 16 ==> crate::encode::is_bit_char(s[i])
}

proof fn lemma_machine_code_prepend(line16: Seq<char>, out: Seq<char>)
    requires
        line16.len() == 16,
        forall|i: int| 0 <= i < 16 ==> crate::encode::is_bit_char(line16[i]),
        machine_code_text(out),
    ensures
        machine_code_text(line16 + seq!['\n'] + out),
{
    let whole = line16 + seq!['\n'] + out;
    assert(whole.len() == 17 + out.len());
    assert forall|i: int| 0 <= i < whole.len() && i % 17 == 16 implies whole[i] == '\n' by {
        if i < 16 {
            assert(i % 17 == i);
        } else if i == 16 {
            assert(whole[i] == seq!['\n'][0]);
        } else {
            assert(whole[i] == out[i - 17]);
            assert((i - 17) % 17 == i % 17);
        }
    }
    assert forall|i: int|
        0 <= i < whole.len() && i % 17 != 16 implies crate::encode::is_bit_char(whole[i]) by {
        if i < 16 {
            assert(whole[i] == line16[i]);
        } else if i == 16 {
            assert(i % 17 == 16);
        } else {
            assert(whole[i] == out[i - 17]);
            assert((i - 17) % 17 == i % 17);
        }
    }
}

/// Law: whenever pass 2 succeeds, its output is machine-code text — one
/// 16-character binary group per encoded instruction, each closed by a
/// newline, and nothing else.
pub proof fn lemma_pass2_output_format(ns: Seq<SpecNormLine>, tbl: Map<Seq<char>, nat>, vn: nat)
    requires
        pass2(ns, tbl, vn) is Ok,
    ensures
        machine_code_text(pass2(ns, tbl, vn)->Ok_0),
    decreases ns.len(),
{
    if ns.len() == 0 {
    } else {
        match classify(ns[0].text) {
            None => {},
            Some(SpecInstruction::Label(_)) => {
                lemma_pass2_output_format(ns.drop_first(), tbl, vn);
            },
            Some(SpecInstruction::Address(SpecOperand::Numeric(digits))) => {
                let n = dec_value(digits);
                lemma_pass2_output_format(ns.drop_first(), tbl, vn);
                crate::encode::lemma_address_encoding(n);
                lemma_machine_code_prepend(
                    encode_address(n),
                    pass2(ns.drop_first(), tbl, vn)->Ok_0,
                );
            },
            Some(SpecInstruction::Address(SpecOperand::Symbolic(sym))) => {
                if tbl.contains_key(sym) {
                    let a = tbl[sym];
                    lemma_pass2_output_format(ns.drop_first(), tbl, vn);
                    crate::encode::lemma_address_encoding(a);
                    lemma_machine_code_prepend(
                        encode_address(a),
                        pass2(ns.drop_first(), tbl, vn)->Ok_0,
                    );
                } else {
                    lemma_pass2_output_format(ns.drop_first(), tbl.insert(sym, vn), vn + 1);
                    crate::encode::lemma_address_encoding(vn);
                    lemma_machine_code_prepend(
                        encode_address(vn),
                        pass2(ns.drop_first(), tbl.insert(sym, vn), vn + 1)->Ok_0,
                    );
                }
            },
            Some(SpecInstruction::Compute { dest, comp, jump }) => {
                lemma_pass2_output_format(ns.drop_first(), tbl, vn);
                crate::encode::lemma_encode_compute_shape(dest, comp, jump);
                lemma_machine_code_prepend(
                    encode_compute(dest, comp, jump)->Some_0,
                    pass2(ns.drop_first(), tbl, vn)->Ok_0,
                );
            },
        }
    }
}

/// Law: a successful translation yields machine-code text: exactly one
/// 16-character `0`/`1` line per non-label instruction, each newline-closed.
pub proof fn lemma_assemble_output_format(s: Seq<char>)
    requires
        assemble_spec(s) is Ok,
    ensures
        machine_code_text(assemble_spec(s)->Ok_0),
{
    let ns = instructions_of(s);
    match pass1(ns, 0, initial_table()) {
        Err(_) => {},
        Ok(tbl) => {
            lemma_pass2_output_format(ns, tbl, 16);
        },
    }
}

/// Whether a text is a real instruction: classified, and not a label.
pub open spec fn is_code_text(t: Seq<char>) -> bool {
    match classify(t) {
        Some(SpecInstruction::Label(_)) => false,
        Some(_) => true,
        None => false,
    }
}

/// How many of the given instructions occupy a ROM word.
pub open spec fn code_count(ns: Seq<SpecNormLine>) -> nat
    decreases ns.len(),
{
    if ns.len() == 0 {
        0
    } else {
        (if is_code_text(ns[0].text) {
            1nat
        } else {
            0nat
        }) + code_count(ns.drop_first())
    }
}

/// Law: a binding present before pass 1 is never overwritten — the pass
/// keeps every existing address, a pre-seeded register's among them.
pub proof fn lemma_pass1_preserves_bindings(
    ns: Seq<SpecNormLine>,
    rom: nat,
    tbl: Map<Seq<char>, nat>,
    tbl2: Map<Seq<char>, nat>,
    k: Seq<char>,
)
    requires
        pass1(ns, rom, tbl) == Ok::<Map<Seq<char>, nat>, SpecError>(tbl2),
        tbl.contains_key(k),
    ensures
        tbl2.contains_key(k),
        tbl2[k] == tbl[k],
    decreases ns.len(),
{
    if ns.len() == 0 {
    } else {
        match classify(ns[0].text) {
            None => {},
            Some(SpecInstruction::Label(sym)) => {
                lemma_pass1_preserves_bindings(
                    ns.drop_first(),
                    rom,
                    tbl.insert(sym, rom),
                    tbl2,
                    k,
                );
            },
            Some(_) => {
                lemma_pass1_preserves_bindings(ns.drop_first(), rom + 1, tbl, tbl2, k);
            },
        }
    }
}

/// Law: when pass 1 succeeds, a label declared at position `j` is bound to
/// `rom` plus the number of ROM words occupied before it — the ROM index of
/// the instruction that follows it.  Pass 2 then encodes every address
/// instruction naming that symbol as this index, before or after the label
/// in the text (`lemma_bound_symbol_uses_binding`): forward references
/// resolve exactly like backward ones.
pub proof fn lemma_label_resolution(
    ns: Seq<SpecNormLine>,
    rom: nat,
    tbl: Map<Seq<char>, nat>,
    tbl2: Map<Seq<char>, nat>,
    j: int,
    sym: Seq<char>,
)
    requires
        pass1(ns, rom, tbl) == Ok::<Map<Seq<char>, nat>, SpecError>(tbl2),
        0 <= j < ns.len(),
        classify(ns[j].text) == Some(SpecInstruction::Label(sym)),
    ensures
        tbl2.contains_key(sym),
        tbl2[sym] == rom + code_count(ns.take(j)),
    decreases j,
{
    if j == 0 {
        assert(ns.take(0) =~= Seq::<SpecNormLine>::empty());
        assert(!tbl.contains_key(sym));
        lemma_pass1_preserves_bindings(ns.drop_first(), rom, tbl.insert(sym, rom), tbl2, sym);
    } else {
        let rest = ns.drop_first();
        assert(rest[j - 1] == ns[j]);
        assert(ns.take(j)[0] == ns[0]);
        assert(ns.take(j).drop_first() =~= rest.take(j - 1));
        match classify(ns[0].text) {
            None => {},
            Some(SpecInstruction::Label(s0)) => {
                lemma_label_resolution(rest, rom, tbl.insert(s0, rom), tbl2, j - 1, sym);
            },
            Some(_) => {
                lemma_label_resolution(rest, rom + 1, tbl, tbl2, j - 1, sym);
            },
        }
    }
}

/// Appends the characters of `v` to `out`.
fn append_chars(out: &mut String, v: &Vec<char>)
    ensures
        final(out)@ == old(out)@ + v@,
{
    let mut i: usize = 0;
    while i < v.len()
        invariant
            i <= v.len(),
            out@ == old(out)@ + v@.subrange(0, i as int),
        decreases v.len() - i,
    {
        push_char(out, v[i]);
        i += 1;
        proof {
            assert(old(out)@ + v@.subrange(0, i as int) =~= (old(out)@ + v@.subrange(
                0,
                i as int - 1,
            )).push(v@[i as int - 1]));
        }
    }
    proof {
        assert(old(out)@ + v@.subrange(0, v@.len() as int) =~= old(out)@ + v@);
    }
}

/// Pass 1: binds every label of `ns` to its ROM address, starting from the
/// pre-seeded table.
#[verifier::loop_isolation(false)]
fn build_symbol_table(ns: &Vec<NormLine>, tbl: SymbolTable) -> (r: Result<SymbolTable, AsmError>)
    ensures
        match r {
            Ok(t2) => pass1(norms_view(ns@), 0, tbl@) == Ok::<Map<Seq<char>, nat>, SpecError>(
                t2@,
            ),
            Err(e) => pass1(norms_view(ns@), 0, tbl@) == Err::<Map<Seq<char>, nat>, SpecError>(
                e@,
            ),
        },
{
    let ghost ns0 = norms_view(ns@);
    let ghost tbl0 = tbl@;
    let mut table = tbl;
    let mut rom: usize = 0;
    let mut i: usize = 0;
    proof {
        assert(ns0.skip(0) =~= ns0);
    }
    while i < ns.len()
        invariant
            i <= ns.len(),
            rom <= i,
            ns0 == norms_view(ns@),
            pass1(ns0, 0, tbl0) == pass1(ns0.skip(i as int), rom as nat, table@),
        decreases ns.len() - i,
    {
        let entry = &ns[i];
        proof {
            assert(ns0[i as int] == ns@[i as int]@);
            assert(ns0.skip(i as int)[0] == ns0[i as int]);
            assert(ns0.skip(i as int).drop_first() =~= ns0.skip(i as int + 1));
        }
        match classify_text(&entry.text) {
            None => {
                return Err(AsmError::Syntax { line: entry.line });
            },
            Some(instr) => {
                match instr {
                    Instruction::Label { symbol } => {
                        if table.contains(&symbol) {
                            return Err(
                                AsmError::DuplicateBinding { symbol: chars_to_string(&symbol) },
                            );
                        }
                        match table.bind(symbol, rom) {
                            Ok(()) => {},
                            Err(()) => {
                                return unreached();
                            },
                        }
                    },
                    _ => {
                        rom += 1;
                    },
                }
            },
        }
        i += 1;
    }
    proof {
        assert(ns0.skip(ns@.len() as int) =~= Seq::<SpecNormLine>::empty());
    }
    Ok(table)
}

/// Within-pass accumulator: output already produced, in front of what the
/// rest of the pass yields.
pub open spec fn with_prefix(
    prefix: Seq<char>,
    rest: Result<Seq<char>, SpecError>,
) -> Result<Seq<char>, SpecError> {
    match rest {
        Ok(out) => Ok(prefix + out),
        Err(e) => Err(e),
    }
}

/// Pass 2: resolves operands, allocates variable addresses from 16 upward,
/// and encodes every instruction into the output text.
#[verifier::loop_isolation(false)]
fn encode_program(ns: &Vec<NormLine>, tbl: SymbolTable) -> (r: Result<String, AsmError>)
    ensures
        match r {
            Ok(out) => pass2(norms_view(ns@), tbl@, 16) == Ok::<Seq<char>, SpecError>(out@),
            Err(e) => pass2(norms_view(ns@), tbl@, 16) == Err::<Seq<char>, SpecError>(e@),
        },
{
    let ghost ns0 = norms_view(ns@);
    let ghost tbl0 = tbl@;
    let mut table = tbl;
    let mut vn: usize = 16;
    let mut out = String::new();
    let mut i: usize = 0;
    proof {
        assert(ns0.skip(0) =~= ns0);
        let r = pass2(ns0, tbl0, 16);
        if r is Ok {
            assert(Seq::<char>::empty() + r->Ok_0 =~= r->Ok_0);
        }
    }
    while i < ns.len()
        invariant
            i <= ns.len(),
            16 <= vn <= 32768,
            ns0 == norms_view(ns@),
            pass2(ns0, tbl0, 16) == with_prefix(out@, pass2(ns0.skip(i as int), table@, vn as nat)),
        decreases ns.len() - i,
    {
        let entry = &ns[i];
        proof {
            assert(ns0[i as int] == ns@[i as int]@);
            assert(ns0.skip(i as int)[0] == ns0[i as int]);
            assert(ns0.skip(i as int).drop_first() =~= ns0.skip(i as int + 1));
        }
        let ghost prev_out = out@;
        match classify_text(&entry.text) {
            None => {
                return Err(AsmError::Syntax { line: entry.line });
            },
            Some(instr) => {
                match instr {
                    Instruction::Label { symbol: _ } => {},
                    Instruction::Address { operand } => {
                        match operand {
                            Operand::Numeric(digits) => {
                                let v = crate::encode::parse_dec_sat(&digits);
                                if v < 32768 {
                                    let cmd = cmd_a(v as usize);
                                    match encode_command(&cmd, entry.line) {
                                        Ok(b) => {
                                            append_chars(&mut out, &b);
                                            push_char(&mut out, '\n');
                                            proof {
                                                lemma_with_prefix_step(
                                                    prev_out,
                                                    b@,
                                                    pass2(
                                                        ns0.skip(i as int + 1),
                                                        table@,
                                                        vn as nat,
                                                    ),
                                                );
                                            }
                                        },
                                        Err(_) => {
                                            return unreached();
                                        },
                                    }
                                } else {
                                    return Err(
                                        AsmError::AddressOverflow { line: entry.line, address: v },
                                    );
                                }
                            },
                            Operand::Symbolic(sym) => {
                                match table.get(&sym) {
                                    Some(a) => {
                                        let cmd = cmd_a(a);
                                        match encode_command(&cmd, entry.line) {
                                            Ok(b) => {
                                                append_chars(&mut out, &b);
                                                push_char(&mut out, '\n');
                                                proof {
                                                    lemma_with_prefix_step(
                                                        prev_out,
                                                        b@,
                                                        pass2(
                                                            ns0.skip(i as int + 1),
                                                            table@,
                                                            vn as nat,
                                                        ),
                                                    );
                                                }
                                            },
                                            Err(e) => {
                                                return Err(e);
                                            },
                                        }
                                    },
                                    None => {
                                        if vn < 32768 {
                                            let a = vn;
                                            match table.bind(sym, a) {
                                                Ok(()) => {},
                                                Err(()) => {
                                                    return unreached();
                                                },
                                            }
                                            vn += 1;
                                            let cmd = cmd_a(a);
                                            match encode_command(&cmd, entry.line) {
                                                Ok(b) => {
                                                    append_chars(&mut out, &b);
                                                    push_char(&mut out, '\n');
                                                    proof {
                                                        lemma_with_prefix_step(
                                                            prev_out,
                                                            b@,
                                                            pass2(
                                                                ns0.skip(i as int + 1),
                                                                table@,
                                                                vn as nat,
                                                            ),
                                                        );
                                                    }
                                                },
                                                Err(_) => {
                                                    return unreached();
                                                },
                                            }
                                        } else {
                                            return Err(
                                                AsmError::AddressOverflow {
                                                    line: entry.line,
                                                    address: vn as u64,
                                                },
                                            );
                                        }
                                    },
                                }
                            },
                        }
                    },
                    Instruction::Compute { dest, comp, jump } => {
                        let cmd = cmd_c(dest, comp, jump);
                        match encode_command(&cmd, entry.line) {
                            Ok(b) => {
                                append_chars(&mut out, &b);
                                push_char(&mut out, '\n');
                                proof {
                                    lemma_with_prefix_step(
                                        prev_out,
                                        b@,
                                        pass2(ns0.skip(i as int + 1), table@, vn as nat),
                                    );
                                }
                            },
                            Err(e) => {
                                return Err(e);
                            },
                        }
                    },
                }
            },
        }
        i += 1;
    }
    proof {
        assert(ns0.skip(ns@.len() as int) =~= Seq::<SpecNormLine>::empty());
        assert(out@ + Seq::<char>::empty() =~= out@);
    }
    Ok(out)
}

proof fn lemma_with_prefix_step(
    prefix: Seq<char>,
    line16: Seq<char>,
    rest: Result<Seq<char>, SpecError>,
)
    ensures
        with_prefix(prefix, prepend_line(line16, rest)) == with_prefix(
            prefix + line16 + seq!['\n'],
            rest,
        ),
        (prefix + line16).push('\n') == prefix + line16 + seq!['\n'],
{
    assert((prefix + line16).push('\n') =~= prefix + line16 + seq!['\n']);
    if rest is Ok {
        assert(prefix + (line16 + seq!['\n'] + rest->Ok_0) =~= (prefix + line16 + seq!['\n'])
            + rest->Ok_0);
    }
}

/// Translates a whole source text: the machine-language output, or the
/// first error either pass finds.
pub fn assemble_source(source: &str) -> (r: Result<String, AsmError>)
    ensures
        res_view(r) == assemble_spec(source@),
{
    let source_chars = str_to_chars(source);
    let ns = normalized_instructions(&source_chars);
    let table = SymbolTable::new();
    match build_symbol_table(&ns, table) {
        Err(e) => Err(e),
        Ok(t2) => encode_program(&ns, t2),
    }
}

} // verus!
