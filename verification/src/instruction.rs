//! Instruction classification: a normalized instruction text is parsed into
//! exactly one of the three grammar productions — a compute instruction
//! `[dest=]comp[;jump]`, an address instruction `@operand`, or a label
//! declaration `(SYMBOL)` — or rejected.
//!
//! The productions are tried in that order; they are mutually exclusive on
//! any single text, so the order only fixes which test runs first.

use vstd::prelude::*;

use crate::chars::{
    comp_char, digit_char, is_comp_char, is_digit_char, is_symbol_char, subvec, symbol_char,
    find_char,
};
use crate::normalize::{first_pos, lemma_first_pos_unique};

verus! {

/// Spec form of an address-instruction operand.
pub enum SpecOperand {
    Numeric(Seq<char>),
    Symbolic(Seq<char>),
}

/// Spec form of a classified instruction.
pub enum SpecInstruction {
    Address(SpecOperand),
    Compute { dest: Seq<char>, comp: Seq<char>, jump: Seq<char> },
    Label(Seq<char>),
}

/// Every character is a decimal digit.
pub open spec fn all_digits(s: Seq<char>) -> bool {
    forall|i: int| 0 <= i < s.len() ==> is_digit_char(s[i])
}

/// A well-formed symbol: non-empty, not starting with a digit, and made of
/// letters, digits, `_`, `.`, `$`, `:` only.
pub open spec fn is_symbol_text(s: Seq<char>) -> bool {
    &&& s.len() > 0
    &&& !is_digit_char(s[0])
    &&& forall|i: int| 0 <= i < s.len() ==> is_symbol_char(s[i])
}

/// The eight destination mnemonics, the empty one included.
pub open spec fn is_dest_text(d: Seq<char>) -> bool {
    ||| d == Seq::<char>::empty()
    ||| d == seq!['M']
    ||| d == seq!['D']
    ||| d == seq!['M', 'D']
    ||| d == seq!['A']
    ||| d == seq!['A', 'M']
    ||| d == seq!['A', 'D']
    ||| d == seq!['A', 'M', 'D']
}

/// The eight jump mnemonics, the empty one included.
pub open spec fn is_jump_text(j: Seq<char>) -> bool {
    ||| j == Seq::<char>::empty()
    ||| j == seq!['J', 'G', 'T']
    ||| j == seq!['J', 'E', 'Q']
    ||| j == seq!['J', 'G', 'E']
    ||| j == seq!['J', 'L', 'T']
    ||| j == seq!['J', 'N', 'E']
    ||| j == seq!['J', 'L', 'E']
    ||| j == seq!['J', 'M', 'P']
}

/// A syntactically possible comp token: non-empty, over the comp alphabet.
/// Whether it names one of the defined computations is decided by the
/// encoding tables, not here.
pub open spec fn is_comp_text(c: Seq<char>) -> bool {
    c.len() > 0 && forall|i: int| 0 <= i < c.len() ==> is_comp_char(c[i])
}

/// The dest field of `t`: what stands before the first `=`, if any.
pub open spec fn c_dest(t: Seq<char>) -> Seq<char> {
    if first_pos(t, '=') < t.len() {
        t.take(first_pos(t, '=') as int)
    } else {
        Seq::<char>::empty()
    }
}

/// What remains of `t` after the optional `dest=` prefix.
pub open spec fn c_rest(t: Seq<char>) -> Seq<char> {
    if first_pos(t, '=') < t.len() {
        t.skip(first_pos(t, '=') as int + 1)
    } else {
        t
    }
}

/// The comp field of `t`: the rest up to the first `;`, if any.
pub open spec fn c_comp(t: Seq<char>) -> Seq<char> {
    c_rest(t).take(first_pos(c_rest(t), ';') as int)
}

/// The jump field of `t`: what stands after the first `;` of the rest.
pub open spec fn c_jump(t: Seq<char>) -> Seq<char> {
    let r = c_rest(t);
    if first_pos(r, ';') < r.len() {
        r.skip(first_pos(r, ';') as int + 1)
    } else {
        Seq::<char>::empty()
    }
}

/// `t` matches the compute-instruction production.
pub open spec fn is_c_instruction(t: Seq<char>) -> bool {
    is_dest_text(c_dest(t)) && is_comp_text(c_comp(t)) && is_jump_text(c_jump(t))
}

/// `t` matches the address-instruction production with a numeric operand.
pub open spec fn is_a_numeric(t: Seq<char>) -> bool {
    t.len() >= 2 && t[0] == '@' && all_digits(t.skip(1))
}

/// `t` matches the address-instruction production with a symbolic operand.
pub open spec fn is_a_symbolic(t: Seq<char>) -> bool {
    t.len() >= 2 && t[0] == '@' && is_symbol_text(t.skip(1))
}

/// `t` matches the label-declaration production.
pub open spec fn is_label_text(t: Seq<char>) -> bool {
    t.len() >= 3 && t[0] == '(' && t[t.len() - 1] == ')' && is_symbol_text(
        t.subrange(1, t.len() - 1),
    )
}

/// Classification of one normalized instruction text: the matching
/// production, or `None` when the text is invalid.
pub open spec fn classify(t: Seq<char>) -> Option<SpecInstruction> {
    if is_c_instruction(t) {
        Some(
            SpecInstruction::Compute { dest: c_dest(t), comp: c_comp(t), jump: c_jump(t) },
        )
    } else if is_a_numeric(t) {
        Some(SpecInstruction::Address(SpecOperand::Numeric(t.skip(1))))
    } else if is_a_symbolic(t) {
        Some(SpecInstruction::Address(SpecOperand::Symbolic(t.skip(1))))
    } else if is_label_text(t) {
        Some(SpecInstruction::Label(t.subrange(1, t.len() - 1)))
    } else {
        None
    }
}

/// Exec form of an address-instruction operand.  A numeric operand keeps its
/// digit text, so that operands of any magnitude are represented exactly.
pub enum Operand {
    Numeric(Vec<char>),
    Symbolic(Vec<char>),
}

impl View for Operand {
    type V = SpecOperand;

    open spec fn view(&self) -> SpecOperand {
        match self {
            Operand::Numeric(d) => SpecOperand::Numeric(d@),
            Operand::Symbolic(s) => SpecOperand::Symbolic(s@),
        }
    }
}

/// Exec form of a classified instruction.
pub enum Instruction {
    Address { operand: Operand },
    Compute { dest: Vec<char>, comp: Vec<char>, jump: Vec<char> },
    Label { symbol: Vec<char> },
}

impl View for Instruction {
    type V = SpecInstruction;

    open spec fn view(&self) -> SpecInstruction {
        match self {
            Instruction::Address { operand } => SpecInstruction::Address(operand@),
            Instruction::Compute { dest, comp, jump } => SpecInstruction::Compute {
                dest: dest@,
                comp: comp@,
                jump: jump@,
            },
            Instruction::Label { symbol } => SpecInstruction::Label(symbol@),
        }
    }
}

/// The classification result seen at the spec level.
pub open spec fn opt_instr_view(r: Option<Instruction>) -> Option<SpecInstruction> {
    match r {
        Some(i) => Some(i@),
        None => None,
    }
}

fn all_digits_exec(v: &Vec<char>) -> (r: bool)
    ensures
        r == all_digits(v@),
{
    let mut i: usize = 0;
    while i < v.len()
        invariant
            i <= v.len(),
            forall|k: int| 0 <= k < i ==> is_digit_char(v@[k]),
        decreases v.len() - i,
    {
        if !digit_char(v[i]) {
            return false;
        }
        i += 1;
    }
    true
}

fn is_symbol_exec(v: &Vec<char>) -> (r: bool)
    ensures
        r == is_symbol_text(v@),
{
    if v.len() == 0 {
        return false;
    }
    if digit_char(v[0]) {
        return false;
    }
    let mut i: usize = 0;
    while i < v.len()
        invariant
            i <= v.len(),
            forall|k: int| 0 <= k < i ==> is_symbol_char(v@[k]),
        decreases v.len() - i,
    {
        if !symbol_char(v[i]) {
            return false;
        }
        i += 1;
    }
    true
}

fn is_comp_exec(v: &Vec<char>) -> (r: bool)
    ensures
        r == is_comp_text(v@),
{
    if v.len() == 0 {
        return false;
    }
    let mut i: usize = 0;
    while i < v.len()
        invariant
            i <= v.len(),
            forall|k: int| 0 <= k < i ==> is_comp_char(v@[k]),
        decreases v.len() - i,
    {
        if !comp_char(v[i]) {
            return false;
        }
        i += 1;
    }
    true
}

fn is_dest_exec(d: &Vec<char>) -> (r: bool)
    ensures
        r == is_dest_text(d@),
{
    proof {
        assert(d@.len() == 0 ==> d@ =~= Seq::<char>::empty());
    }
    if d.len() == 0 {
        true
    } else if d.len() == 1 {
        let c0 = d[0];
        proof {
            if d@[0] == 'M' {
                assert(d@ =~= seq!['M']);
            }
            if d@[0] == 'D' {
                assert(d@ =~= seq!['D']);
            }
            if d@[0] == 'A' {
                assert(d@ =~= seq!['A']);
            }
        }
        c0 == 'M' || c0 == 'D' || c0 == 'A'
    } else if d.len() == 2 {
        let c0 = d[0];
        let c1 = d[1];
        proof {
            if d@[0] == 'M' && d@[1] == 'D' {
                assert(d@ =~= seq!['M', 'D']);
            }
            if d@[0] == 'A' && d@[1] == 'M' {
                assert(d@ =~= seq!['A', 'M']);
            }
            if d@[0] == 'A' && d@[1] == 'D' {
                assert(d@ =~= seq!['A', 'D']);
            }
        }
        (c0 == 'M' && c1 == 'D') || (c0 == 'A' && c1 == 'M') || (c0 == 'A' && c1 == 'D')
    } else if d.len() == 3 {
        let c0 = d[0];
        let c1 = d[1];
        let c2 = d[2];
        proof {
            if d@[0] == 'A' && d@[1] == 'M' && d@[2] == 'D' {
                assert(d@ =~= seq!['A', 'M', 'D']);
            }
        }
        c0 == 'A' && c1 == 'M' && c2 == 'D'
    } else {
        false
    }
}

fn is_jump_exec(j: &Vec<char>) -> (r: bool)
    ensures
        r == is_jump_text(j@),
{
    proof {
        assert(j@.len() == 0 ==> j@ =~= Seq::<char>::empty());
    }
    if j.len() == 0 {
        true
    } else if j.len() == 3 {
        let c0 = j[0];
        let c1 = j[1];
        let c2 = j[2];
        if c0 != 'J' {
            return false;
        }
        proof {
            if j@[1] == 'G' && j@[2] == 'T' {
                assert(j@ =~= seq!['J', 'G', 'T']);
            }
            if j@[1] == 'E' && j@[2] == 'Q' {
                assert(j@ =~= seq!['J', 'E', 'Q']);
            }
            if j@[1] == 'G' && j@[2] == 'E' {
                assert(j@ =~= seq!['J', 'G', 'E']);
            }
            if j@[1] == 'L' && j@[2] == 'T' {
                assert(j@ =~= seq!['J', 'L', 'T']);
            }
            if j@[1] == 'N' && j@[2] == 'E' {
                assert(j@ =~= seq!['J', 'N', 'E']);
            }
            if j@[1] == 'L' && j@[2] == 'E' {
                assert(j@ =~= seq!['J', 'L', 'E']);
            }
            if j@[1] == 'M' && j@[2] == 'P' {
                assert(j@ =~= seq!['J', 'M', 'P']);
            }
        }
        (c1 == 'G' && c2 == 'T') || (c1 == 'E' && c2 == 'Q') || (c1 == 'G' && c2 == 'E') || (c1
            == 'L' && c2 == 'T') || (c1 == 'N' && c2 == 'E') || (c1 == 'L' && c2 == 'E') || (c1
            == 'M' && c2 == 'P')
    } else {
        false
    }
}

/// Classifies one normalized instruction text.
pub fn classify_text(t: &Vec<char>) -> (r: Option<Instruction>)
    ensures
        opt_instr_view(r) == classify(t@),
{
    // compute instruction: split at the first `=`, then at the first `;`
    let e = find_char(t, 0, '=');
    proof {
        lemma_first_pos_unique(t@, '=', e as nat);
    }
    let dest = if e < t.len() {
        subvec(t, 0, e)
    } else {
        Vec::new()
    };
    let rest = if e < t.len() {
        subvec(t, e + 1, t.len())
    } else {
        subvec(t, 0, t.len())
    };
    proof {
        if (e as int) < t@.len() {
            assert(t@.subrange(0, e as int) =~= t@.take(e as int));
            assert(t@.subrange(e as int + 1, t@.len() as int) =~= t@.skip(e as int + 1));
        } else {
            assert(t@.subrange(0, t@.len() as int) =~= t@);
            assert(dest@ =~= Seq::<char>::empty());
        }
        assert(dest@ == c_dest(t@));
        assert(rest@ == c_rest(t@));
    }
    let sc = find_char(&rest, 0, ';');
    proof {
        lemma_first_pos_unique(rest@, ';', sc as nat);
    }
    let comp = subvec(&rest, 0, sc);
    let jump = if sc < rest.len() {
        subvec(&rest, sc + 1, rest.len())
    } else {
        Vec::new()
    };
    proof {
        assert(rest@.subrange(0, sc as int) =~= rest@.take(sc as int));
        assert(comp@ == c_comp(t@));
        if (sc as int) < rest@.len() {
            assert(rest@.subrange(sc as int + 1, rest@.len() as int) =~= rest@.skip(sc as int + 1));
        } else {
            assert(jump@ =~= Seq::<char>::empty());
        }
        assert(jump@ == c_jump(t@));
    }
    if is_dest_exec(&dest) && is_comp_exec(&comp) && is_jump_exec(&jump) {
        return Some(Instruction::Compute { dest, comp, jump });
    }
    // address instruction
    if t.len() >= 2 && t[0] == '@' {
        let operand_text = subvec(t, 1, t.len());
        proof {
            assert(operand_text@ =~= t@.skip(1));
        }
        if all_digits_exec(&operand_text) {
            return Some(Instruction::Address { operand: Operand::Numeric(operand_text) });
        }
        if is_symbol_exec(&operand_text) {
            return Some(Instruction::Address { operand: Operand::Symbolic(operand_text) });
        }
        return None;
    }
    // label declaration
    if t.len() >= 3 && t[0] == '(' && t[t.len() - 1] == ')' {
        let mid = subvec(t, 1, t.len() - 1);
        proof {
            assert(mid@ =~= t@.subrange(1, t@.len() - 1));
        }
        if is_symbol_exec(&mid) {
            return Some(Instruction::Label { symbol: mid });
        }
    }
    None
}

} // verus!
