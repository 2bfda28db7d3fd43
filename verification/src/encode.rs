//! Fixed encoding tables and binary rendering: comp/dest/jump mnemonics map
//! to their bit-field values, and addresses map to 16-character `0`/`1`
//! strings with a leading `0` bit.

use vstd::prelude::*;

use crate::chars::is_digit_char;

verus! {

/// `2^w`.
pub open spec fn pow2(w: nat) -> nat
    decreases w,
{
    if w == 0 {
        1
    } else {
        2 * pow2((w - 1) as nat)
    }
}

/// The low `w` bits of `n`, most significant first, as `0`/`1` characters.
pub open spec fn bits(n: nat, w: nat) -> Seq<char>
    decreases w,
{
    if w == 0 {
        Seq::empty()
    } else {
        bits(n / 2, (w - 1) as nat).push(
            if n % 2 == 1 {
                '1'
            } else {
                '0'
            },
        )
    }
}

pub open spec fn is_bit_char(c: char) -> bool {
    c == '0' || c == '1'
}

/// The number denoted by a big-endian sequence of bit characters.
pub open spec fn bits_value(s: Seq<char>) -> nat
    decreases s.len(),
{
    if s.len() == 0 {
        0
    } else {
        bits_value(s.drop_last()) * 2 + (if s.last() == '1' {
            1nat
        } else {
            0nat
        })
    }
}

/// The 16-character encoding of an address instruction: a leading `0`
/// followed by the 15-bit binary form of the address.
pub open spec fn encode_address(n: nat) -> Seq<char> {
    seq!['0'] + bits(n, 15)
}

proof fn lemma_bits_roundtrip(n: nat, w: nat)
    requires
        n < pow2(w),
    ensures
        bits(n, w).len() == w,
        forall|i: int| 0 <= i < w ==> is_bit_char(bits(n, w)[i]),
        bits_value(bits(n, w)) == n,
    decreases w,
{
    if w == 0 {
    } else {
        lemma_bits_roundtrip(n / 2, (w - 1) as nat);
        let prefix = bits(n / 2, (w - 1) as nat);
        let b = if n % 2 == 1 {
            '1'
        } else {
            '0'
        };
        assert(prefix.push(b).drop_last() =~= prefix);
        assert(prefix.push(b).last() == b);
    }
}

/// The rendered bits of any number are `w` `0`/`1` characters.
pub proof fn lemma_bits_shape(n: nat, w: nat)
    ensures
        bits(n, w).len() == w,
        forall|i: int| 0 <= i < w ==> is_bit_char(bits(n, w)[i]),
    decreases w,
{
    if w == 0 {
    } else {
        lemma_bits_shape(n / 2, (w - 1) as nat);
    }
}

/// Law: for every address below 2^15, the encoding is 16 characters long,
/// made of `0`/`1` only, starts with `0`, and its remaining 15 characters
/// read back as the address in binary.
pub proof fn lemma_address_encoding(n: nat)
    requires
        n < 32768,
    ensures
        encode_address(n).len() == 16,
        encode_address(n)[0] == '0',
        forall|i: int| 0 <= i < 16 ==> is_bit_char(encode_address(n)[i]),
        bits_value(encode_address(n).skip(1)) == n,
{
    assert(pow2(15) == 32768) by {
        reveal_with_fuel(pow2, 16);
    }
    lemma_bits_roundtrip(n, 15);
    assert(encode_address(n).skip(1) =~= bits(n, 15));
    assert forall|i: int| 0 <= i < 16 implies is_bit_char(encode_address(n)[i]) by {
        if i > 0 {
            assert(encode_address(n)[i] == bits(n, 15)[i - 1]);
        }
    }
}

/// The 7-bit code of a comp mnemonic, or `None` for a token outside the
/// fixed comp table.
pub open spec fn comp_value(c: Seq<char>) -> Option<u8> {
    if c == seq!['0'] {
        Some(0b0101010u8)
    } else if c == seq!['1'] {
        Some(0b0111111u8)
    } else if c == seq!['-', '1'] {
        Some(0b0111010u8)
    } else if c == seq!['D'] {
        Some(0b0001100u8)
    } else if c == seq!['A'] {
        Some(0b0110000u8)
    } else if c == seq!['M'] {
        Some(0b1110000u8)
    } else if c == seq!['!', 'D'] {
        Some(0b0001101u8)
    } else if c == seq!['!', 'A'] {
        Some(0b0110001u8)
    } else if c == seq!['!', 'M'] {
        Some(0b1110001u8)
    } else if c == seq!['-', 'D'] {
        Some(0b0001111u8)
    } else if c == seq!['-', 'A'] {
        Some(0b0110011u8)
    } else if c == seq!['-', 'M'] {
        Some(0b1110011u8)
    } else if c == seq!['D', '+', '1'] {
        Some(0b0011111u8)
    } else if c == seq!['A', '+', '1'] {
        Some(0b0110111u8)
    } else if c == seq!['M', '+', '1'] {
        Some(0b1110111u8)
    } else if c == seq!['D', '-', '1'] {
        Some(0b0001110u8)
    } else if c == seq!['A', '-', '1'] {
        Some(0b0110010u8)
    } else if c == seq!['M', '-', '1'] {
        Some(0b1110010u8)
    } else if c == seq!['D', '+', 'A'] {
        Some(0b0000010u8)
    } else if c == seq!['D', '+', 'M'] {
        Some(0b1000010u8)
    } else if c == seq!['D', '-', 'A'] {
        Some(0b0010011u8)
    } else if c == seq!['D', '-', 'M'] {
        Some(0b1010011u8)
    } else if c == seq!['A', '-', 'D'] {
        Some(0b0000111u8)
    } else if c == seq!['M', '-', 'D'] {
        Some(0b1000111u8)
    } else if c == seq!['D', '&', 'A'] {
        Some(0b0000000u8)
    } else if c == seq!['D', '&', 'M'] {
        Some(0b1000000u8)
    } else if c == seq!['D', '|', 'A'] {
        Some(0b0010101u8)
    } else if c == seq!['D', '|', 'M'] {
        Some(0b1010101u8)
    } else {
        None
    }
}

/// The 3-bit code of a dest mnemonic; the empty mnemonic and any token
/// outside the table map to the null code.
pub open spec fn dest_value(d: Seq<char>) -> u8 {
    if d == seq!['M'] {
        0b001u8
    } else if d == seq!['D'] {
        0b010u8
    } else if d == seq!['M', 'D'] {
        0b011u8
    } else if d == seq!['A'] {
        0b100u8
    } else if d == seq!['A', 'M'] {
        0b101u8
    } else if d == seq!['A', 'D'] {
        0b110u8
    } else if d == seq!['A', 'M', 'D'] {
        0b111u8
    } else {
        0b000u8
    }
}

/// The 3-bit code of a jump mnemonic; the empty mnemonic and any token
/// outside the table map to the null code.
pub open spec fn jump_value(j: Seq<char>) -> u8 {
    if j == seq!['J', 'G', 'T'] {
        0b001u8
    } else if j == seq!['J', 'E', 'Q'] {
        0b010u8
    } else if j == seq!['J', 'G', 'E'] {
        0b011u8
    } else if j == seq!['J', 'L', 'T'] {
        0b100u8
    } else if j == seq!['J', 'N', 'E'] {
        0b101u8
    } else if j == seq!['J', 'L', 'E'] {
        0b110u8
    } else if j == seq!['J', 'M', 'P'] {
        0b111u8
    } else {
        0b000u8
    }
}

/// The 16-character encoding of a compute instruction, or `None` when the
/// comp token is not in the table.
pub open spec fn encode_compute(dest: Seq<char>, comp: Seq<char>, jump: Seq<char>) -> Option<
    Seq<char>,
> {
    match comp_value(comp) {
        None => None,
        Some(cv) => Some(
            seq!['1', '1', '1'] + bits(cv as nat, 7) + bits(dest_value(dest) as nat, 3) + bits(
                jump_value(jump) as nat,
                3,
            ),
        ),
    }
}

/// A compute instruction that encodes at all encodes as 16 `0`/`1`
/// characters.
pub proof fn lemma_encode_compute_shape(dest: Seq<char>, comp: Seq<char>, jump: Seq<char>)
    requires
        encode_compute(dest, comp, jump) is Some,
    ensures
        encode_compute(dest, comp, jump)->Some_0.len() == 16,
        forall|i: int|
            0 <= i < 16 ==> is_bit_char(encode_compute(dest, comp, jump)->Some_0[i]),
{
    let cv = comp_value(comp)->Some_0;
    let b_comp = bits(cv as nat, 7);
    let b_dest = bits(dest_value(dest) as nat, 3);
    let b_jump = bits(jump_value(jump) as nat, 3);
    lemma_bits_shape(cv as nat, 7);
    lemma_bits_shape(dest_value(dest) as nat, 3);
    lemma_bits_shape(jump_value(jump) as nat, 3);
    let whole = seq!['1', '1', '1'] + b_comp + b_dest + b_jump;
    assert forall|i: int| 0 <= i < 16 implies is_bit_char(whole[i]) by {
        if i < 3 {
            assert(whole[i] == seq!['1', '1', '1'][i]);
        } else if i < 10 {
            assert(whole[i] == b_comp[i - 3]);
        } else if i < 13 {
            assert(whole[i] == b_dest[i - 10]);
        } else {
            assert(whole[i] == b_jump[i - 13]);
        }
    }
}

/// The numeric value of a sequence of decimal digits.
pub open spec fn dec_value(s: Seq<char>) -> nat
    decreases s.len(),
{
    if s.len() == 0 {
        0
    } else {
        dec_value(s.drop_last()) * 10 + (s.last() as u32 - 48) as nat
    }
}

/// `n` clamped to the largest `u64`.
pub open spec fn sat_u64(n: nat) -> nat {
    if n > u64::MAX as nat {
        u64::MAX as nat
    } else {
        n
    }
}

/// Reads a digit string as a `u64`, clamping values beyond the `u64` range.
pub fn parse_dec_sat(s: &Vec<char>) -> (r: u64)
    requires
        crate::instruction::all_digits(s@),
    ensures
        r as nat == sat_u64(dec_value(s@)),
{
    let mut acc: u64 = 0;
    let mut i: usize = 0;
    while i < s.len()
        invariant
            crate::instruction::all_digits(s@),
            i <= s.len(),
            acc as nat == sat_u64(dec_value(s@.take(i as int))),
        decreases s.len() - i,
    {
        let c = s[i];
        proof {
            assert(is_digit_char(s@[i as int]));
            assert(s@.take(i as int + 1).drop_last() =~= s@.take(i as int));
            assert(s@.take(i as int + 1).last() == s@[i as int]);
        }
        let u: u32 = c as u32;
        proof {
            assert(48 <= u && u <= 57);
        }
        let d: u64 = (u - 48) as u64;
        let ghost prev = dec_value(s@.take(i as int));
        let ghost next = dec_value(s@.take(i as int + 1));
        proof {
            assert(d as int == c as u32 - 48);
            assert(next == prev * 10 + d);
        }
        if acc > (u64::MAX - d) / 10 {
            proof {
                if prev <= u64::MAX as nat {
                    assert(acc == prev);
                    assert(10 * ((u64::MAX - d) / 10) <= u64::MAX - d);
                    assert(next > u64::MAX as nat) by {
                        assert(acc * 10 + d > u64::MAX);
                    }
                } else {
                    assert(next >= prev) by {
                        assert(prev * 10 >= prev);
                    }
                }
                assert(sat_u64(next) == u64::MAX as nat);
            }
            acc = u64::MAX;
        } else {
            proof {
                assert((u64::MAX as int - d) / 10 < u64::MAX as int);
                assert(acc < u64::MAX);
                assert(prev <= u64::MAX as nat);
                assert(acc == prev);
                assert(acc * 10 <= 10 * ((u64::MAX - d) / 10));
                assert(10 * ((u64::MAX - d) / 10) <= u64::MAX - d);
                assert(acc * 10 + d <= u64::MAX);
            }
            acc = acc * 10 + d;
        }
        i += 1;
    }
    proof {
        assert(s@.take(s@.len() as int) =~= s@);
    }
    acc
}

/// Renders the low `w` bits of `n`, most significant first.
fn bits_exec(n: u64, w: u8) -> (r: Vec<char>)
    ensures
        r@ == bits(n as nat, w as nat),
    decreases w,
{
    if w == 0 {
        let r: Vec<char> = Vec::new();
        proof {
            assert(r@ =~= bits(n as nat, 0));
        }
        r
    } else {
        let mut r = bits_exec(n / 2, w - 1);
        let b = if n % 2 == 1 {
            '1'
        } else {
            '0'
        };
        r.push(b);
        r
    }
}

/// Renders an address as its 16-character instruction encoding.
pub fn encode_address_exec(a: u64) -> (r: Vec<char>)
    ensures
        r@ == encode_address(a as nat),
{
    let mut r: Vec<char> = Vec::new();
    r.push('0');
    let mut tail = bits_exec(a, 15);
    r.append(&mut tail);
    proof {
        assert(r@ =~= encode_address(a as nat));
    }
    r
}

fn comp_value_exec(c: &Vec<char>) -> (r: Option<u8>)
    ensures
        r == comp_value(c@),
{
    if c.len() == 1 {
        let c0 = c[0];
        proof {
            if c@[0] == '0' {
                assert(c@ =~= seq!['0']);
            }
            if c@[0] == '1' {
                assert(c@ =~= seq!['1']);
            }
            if c@[0] == 'D' {
                assert(c@ =~= seq!['D']);
            }
            if c@[0] == 'A' {
                assert(c@ =~= seq!['A']);
            }
            if c@[0] == 'M' {
                assert(c@ =~= seq!['M']);
            }
        }
        if c0 == '0' {
            Some(0b0101010u8)
        } else if c0 == '1' {
            Some(0b0111111u8)
        } else if c0 == 'D' {
            Some(0b0001100u8)
        } else if c0 == 'A' {
            Some(0b0110000u8)
        } else if c0 == 'M' {
            Some(0b1110000u8)
        } else {
            None
        }
    } else if c.len() == 2 {
        let c0 = c[0];
        let c1 = c[1];
        proof {
            if c@[0] == '-' && c@[1] == '1' {
                assert(c@ =~= seq!['-', '1']);
            }
            if c@[0] == '!' && c@[1] == 'D' {
                assert(c@ =~= seq!['!', 'D']);
            }
            if c@[0] == '!' && c@[1] == 'A' {
                assert(c@ =~= seq!['!', 'A']);
            }
            if c@[0] == '!' && c@[1] == 'M' {
                assert(c@ =~= seq!['!', 'M']);
            }
            if c@[0] == '-' && c@[1] == 'D' {
                assert(c@ =~= seq!['-', 'D']);
            }
            if c@[0] == '-' && c@[1] == 'A' {
                assert(c@ =~= seq!['-', 'A']);
            }
            if c@[0] == '-' && c@[1] == 'M' {
                assert(c@ =~= seq!['-', 'M']);
            }
        }
        if c0 == '-' && c1 == '1' {
            Some(0b0111010u8)
        } else if c0 == '!' && c1 == 'D' {
            Some(0b0001101u8)
        } else if c0 == '!' && c1 == 'A' {
            Some(0b0110001u8)
        } else if c0 == '!' && c1 == 'M' {
            Some(0b1110001u8)
        } else if c0 == '-' && c1 == 'D' {
            Some(0b0001111u8)
        } else if c0 == '-' && c1 == 'A' {
            Some(0b0110011u8)
        } else if c0 == '-' && c1 == 'M' {
            Some(0b1110011u8)
        } else {
            None
        }
    } else if c.len() == 3 {
        let c0 = c[0];
        let c1 = c[1];
        let c2 = c[2];
        proof {
            if c@[0] == 'D' && c@[1] == '+' && c@[2] == '1' {
                assert(c@ =~= seq!['D', '+', '1']);
            }
            if c@[0] == 'A' && c@[1] == '+' && c@[2] == '1' {
                assert(c@ =~= seq!['A', '+', '1']);
            }
            if c@[0] == 'M' && c@[1] == '+' && c@[2] == '1' {
                assert(c@ =~= seq!['M', '+', '1']);
            }
            if c@[0] == 'D' && c@[1] == '-' && c@[2] == '1' {
                assert(c@ =~= seq!['D', '-', '1']);
            }
            if c@[0] == 'A' && c@[1] == '-' && c@[2] == '1' {
                assert(c@ =~= seq!['A', '-', '1']);
            }
            if c@[0] == 'M' && c@[1] == '-' && c@[2] == '1' {
                assert(c@ =~= seq!['M', '-', '1']);
            }
            if c@[0] == 'D' && c@[1] == '+' && c@[2] == 'A' {
                assert(c@ =~= seq!['D', '+', 'A']);
            }
            if c@[0] == 'D' && c@[1] == '+' && c@[2] == 'M' {
                assert(c@ =~= seq!['D', '+', 'M']);
            }
            if c@[0] == 'D' && c@[1] == '-' && c@[2] == 'A' {
                assert(c@ =~= seq!['D', '-', 'A']);
            }
            if c@[0] == 'D' && c@[1] == '-' && c@[2] == 'M' {
                assert(c@ =~= seq!['D', '-', 'M']);
            }
            if c@[0] == 'A' && c@[1] == '-' && c@[2] == 'D' {
                assert(c@ =~= seq!['A', '-', 'D']);
            }
            if c@[0] == 'M' && c@[1] == '-' && c@[2] == 'D' {
                assert(c@ =~= seq!['M', '-', 'D']);
            }
            if c@[0] == 'D' && c@[1] == '&' && c@[2] == 'A' {
                assert(c@ =~= seq!['D', '&', 'A']);
            }
            if c@[0] == 'D' && c@[1] == '&' && c@[2] == 'M' {
                assert(c@ =~= seq!['D', '&', 'M']);
            }
            if c@[0] == 'D' && c@[1] == '|' && c@[2] == 'A' {
                assert(c@ =~= seq!['D', '|', 'A']);
            }
            if c@[0] == 'D' && c@[1] == '|' && c@[2] == 'M' {
                assert(c@ =~= seq!['D', '|', 'M']);
            }
        }
        if c0 == 'D' && c1 == '+' && c2 == '1' {
            Some(0b0011111u8)
        } else if c0 == 'A' && c1 == '+' && c2 == '1' {
            Some(0b0110111u8)
        } else if c0 == 'M' && c1 == '+' && c2 == '1' {
            Some(0b1110111u8)
        } else if c0 == 'D' && c1 == '-' && c2 == '1' {
            Some(0b0001110u8)
        } else if c0 == 'A' && c1 == '-' && c2 == '1' {
            Some(0b0110010u8)
        } else if c0 == 'M' && c1 == '-' && c2 == '1' {
            Some(0b1110010u8)
        } else if c0 == 'D' && c1 == '+' && c2 == 'A' {
            Some(0b0000010u8)
        } else if c0 == 'D' && c1 == '+' && c2 == 'M' {
            Some(0b1000010u8)
        } else if c0 == 'D' && c1 == '-' && c2 == 'A' {
            Some(0b0010011u8)
        } else if c0 == 'D' && c1 == '-' && c2 == 'M' {
            Some(0b1010011u8)
        } else if c0 == 'A' && c1 == '-' && c2 == 'D' {
            Some(0b0000111u8)
        } else if c0 == 'M' && c1 == '-' && c2 == 'D' {
            Some(0b1000111u8)
        } else if c0 == 'D' && c1 == '&' && c2 == 'A' {
            Some(0b0000000u8)
        } else if c0 == 'D' && c1 == '&' && c2 == 'M' {
            Some(0b1000000u8)
        } else if c0 == 'D' && c1 == '|' && c2 == 'A' {
            Some(0b0010101u8)
        } else if c0 == 'D' && c1 == '|' && c2 == 'M' {
            Some(0b1010101u8)
        } else {
            None
        }
    } else {
        None
    }
}

fn dest_value_exec(d: &Vec<char>) -> (r: u8)
    ensures
        r == dest_value(d@),
{
    if d.len() == 1 {
        let c0 = d[0];
        proof {
            if d@[0] == 'M' {
                assert(d@ =~= seq!['M']);
            }
            if d@[0] == 'D' {
                assert(d@ =~= seq!['D']);
            }
            if d@[0] == 'A' {
                assert(d@ =~= seq!['A']);
            }
        }
        if c0 == 'M' {
            0b001u8
        } else if c0 == 'D' {
            0b010u8
        } else if c0 == 'A' {
            0b100u8
        } else {
            0b000u8
        }
    } else if d.len() == 2 {
        let c0 = d[0];
        let c1 = d[1];
        proof {
            if d@[0] == 'M' && d@[1] == 'D' {
                assert(d@ =~= seq!['M', 'D']);
            }
            if d@[0] == 'A' && d@[1] == 'M' {
                assert(d@ =~= seq!['A', 'M']);
            }
            if d@[0] == 'A' && d@[1] == 'D' {
                assert(d@ =~= seq!['A', 'D']);
            }
        }
        if c0 == 'M' && c1 == 'D' {
            0b011u8
        } else if c0 == 'A' && c1 == 'M' {
            0b101u8
        } else if c0 == 'A' && c1 == 'D' {
            0b110u8
        } else {
            0b000u8
        }
    } else if d.len() == 3 {
        let c0 = d[0];
        let c1 = d[1];
        let c2 = d[2];
        proof {
            if d@[0] == 'A' && d@[1] == 'M' && d@[2] == 'D' {
                assert(d@ =~= seq!['A', 'M', 'D']);
            }
        }
        if c0 == 'A' && c1 == 'M' && c2 == 'D' {
            0b111u8
        } else {
            0b000u8
        }
    } else {
        0b000u8
    }
}

fn jump_value_exec(j: &Vec<char>) -> (r: u8)
    ensures
        r == jump_value(j@),
{
    if j.len() == 3 {
        let c0 = j[0];
        let c1 = j[1];
        let c2 = j[2];
        proof {
            if j@[0] == 'J' && j@[1] == 'G' && j@[2] == 'T' {
                assert(j@ =~= seq!['J', 'G', 'T']);
            }
            if j@[0] == 'J' && j@[1] == 'E' && j@[2] == 'Q' {
                assert(j@ =~= seq!['J', 'E', 'Q']);
            }
            if j@[0] == 'J' && j@[1] == 'G' && j@[2] == 'E' {
                assert(j@ =~= seq!['J', 'G', 'E']);
            }
            if j@[0] == 'J' && j@[1] == 'L' && j@[2] == 'T' {
                assert(j@ =~= seq!['J', 'L', 'T']);
            }
            if j@[0] == 'J' && j@[1] == 'N' && j@[2] == 'E' {
                assert(j@ =~= seq!['J', 'N', 'E']);
            }
            if j@[0] == 'J' && j@[1] == 'L' && j@[2] == 'E' {
                assert(j@ =~= seq!['J', 'L', 'E']);
            }
            if j@[0] == 'J' && j@[1] == 'M' && j@[2] == 'P' {
                assert(j@ =~= seq!['J', 'M', 'P']);
            }
        }
        if c0 != 'J' {
            return 0b000u8;
        }
        if c1 == 'G' && c2 == 'T' {
            0b001u8
        } else if c1 == 'E' && c2 == 'Q' {
            0b010u8
        } else if c1 == 'G' && c2 == 'E' {
            0b011u8
        } else if c1 == 'L' && c2 == 'T' {
            0b100u8
        } else if c1 == 'N' && c2 == 'E' {
            0b101u8
        } else if c1 == 'L' && c2 == 'E' {
            0b110u8
        } else if c1 == 'M' && c2 == 'P' {
            0b111u8
        } else {
            0b000u8
        }
    } else {
        0b000u8
    }
}

/// The compute-instruction encoding result seen at the spec level.
pub open spec fn opt_chars_view(r: Option<Vec<char>>) -> Option<Seq<char>> {
    match r {
        Some(v) => Some(v@),
        None => None,
    }
}

/// Renders a compute instruction as its 16-character encoding, or reports
/// an unknown comp token.
pub fn encode_compute_exec(dest: &Vec<char>, comp: &Vec<char>, jump: &Vec<char>) -> (r: Option<
    Vec<char>,
>)
    ensures
        opt_chars_view(r) == encode_compute(dest@, comp@, jump@),
{
    match comp_value_exec(comp) {
        None => None,
        Some(cv) => {
            let mut r: Vec<char> = Vec::new();
            r.push('1');
            r.push('1');
            r.push('1');
            let mut f_comp = bits_exec(cv as u64, 7);
            r.append(&mut f_comp);
            let dv = dest_value_exec(dest);
            let mut f_dest = bits_exec(dv as u64, 3);
            r.append(&mut f_dest);
            let jv = jump_value_exec(jump);
            let mut f_jump = bits_exec(jv as u64, 3);
            r.append(&mut f_jump);
            proof {
                assert(r@ =~= seq!['1', '1', '1'] + bits(cv as nat, 7) + bits(
                    dest_value(dest@) as nat,
                    3,
                ) + bits(jump_value(jump@) as nat, 3));
            }
            Some(r)
        },
    }
}

} // verus!

