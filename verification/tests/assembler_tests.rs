use hack_assembler::assembler::Assembler;
use hack_assembler::parser::Parser;
use hack_assembler::pipeline::AsmError;

fn assemble_text(src: &str) -> Result<String, AsmError> {
    let mut a = Assembler::new(src);
    a.assemble()
}

fn assemble_ok(src: &str) -> String {
    assemble_text(src).expect("assembly should succeed")
}

#[test]
fn numeric_address_example() {
    assert_eq!(assemble_ok("@42\n"), "0000000000101010\n");
}

#[test]
fn numeric_address_zero() {
    assert_eq!(assemble_ok("@0\n"), "0000000000000000\n");
}

#[test]
fn numeric_address_largest() {
    assert_eq!(assemble_ok("@32767\n"), "0111111111111111\n");
}

#[test]
fn numeric_address_leading_zeros() {
    assert_eq!(assemble_ok("@0042\n"), "0000000000101010\n");
}

#[test]
fn numeric_address_one_above_range_overflows() {
    let r = assemble_text("@32768\n");
    assert!(matches!(r, Err(AsmError::AddressOverflow { line: 1, address: 32768 })));
}

#[test]
fn numeric_address_huge_literal_reports_clamped_address() {
    let r = assemble_text("@99999999999999999999999999\n");
    assert!(matches!(
        r,
        Err(AsmError::AddressOverflow { line: 1, address: u64::MAX })
    ));
}

#[test]
fn registers_resolve_to_their_indices() {
    for k in 0..16usize {
        let src = format!("@R{}\n", k);
        let out = assemble_ok(&src);
        let expected = format!("0{:015b}\n", k);
        assert_eq!(out, expected);
    }
}

#[test]
fn register_reference_consumes_no_variable_slot() {
    // R5 is pre-seeded, so the first fresh variable still gets address 16.
    let out = assemble_ok("@R5\n@x\n");
    assert_eq!(out, "0000000000000101\n0000000000010000\n");
}

#[test]
fn pointer_and_device_symbols_resolve() {
    let out = assemble_ok("@SP\n@LCL\n@ARG\n@THIS\n@THAT\n@SCREEN\n@KBD\n");
    let lines: Vec<&str> = out.lines().collect();
    assert_eq!(lines[0], "0000000000000000");
    assert_eq!(lines[1], "0000000000000001");
    assert_eq!(lines[2], "0000000000000010");
    assert_eq!(lines[3], "0000000000000011");
    assert_eq!(lines[4], "0000000000000100");
    assert_eq!(lines[5], "0100000000000000");
    assert_eq!(lines[6], "0110000000000000");
}

#[test]
fn forward_label_reference_resolves() {
    // (FOO) follows two real instructions, so FOO = 2 for the reference
    // standing before the label.
    let out = assemble_ok("@FOO\nD=A\n(FOO)\n@FOO\n");
    let lines: Vec<&str> = out.lines().collect();
    assert_eq!(lines.len(), 3);
    assert_eq!(lines[0], "0000000000000010");
    assert_eq!(lines[2], "0000000000000010");
}

#[test]
fn backward_label_reference_resolves() {
    let out = assemble_ok("(LOOP)\n@LOOP\n0;JMP\n");
    let lines: Vec<&str> = out.lines().collect();
    assert_eq!(lines.len(), 2);
    assert_eq!(lines[0], "0000000000000000");
    assert_eq!(lines[1], "1110101010000111");
}

#[test]
fn label_declared_before_variable_use_is_not_reallocated() {
    // VAR is a label bound to 0; @VAR must use 0, and @x gets 16.
    let out = assemble_ok("(VAR)\n@VAR\n@x\n");
    assert_eq!(out, "0000000000000000\n0000000000010000\n");
}

#[test]
fn variables_allocate_from_16_monotonically_and_stably() {
    let out = assemble_ok("@first\n@second\n@first\n");
    let lines: Vec<&str> = out.lines().collect();
    assert_eq!(lines[0], "0000000000010000"); // 16
    assert_eq!(lines[1], "0000000000010001"); // 17
    assert_eq!(lines[2], "0000000000010000"); // 16 again
}

#[test]
fn comments_and_blank_lines_produce_no_output() {
    let out = assemble_ok("  // just a comment\n\n@5\n");
    assert_eq!(out, "0000000000000101\n");
}

#[test]
fn comments_do_not_advance_rom_counter() {
    // The label must be bound to 1, not to the physical line position.
    let out = assemble_ok("@1\n// comment\n\n(L)\n@L\n");
    let lines: Vec<&str> = out.lines().collect();
    assert_eq!(lines.len(), 2);
    assert_eq!(lines[1], "0000000000000001");
}

#[test]
fn trailing_comment_is_stripped() {
    assert_eq!(assemble_ok("@5 // five\n"), "0000000000000101\n");
}

#[test]
fn whitespace_inside_tokens_is_insignificant() {
    assert_eq!(assemble_ok("D = D + 1 ; JGT\n"), assemble_ok("D=D+1;JGT\n"));
    assert_eq!(assemble_ok("\t@ 7\n"), "0000000000000111\n");
}

#[test]
fn carriage_returns_are_stripped() {
    assert_eq!(assemble_ok("@1\r\n@2\r\n"), "0000000000000001\n0000000000000010\n");
}

#[test]
fn compute_instruction_example() {
    assert_eq!(assemble_ok("D=D+1;JGT\n"), "1110011111010001\n");
}

#[test]
fn compute_without_dest() {
    assert_eq!(assemble_ok("0;JMP\n"), "1110101010000111\n");
}

#[test]
fn compute_without_jump() {
    assert_eq!(assemble_ok("D=M\n"), "1111110000010000\n");
}

#[test]
fn compute_with_all_fields() {
    // comp=M+1 -> 1110111, dest=AMD -> 111, jump=JLE -> 110
    assert_eq!(assemble_ok("AMD=M+1;JLE\n"), "1111110111111110\n");
}

#[test]
fn bare_comp_is_valid() {
    // comp=D -> 0001100, no dest, no jump
    assert_eq!(assemble_ok("D\n"), "1110001100000000\n");
}

#[test]
fn at_without_operand_is_a_syntax_error() {
    let r = assemble_text("@\n");
    assert!(matches!(r, Err(AsmError::Syntax { line: 1 })));
}

#[test]
fn unknown_shape_is_a_syntax_error() {
    let r = assemble_text("X=Y\n");
    assert!(matches!(r, Err(AsmError::Syntax { line: 1 })));
}

#[test]
fn syntax_error_names_the_physical_line() {
    let r = assemble_text("@1\n// fine\n\nX=Y\n");
    assert!(matches!(r, Err(AsmError::Syntax { line: 4 })));
}

#[test]
fn syntax_error_in_pass_one_yields_no_output() {
    // The bad line stands after a good one; assembly still fails whole.
    let r = assemble_text("@1\n@\n");
    assert!(r.is_err());
}

#[test]
fn operand_neither_number_nor_symbol_is_a_syntax_error() {
    let r = assemble_text("@3x\n");
    assert!(matches!(r, Err(AsmError::Syntax { line: 1 })));
}

#[test]
fn label_with_trailing_text_is_a_syntax_error() {
    let r = assemble_text("(FOO)x\n");
    assert!(matches!(r, Err(AsmError::Syntax { line: 1 })));
}

#[test]
fn well_formed_but_unknown_comp_token() {
    let r = assemble_text("D=D+D\n");
    assert!(matches!(
        r,
        Err(AsmError::UnknownMnemonic { line: 1, token }) if token == "D+D"
    ));
}

#[test]
fn duplicate_label_is_a_duplicate_binding_error() {
    let r = assemble_text("(X)\n@1\n(X)\n");
    assert!(matches!(
        r,
        Err(AsmError::DuplicateBinding { symbol }) if symbol == "X"
    ));
}

#[test]
fn label_clashing_with_register_is_a_duplicate_binding_error() {
    let r = assemble_text("(R0)\n");
    assert!(matches!(
        r,
        Err(AsmError::DuplicateBinding { symbol }) if symbol == "R0"
    ));
}

#[test]
fn symbol_charset_is_accepted() {
    let out = assemble_ok("@foo.bar$baz:qux_1\n");
    assert_eq!(out, "0000000000010000\n");
}

#[test]
fn non_ascii_operand_is_a_syntax_error() {
    let r = assemble_text("@päché\n");
    assert!(matches!(r, Err(AsmError::Syntax { line: 1 })));
}

#[test]
fn non_ascii_comment_is_ignored() {
    assert_eq!(assemble_ok("@3 // héllo wörld\n"), "0000000000000011\n");
}

#[test]
fn empty_source_assembles_to_empty_output() {
    assert_eq!(assemble_ok(""), "");
}

#[test]
fn source_without_trailing_newline() {
    assert_eq!(assemble_ok("@1"), "0000000000000001\n");
}

#[test]
fn end_to_end_add_program() {
    let src = "@2\nD=A\n@3\nD=D+A\n@0\nM=D\n";
    let expected = "0000000000000010\n1110110000010000\n0000000000000011\n1110000010010000\n0000000000000000\n1110001100001000\n";
    assert_eq!(assemble_ok(src), expected);
}

#[test]
fn parser_front_end_matches_assembler() {
    let src = "@2\nD=A\n(END)\n@END\n0;JMP\n";
    let mut p = Parser::new(src);
    let from_parser = p.assemble().expect("parser assembly should succeed");
    assert_eq!(from_parser, assemble_ok(src));
}

#[test]
fn parser_reports_errors_like_assembler() {
    let mut p = Parser::new("@\n");
    assert!(matches!(p.assemble(), Err(AsmError::Syntax { line: 1 })));
}
