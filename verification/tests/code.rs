use monkey::code::helpers::{read_u16, read_u8};
use monkey::code::{
    disassemble, format_instruction, lookup, make, operands_width, read_operands, Definition,
    Instructions, OP_ADD, OP_CALL, OP_CLOSURE, OP_CONSTANT, OP_CURRENT_CLOSURE, OP_GET_LOCAL,
    OP_JUMP, OP_POP,
};
use monkey::text::{decimal_string, digit_str, push_padded4, push_signed_decimal};

fn concat_instructions(s: Vec<Instructions>) -> Instructions {
    let mut out = Vec::new();
    for ins in s {
        out.extend_from_slice(&ins);
    }
    out
}

#[test]
fn test_make() {
    // (op, operands, expected)
    let test_cases = [
        (OP_CONSTANT, vec![65534], vec![OP_CONSTANT, 255, 254]),
        (OP_ADD, vec![], vec![OP_ADD]),
        (OP_GET_LOCAL, vec![254], vec![OP_GET_LOCAL, 254]),
    ];

    for tc in test_cases {
        let instruction = make(tc.0, &tc.1);
        assert_eq!(instruction, tc.2);
    }
}

#[test]
fn test_instructions_string() {
    let instructions = vec![
        make(OP_ADD, &[]),
        make(OP_GET_LOCAL, &[253]),
        make(OP_CONSTANT, &[2]),
        make(OP_CONSTANT, &[65535]),
    ];

    let expected = "0000 OpAdd
0001 OpGetLocal 253
0003 OpConstant 2
0006 OpConstant 65535
";

    let concatted = concat_instructions(instructions);
    assert_eq!(expected, disassemble(&concatted));
}

#[test]
fn test_read_operands() {
    // op, operands, bytes_read
    let test_cases = [(OP_CONSTANT, [65535], 2), (OP_GET_LOCAL, [255], 1)];

    for tc in test_cases {
        let instruction = make(tc.0, &tc.1);
        let def = lookup(tc.0).unwrap();

        let (operands_read, n) = read_operands(&def, &instruction[1..]);
        assert_eq!(n, tc.2);

        for (i, want) in tc.1.into_iter().enumerate() {
            assert_eq!(want, operands_read[i]);
        }
    }
}

#[test]
fn make_of_an_undefined_opcode_is_empty() {
    assert_eq!(make(0, &[]), Vec::<u8>::new());
    assert_eq!(make(200, &[]), Vec::<u8>::new());
    assert!(lookup(0).is_err());
    assert_eq!(lookup(200).err().unwrap().opcode, 200);
}

#[test]
fn make_writes_operands_big_endian() {
    assert_eq!(make(OP_JUMP, &[258]), vec![OP_JUMP, 1, 2]);
    assert_eq!(make(OP_CLOSURE, &[65534, 255]), vec![OP_CLOSURE, 255, 254, 255]);
    assert_eq!(make(OP_CALL, &[3]), vec![OP_CALL, 3]);
    // an operand that is not given is written as zero
    assert_eq!(make(OP_CONSTANT, &[]), vec![OP_CONSTANT, 0, 0]);
}

#[test]
fn read_operands_inverts_make_for_every_opcode() {
    for op in 1..=31u8 {
        let def = lookup(op).unwrap();
        let operands: Vec<usize> = def
            .operand_widths
            .iter()
            .map(|w| if *w == 2 { 40000 } else { 200 })
            .collect();
        let instruction = make(op, &operands);
        let width: usize = def.operand_widths.iter().sum();
        assert_eq!(instruction.len(), 1 + width);
        assert_eq!(operands_width(op), width);
        let (read, n) = read_operands(&def, &instruction[1..]);
        assert_eq!(read, operands);
        assert_eq!(n, width);
    }
}

#[test]
fn helpers_read_from_the_front() {
    assert_eq!(read_u8(&[7, 9]), 7);
    assert_eq!(read_u16(&[1, 2, 3]), 258);
    assert_eq!(read_u16(&[255, 255]), 65535);
}

#[test]
fn disassemble_shows_two_operands_and_errors() {
    let mut ins = make(OP_CLOSURE, &[65535, 255]);
    ins.extend_from_slice(&[0]);
    ins.extend_from_slice(&make(OP_CURRENT_CLOSURE, &[]));
    ins.extend_from_slice(&make(OP_POP, &[]));
    ins.extend_from_slice(&[OP_CONSTANT, 1]);
    let expected = "0000 OpClosure 65535 255
ERROR: opcode must be defined
0005 OpCurrentClosure
0006 OpPop
ERROR: instruction is cut short
";
    assert_eq!(disassemble(&ins), expected);
    assert_eq!(disassemble(&Vec::new()), "");
}

#[test]
fn format_instruction_reports_a_wrong_operand_count() {
    let def = lookup(OP_CONSTANT).unwrap();
    assert_eq!(format_instruction(&def, &vec![12]), "OpConstant 12");
    assert_eq!(
        format_instruction(&def, &vec![]),
        "ERROR: operand len 0 does not match defined 1\n"
    );
    let three = Definition::new("OpThree", vec![1, 1, 1]);
    assert_eq!(
        format_instruction(&three, &vec![1, 2, 3]),
        "ERROR: unhandled operandCount for OpThree\n"
    );
    assert_eq!(format_instruction(&lookup(OP_ADD).unwrap(), &vec![]), "OpAdd");
}

#[test]
fn numbers_print_in_decimal() {
    assert_eq!(decimal_string(0), "0");
    assert_eq!(decimal_string(65535), "65535");
    assert_eq!(decimal_string(u64::MAX), "18446744073709551615");
    assert_eq!(digit_str(7), "7");
    let mut out = String::from("x");
    push_signed_decimal(&mut out, -42);
    push_signed_decimal(&mut out, i64::MIN);
    push_signed_decimal(&mut out, i64::MAX);
    assert_eq!(out, "x-42-92233720368547758089223372036854775807");
    let mut padded = String::new();
    push_padded4(&mut padded, 7);
    push_padded4(&mut padded, 42);
    push_padded4(&mut padded, 999);
    push_padded4(&mut padded, 1000);
    push_padded4(&mut padded, 123456);
    assert_eq!(padded, "0007004209991000123456");
}
