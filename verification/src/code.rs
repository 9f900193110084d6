//! The instruction encoding: opcodes, their operand layout, and the functions
//! that assemble and disassemble instruction streams.
pub mod helpers;

use crate::code::helpers::{be_u16, big_endian_bytes, read_u16, read_u8};
use crate::text::{decimal, padded4, push_decimal, push_padded4};
use vstd::prelude::*;
use vstd::slice::slice_subrange;
use vstd::string::StringExecFns;

verus! {

/// An opcode is a single byte.
pub type Opcode = u8;

/// A flat instruction stream: opcode bytes followed by their operands.
pub type Instructions = Vec<u8>;

pub const OP_CONSTANT: Opcode = 1;
pub const OP_ADD: Opcode = 2;
pub const OP_POP: Opcode = 3;
pub const OP_SUB: Opcode = 4;
pub const OP_MUL: Opcode = 5;
pub const OP_DIV: Opcode = 6;
pub const OP_TRUE: Opcode = 7;
pub const OP_FALSE: Opcode = 8;
pub const OP_EQUAL: Opcode = 9;
pub const OP_NOT_EQUAL: Opcode = 10;
pub const OP_GREATER_THAN: Opcode = 11;
pub const OP_MINUS: Opcode = 12;
pub const OP_BANG: Opcode = 13;
pub const OP_JUMP_NOT_TRUTHY: Opcode = 14;
pub const OP_JUMP: Opcode = 15;
pub const OP_NULL: Opcode = 16;
pub const OP_GET_GLOBAL: Opcode = 17;
pub const OP_SET_GLOBAL: Opcode = 18;
pub const OP_ARRAY: Opcode = 19;
pub const OP_HASH: Opcode = 20;
pub const OP_INDEX: Opcode = 21;
pub const OP_CALL: Opcode = 22;
pub const OP_RETURN_VALUE: Opcode = 23;
pub const OP_RETURN: Opcode = 24;
pub const OP_GET_LOCAL: Opcode = 25;
pub const OP_SET_LOCAL: Opcode = 26;
pub const OP_ASSIGN_GLOBAL: Opcode = 27;
pub const OP_GET_BUILTIN: Opcode = 28;
pub const OP_CLOSURE: Opcode = 29;
pub const OP_GET_FREE: Opcode = 30;
pub const OP_CURRENT_CLOSURE: Opcode = 31;

/// Whether `op` is one of the opcodes of the instruction set.
pub open spec fn is_defined(op: Opcode) -> bool {
    1 <= op <= 31
}

/// The widths, in bytes, of the operands that follow `op`.
pub open spec fn operand_widths(op: Opcode) -> Seq<usize> {
    if op == OP_CONSTANT || op == OP_JUMP_NOT_TRUTHY || op == OP_JUMP || op == OP_GET_GLOBAL
        || op == OP_SET_GLOBAL || op == OP_ARRAY || op == OP_HASH || op == OP_ASSIGN_GLOBAL {
        seq![2usize]
    } else if op == OP_CALL || op == OP_GET_LOCAL || op == OP_SET_LOCAL || op == OP_GET_BUILTIN
        || op == OP_GET_FREE {
        seq![1usize]
    } else if op == OP_CLOSURE {
        seq![2usize, 1usize]
    } else {
        Seq::empty()
    }
}

/// The readable name of `op`.
pub open spec fn opcode_name(op: Opcode) -> Seq<char> {
    if op == OP_CONSTANT {
        "OpConstant"@
    } else if op == OP_ADD {
        "OpAdd"@
    } else if op == OP_POP {
        "OpPop"@
    } else if op == OP_SUB {
        "OpSub"@
    } else if op == OP_MUL {
        "OpMul"@
    } else if op == OP_DIV {
        "OpDiv"@
    } else if op == OP_TRUE {
        "OpTrue"@
    } else if op == OP_FALSE {
        "OpFalse"@
    } else if op == OP_EQUAL {
        "OpEqual"@
    } else if op == OP_NOT_EQUAL {
        "OpNotEqual"@
    } else if op == OP_GREATER_THAN {
        "OpGreaterThan"@
    } else if op == OP_MINUS {
        "OpMinus"@
    } else if op == OP_BANG {
        "OpBang"@
    } else if op == OP_JUMP_NOT_TRUTHY {
        "OpJumpNotTruthy"@
    } else if op == OP_JUMP {
        "OpJump"@
    } else if op == OP_NULL {
        "OpNull"@
    } else if op == OP_GET_GLOBAL {
        "OpGetGlobal"@
    } else if op == OP_SET_GLOBAL {
        "OpSetGlobal"@
    } else if op == OP_ARRAY {
        "OpArray"@
    } else if op == OP_HASH {
        "OpHash"@
    } else if op == OP_INDEX {
        "OpIndex"@
    } else if op == OP_CALL {
        "OpCall"@
    } else if op == OP_RETURN_VALUE {
        "OpReturnValue"@
    } else if op == OP_RETURN {
        "OpReturn"@
    } else if op == OP_GET_LOCAL {
        "OpGetLocal"@
    } else if op == OP_SET_LOCAL {
        "OpSetLocal"@
    } else if op == OP_ASSIGN_GLOBAL {
        "OpAssignGlobal"@
    } else if op == OP_GET_BUILTIN {
        "OpGetBuiltin"@
    } else if op == OP_CLOSURE {
        "OpClosure"@
    } else if op == OP_GET_FREE {
        "OpGetFree"@
    } else {
        "OpCurrentClosure"@
    }
}

/// What is known of an opcode: a readable name and the width in bytes of each
/// of its operands.
pub struct Definition {
    pub name: String,
    pub operand_widths: Vec<usize>,
}

/// The byte handed to `lookup` is not an opcode of the instruction set.
#[derive(Clone, Copy, Debug, PartialEq, Eq, Structural)]
pub struct UndefinedOpcode {
    pub opcode: Opcode,
}

impl Definition {
    /// A definition with the given name and operand widths.
    pub fn new(name: &str, widths: Vec<usize>) -> (d: Self)
        ensures
            d.name@ == name@,
            d.operand_widths@ == widths@,
    {
        Definition { name: String::from_str(name), operand_widths: widths }
    }
}

/// The definition of `op`, or an error for a byte that is no opcode.
pub fn lookup(op: Opcode) -> (r: Result<Definition, UndefinedOpcode>)
    ensures
        match r {
            Ok(d) => is_defined(op) && d.name@ == opcode_name(op) && d.operand_widths@
                == operand_widths(op),
            Err(e) => !is_defined(op) && e.opcode == op,
        },
{
    let d = match op {
        OP_CONSTANT => Definition::new("OpConstant", vec![2]),
        OP_ADD => Definition::new("OpAdd", vec![]),
        OP_POP => Definition::new("OpPop", vec![]),
        OP_SUB => Definition::new("OpSub", vec![]),
        OP_MUL => Definition::new("OpMul", vec![]),
        OP_DIV => Definition::new("OpDiv", vec![]),
        OP_TRUE => Definition::new("OpTrue", vec![]),
        OP_FALSE => Definition::new("OpFalse", vec![]),
        OP_EQUAL => Definition::new("OpEqual", vec![]),
        OP_NOT_EQUAL => Definition::new("OpNotEqual", vec![]),
        OP_GREATER_THAN => Definition::new("OpGreaterThan", vec![]),
        OP_MINUS => Definition::new("OpMinus", vec![]),
        OP_BANG => Definition::new("OpBang", vec![]),
        OP_JUMP_NOT_TRUTHY => Definition::new("OpJumpNotTruthy", vec![2]),
        OP_JUMP => Definition::new("OpJump", vec![2]),
        OP_NULL => Definition::new("OpNull", vec![]),
        OP_GET_GLOBAL => Definition::new("OpGetGlobal", vec![2]),
        OP_SET_GLOBAL => Definition::new("OpSetGlobal", vec![2]),
        OP_ARRAY => Definition::new("OpArray", vec![2]),
        OP_HASH => Definition::new("OpHash", vec![2]),
        OP_INDEX => Definition::new("OpIndex", vec![]),
        OP_CALL => Definition::new("OpCall", vec![1]),
        OP_RETURN_VALUE => Definition::new("OpReturnValue", vec![]),
        OP_RETURN => Definition::new("OpReturn", vec![]),
        OP_GET_LOCAL => Definition::new("OpGetLocal", vec![1]),
        OP_SET_LOCAL => Definition::new("OpSetLocal", vec![1]),
        OP_ASSIGN_GLOBAL => Definition::new("OpAssignGlobal", vec![2]),
        OP_GET_BUILTIN => Definition::new("OpGetBuiltin", vec![1]),
        OP_CLOSURE => Definition::new("OpClosure", vec![2, 1]),
        OP_GET_FREE => Definition::new("OpGetFree", vec![1]),
        OP_CURRENT_CLOSURE => Definition::new("OpCurrentClosure", vec![]),
        _ => {
            return Err(UndefinedOpcode { opcode: op });
        },
    };
    assert(d.operand_widths@ =~= operand_widths(op));
    Ok(d)
}


/// Whether `value` can be written in `width` bytes.
pub open spec fn operand_fits(width: usize, value: usize) -> bool {
    &&& width == 1 ==> value < 256
    &&& width == 2 ==> value < 65536
}

/// Whether there are at most as many operands as widths and each operand can
/// be written in the width of its position.
pub open spec fn operands_fit(widths: Seq<usize>, operands: Seq<usize>) -> bool {
    &&& operands.len() <= widths.len()
    &&& forall|i: int| 0 <= i < operands.len() ==> operand_fits(widths[i], #[trigger] operands[i])
}

/// The operand at position `i`, or zero where none was given.
pub open spec fn operand_or_zero(operands: Seq<usize>, i: int) -> usize {
    if 0 <= i < operands.len() {
        operands[i]
    } else {
        0
    }
}

/// The bytes of one operand: big-endian, `width` bytes wide.
pub open spec fn encode_operand(width: usize, value: usize) -> Seq<u8> {
    if width == 1 {
        seq![value as u8]
    } else if width == 2 {
        seq![(value / 256) as u8, (value % 256) as u8]
    } else {
        Seq::new(width as nat, |i: int| 0u8)
    }
}

/// The bytes of the first `k` operands, one after the other.
pub open spec fn encode_operands(widths: Seq<usize>, operands: Seq<usize>, k: int) -> Seq<u8>
    decreases k,
{
    if k <= 0 {
        Seq::empty()
    } else {
        encode_operands(widths, operands, k - 1) + encode_operand(
            widths[k - 1],
            operand_or_zero(operands, k - 1),
        )
    }
}

/// The bytes of one instruction: the opcode, then its operands at the widths
/// of its definition. A byte that is no opcode has the empty encoding.
pub open spec fn encoding(op: Opcode, operands: Seq<usize>) -> Seq<u8> {
    if is_defined(op) {
        seq![op] + encode_operands(operand_widths(op), operands, operand_widths(op).len() as int)
    } else {
        Seq::empty()
    }
}

/// The sum of the first `k` widths.
pub open spec fn total_width(widths: Seq<usize>, k: int) -> nat
    decreases k,
{
    if k <= 0 {
        0
    } else {
        total_width(widths, k - 1) + widths[k - 1] as nat
    }
}

/// The operand of the given width that starts at `offset`.
pub open spec fn decode_operand(width: usize, bytes: Seq<u8>, offset: int) -> usize {
    if width == 1 {
        bytes[offset] as usize
    } else if width == 2 {
        be_u16(bytes[offset], bytes[offset + 1]) as usize
    } else {
        0
    }
}

/// The operands that `bytes` holds for the given widths, each read at the sum
/// of the widths before it.
pub open spec fn decode_operands(widths: Seq<usize>, bytes: Seq<u8>) -> Seq<usize> {
    Seq::new(
        widths.len(),
        |i: int| decode_operand(widths[i], bytes, total_width(widths, i) as int),
    )
}

/// Creates a single instruction: the opcode, followed by the operands encoded
/// big-endian at the widths of the opcode's definition. Operands that are not
/// given are written as zero. An undefined opcode yields no bytes.
pub fn make(op: Opcode, operands: &[usize]) -> (r: Instructions)
    requires
        is_defined(op) ==> operands_fit(operand_widths(op), operands@),
    ensures
        r@ == encoding(op, operands@),
{
    let def = match lookup(op) {
        Ok(d) => d,
        Err(_) => {
            return Vec::new();
        },
    };
    let mut instructions: Vec<u8> = Vec::new();
    instructions.push(op);
    let mut i: usize = 0;
    while i < def.operand_widths.len()
        invariant
            is_defined(op),
            def.operand_widths@ == operand_widths(op),
            operands_fit(operand_widths(op), operands@),
            i <= def.operand_widths@.len(),
            instructions@ == seq![op] + encode_operands(operand_widths(op), operands@, i as int),
        decreases def.operand_widths@.len() - i,
    {
        let width: usize = def.operand_widths[i];
        let value: usize = if i < operands.len() {
            operands[i]
        } else {
            0
        };
        assert(value == operand_or_zero(operands@, i as int));
        assert(width == 1 || width == 2);
        if width == 1 {
            instructions.push(value as u8);
        } else {
            let (hi, lo) = big_endian_bytes(value as u16);
            instructions.push(hi);
            instructions.push(lo);
        }
        i += 1;
        assert(instructions@ =~= seq![op] + encode_operands(
            operand_widths(op),
            operands@,
            i as int,
        ));
    }
    instructions
}

/// Decodes the operands that follow an opcode, by the widths of its
/// definition, and returns them with the number of bytes read.
pub fn read_operands(def: &Definition, ins: &[u8]) -> (r: (Vec<usize>, usize))
    requires
        total_width(def.operand_widths@, def.operand_widths@.len() as int) <= ins@.len(),
    ensures
        r.0@ == decode_operands(def.operand_widths@, ins@),
        r.1 == total_width(def.operand_widths@, def.operand_widths@.len() as int),
{
    let mut operands: Vec<usize> = Vec::new();
    let mut offset: usize = 0;
    let mut i: usize = 0;
    let limit: usize = ins.len();
    while i < def.operand_widths.len()
        invariant
            i <= def.operand_widths@.len(),
            limit == ins@.len(),
            total_width(def.operand_widths@, def.operand_widths@.len() as int) <= ins@.len(),
            offset == total_width(def.operand_widths@, i as int),
            operands@.len() == i,
            forall|j: int|
                0 <= j < i ==> operands@[j] == decode_operand(
                    def.operand_widths@[j],
                    ins@,
                    total_width(def.operand_widths@, j) as int,
                ),
        decreases def.operand_widths@.len() - i,
    {
        let width: usize = def.operand_widths[i];
        proof {
            lemma_total_width_monotonic(
                def.operand_widths@,
                i as int + 1,
                def.operand_widths@.len() as int,
            );
            assert(total_width(def.operand_widths@, i as int + 1) == offset + width);
        }
        let value: usize = if width == 1 {
            read_u8(slice_subrange(ins, offset, limit))
        } else if width == 2 {
            read_u16(slice_subrange(ins, offset, limit))
        } else {
            0
        };
        operands.push(value);
        offset += width;
        i += 1;
    }
    assert(operands@ =~= decode_operands(def.operand_widths@, ins@));
    (operands, offset)
}

/// The sum of widths grows with the number of widths taken.
pub proof fn lemma_total_width_monotonic(widths: Seq<usize>, i: int, j: int)
    requires
        0 <= i <= j,
    ensures
        total_width(widths, i) <= total_width(widths, j),
    decreases j,
{
    if i < j {
        lemma_total_width_monotonic(widths, i, j - 1);
    }
}

/// The encoded operands take as many bytes as the widths sum to.
pub proof fn lemma_encode_operands_len(widths: Seq<usize>, operands: Seq<usize>, k: int)
    requires
        0 <= k <= widths.len(),
    ensures
        encode_operands(widths, operands, k).len() == total_width(widths, k),
    decreases k,
{
    if k > 0 {
        lemma_encode_operands_len(widths, operands, k - 1);
    }
}

/// Reading back the operands of an encoded instruction returns the operands
/// that went into it, and consumes as many bytes as its widths sum to: for a
/// defined opcode `op` and one fitting operand per declared width,
/// `read_operands` applied to the definition of `op` and to what follows the
/// opcode byte in `make(op, operands)` gives `(operands, sum of widths)`.
pub proof fn lemma_read_operands_inverts_make(op: Opcode, operands: Seq<usize>)
    requires
        is_defined(op),
        operands.len() == operand_widths(op).len(),
        operands_fit(operand_widths(op), operands),
    ensures
        decode_operands(
            operand_widths(op),
            encoding(op, operands).subrange(1, encoding(op, operands).len() as int),
        ) == operands,
        encoding(op, operands).len() == 1 + total_width(
            operand_widths(op),
            operand_widths(op).len() as int,
        ),
{
    let widths = operand_widths(op);
    let body = encode_operands(widths, operands, widths.len() as int);
    assert(encoding(op, operands).subrange(1, encoding(op, operands).len() as int) =~= body);
    lemma_encode_operands_len(widths, operands, widths.len() as int);
    assert forall|i: int| 0 <= i < widths.len() implies decode_operand(
        widths[i],
        body,
        total_width(widths, i) as int,
    ) == operands[i] by {
        lemma_operand_round_trip(widths, operands, widths.len() as int, i);
    }
    assert(decode_operands(widths, body) =~= operands);
}

/// Within the encoding of the first `k` operands, the operand at position
/// `i < k` reads back as it was written.
proof fn lemma_operand_round_trip(widths: Seq<usize>, operands: Seq<usize>, k: int, i: int)
    requires
        0 <= i < k <= widths.len(),
        operands.len() == widths.len(),
        operands_fit(widths, operands),
        forall|j: int| 0 <= j < widths.len() ==> widths[j] == 1 || widths[j] == 2,
    ensures
        decode_operand(
            widths[i],
            encode_operands(widths, operands, k),
            total_width(widths, i) as int,
        ) == operands[i],
    decreases k,
{
    let prefix = encode_operands(widths, operands, k - 1);
    let last = encode_operand(widths[k - 1], operand_or_zero(operands, k - 1));
    lemma_encode_operands_len(widths, operands, k - 1);
    if i == k - 1 {
        let v = operands[i];
        assert(operand_fits(widths[i], v));
        if widths[i] == 2 {
            assert((prefix + last)[prefix.len() as int] == last[0]);
            assert((prefix + last)[prefix.len() as int + 1] == last[1]);
            assert(be_u16((v / 256) as u8, (v % 256) as u8) == v);
        } else if widths[i] == 1 {
            assert((prefix + last)[prefix.len() as int] == last[0]);
        }
    } else {
        lemma_operand_round_trip(widths, operands, k - 1, i);
        lemma_total_width_monotonic(widths, i + 1, k - 1);
        assert(total_width(widths, i + 1) == total_width(widths, i) + widths[i]);
        let at = total_width(widths, i) as int;
        if widths[i] == 2 {
            assert((prefix + last)[at] == prefix[at]);
            assert((prefix + last)[at + 1] == prefix[at + 1]);
        } else if widths[i] == 1 {
            assert((prefix + last)[at] == prefix[at]);
        }
    }
}


/// The text of one instruction: its name, followed by its operands in decimal.
/// A number of operands other than the definition's, or more than two of them,
/// gives an error text.
pub open spec fn formatted_instruction(
    name: Seq<char>,
    defined: nat,
    operands: Seq<usize>,
) -> Seq<char> {
    if operands.len() != defined {
        "ERROR: operand len "@ + decimal(operands.len()) + " does not match defined "@ + decimal(
            defined,
        ) + "\n"@
    } else if defined == 0 {
        name
    } else if defined == 1 {
        name + " "@ + decimal(operands[0] as nat)
    } else if defined == 2 {
        name + " "@ + decimal(operands[0] as nat) + " "@ + decimal(operands[1] as nat)
    } else {
        "ERROR: unhandled operandCount for "@ + name + "\n"@
    }
}

/// Formats an instruction from its definition and operands.
pub fn format_instruction(def: &Definition, operands: &Vec<usize>) -> (s: String)
    ensures
        s@ == formatted_instruction(def.name@, def.operand_widths@.len(), operands@),
{
    let operand_count: usize = def.operand_widths.len();
    let mut out = String::new();
    if operands.len() != operand_count {
        out.append("ERROR: operand len ");
        push_decimal(&mut out, operands.len() as u64);
        out.append(" does not match defined ");
        push_decimal(&mut out, operand_count as u64);
        out.append("\n");
    } else if operand_count == 0 {
        out.append(def.name.as_str());
    } else if operand_count == 1 {
        out.append(def.name.as_str());
        out.append(" ");
        push_decimal(&mut out, operands[0] as u64);
    } else if operand_count == 2 {
        out.append(def.name.as_str());
        out.append(" ");
        push_decimal(&mut out, operands[0] as u64);
        out.append(" ");
        push_decimal(&mut out, operands[1] as u64);
    } else {
        out.append("ERROR: unhandled operandCount for ");
        out.append(def.name.as_str());
        out.append("\n");
    }
    assert(out@ =~= formatted_instruction(def.name@, def.operand_widths@.len(), operands@));
    out
}

/// The line that the listing shows for the instruction at `offset`: the
/// offset in four digits, the formatted instruction, and a line break.
pub open spec fn instruction_line(offset: nat, op: Opcode, operands: Seq<usize>) -> Seq<char> {
    padded4(offset) + " "@ + formatted_instruction(
        opcode_name(op),
        operand_widths(op).len(),
        operands,
    ) + "\n"@
}

/// The listing of the instructions in `bytes` from `offset` on. A byte that is
/// no opcode gives an error line and is skipped; an instruction whose operands
/// run past the end of the stream gives an error line that ends the listing.
pub open spec fn disassembly(bytes: Seq<u8>, offset: int) -> Seq<char>
    decreases bytes.len() - offset,
{
    if offset < 0 || offset >= bytes.len() {
        Seq::empty()
    } else if !is_defined(bytes[offset]) {
        "ERROR: opcode must be defined\n"@ + disassembly(bytes, offset + 1)
    } else {
        let op = bytes[offset];
        let widths = operand_widths(op);
        let width = total_width(widths, widths.len() as int);
        if offset + 1 + width > bytes.len() {
            "ERROR: instruction is cut short\n"@
        } else {
            instruction_line(
                offset as nat,
                op,
                decode_operands(widths, bytes.subrange(offset + 1, bytes.len() as int)),
            ) + disassembly(bytes, offset + 1 + width)
        }
    }
}

/// Lists the instructions of a stream, one per line, each as its byte offset,
/// its name and its operands.
pub fn disassemble(ins: &Instructions) -> (out: String)
    ensures
        out@ == disassembly(ins@, 0),
{
    let mut out = String::new();
    let mut i: usize = 0;
    let len: usize = ins.len();
    while i < len
        invariant
            i <= len,
            len == ins@.len(),
            out@ + disassembly(ins@, i as int) == disassembly(ins@, 0),
        decreases len - i,
    {
        let ghost before = out@;
        match lookup(ins[i]) {
            Err(_) => {
                out.append("ERROR: opcode must be defined\n");
                assert(out@ + disassembly(ins@, i as int + 1) =~= before + disassembly(
                    ins@,
                    i as int,
                ));
                i += 1;
            },
            Ok(def) => {
                let width: usize = operands_width(ins[i]);
                if width > len - i - 1 {
                    out.append("ERROR: instruction is cut short\n");
                    assert(out@ + disassembly(ins@, len as int) =~= before + disassembly(
                        ins@,
                        i as int,
                    ));
                    i = len;
                } else {
                    let (operands, read) = read_operands(
                        &def,
                        slice_subrange(ins.as_slice(), i + 1, len),
                    );
                    let formatted = format_instruction(&def, &operands);
                    push_padded4(&mut out, i as u64);
                    out.append(" ");
                    out.append(formatted.as_str());
                    out.append("\n");
                    assert(out@ + disassembly(ins@, i as int + 1 + read) =~= before + disassembly(
                        ins@,
                        i as int,
                    ));
                    i += 1 + read;
                }
            },
        }
    }
    assert(out@ =~= out@ + disassembly(ins@, i as int));
    out
}

/// The number of bytes that the operands of `op` take.
pub fn operands_width(op: Opcode) -> (width: usize)
    ensures
        width == total_width(operand_widths(op), operand_widths(op).len() as int),
{
    reveal_with_fuel(total_width, 3);
    match op {
        OP_CONSTANT | OP_JUMP_NOT_TRUTHY | OP_JUMP | OP_GET_GLOBAL | OP_SET_GLOBAL | OP_ARRAY
        | OP_HASH | OP_ASSIGN_GLOBAL => 2,
        OP_CALL | OP_GET_LOCAL | OP_SET_LOCAL | OP_GET_BUILTIN | OP_GET_FREE => 1,
        OP_CLOSURE => 3,
        _ => 0,
    }
}

/// An instruction as it is emitted: an opcode and its operands.
pub type Emitted = (Opcode, Seq<usize>);

/// Whether the opcode is defined and comes with exactly the operands of its
/// definition, each small enough for its width.
pub open spec fn well_formed(instruction: Emitted) -> bool {
    &&& is_defined(instruction.0)
    &&& instruction.1.len() == operand_widths(instruction.0).len()
    &&& operands_fit(operand_widths(instruction.0), instruction.1)
}

/// The stream that emitting the instructions one after the other gives.
pub open spec fn assemble(program: Seq<Emitted>) -> Seq<u8>
    decreases program.len(),
{
    if program.len() == 0 {
        Seq::empty()
    } else {
        encoding(program[0].0, program[0].1) + assemble(program.drop_first())
    }
}

/// One line per instruction of `program`, where the first instruction stands
/// at byte offset `base`.
pub open spec fn listing(program: Seq<Emitted>, base: nat) -> Seq<char>
    decreases program.len(),
{
    if program.len() == 0 {
        Seq::empty()
    } else {
        instruction_line(base, program[0].0, program[0].1) + listing(
            program.drop_first(),
            base + encoding(program[0].0, program[0].1).len(),
        )
    }
}

/// Bytes behind the operands do not change what is read.
proof fn lemma_decode_ignores_tail(widths: Seq<usize>, body: Seq<u8>, tail: Seq<u8>)
    requires
        body.len() == total_width(widths, widths.len() as int),
        forall|j: int| 0 <= j < widths.len() ==> widths[j] == 1 || widths[j] == 2,
    ensures
        decode_operands(widths, body + tail) == decode_operands(widths, body),
{
    assert forall|i: int| 0 <= i < widths.len() implies decode_operand(
        widths[i],
        body + tail,
        total_width(widths, i) as int,
    ) == decode_operand(widths[i], body, total_width(widths, i) as int) by {
        lemma_total_width_monotonic(widths, i + 1, widths.len() as int);
        assert(total_width(widths, i + 1) == total_width(widths, i) + widths[i]);
    }
    assert(decode_operands(widths, body + tail) =~= decode_operands(widths, body));
}

/// The listing of emitted instructions that stand behind `prefix` in a stream
/// shows one line per instruction, in the order of emission.
pub proof fn lemma_disassembly_behind_prefix(prefix: Seq<u8>, program: Seq<Emitted>)
    requires
        forall|i: int| 0 <= i < program.len() ==> well_formed(#[trigger] program[i]),
    ensures
        disassembly(prefix + assemble(program), prefix.len() as int) == listing(
            program,
            prefix.len(),
        ),
    decreases program.len(),
{
    let bytes = prefix + assemble(program);
    if program.len() > 0 {
        let op = program[0].0;
        let operands = program[0].1;
        let rest = program.drop_first();
        let widths = operand_widths(op);
        let enc = encoding(op, operands);
        let body = encode_operands(widths, operands, widths.len() as int);
        assert(well_formed(program[0]));
        lemma_read_operands_inverts_make(op, operands);
        lemma_encode_operands_len(widths, operands, widths.len() as int);
        assert(bytes[prefix.len() as int] == op);
        let after = bytes.subrange(prefix.len() as int + 1, bytes.len() as int);
        assert(after =~= body + assemble(rest));
        assert(enc.subrange(1, enc.len() as int) =~= body);
        lemma_decode_ignores_tail(widths, body, assemble(rest));
        assert forall|i: int| 0 <= i < rest.len() implies well_formed(#[trigger] rest[i]) by {
            assert(rest[i] == program[i + 1]);
        }
        lemma_disassembly_behind_prefix(prefix + enc, rest);
        assert((prefix + enc) + assemble(rest) =~= bytes);
    }
}

/// Disassembling a stream of emitted instructions yields one line per
/// instruction: the listing of what `make` produced for a sequence of
/// well-formed instructions, concatenated, is the sequence of their lines.
pub proof fn lemma_disassembly_of_emitted(program: Seq<Emitted>)
    requires
        forall|i: int| 0 <= i < program.len() ==> well_formed(#[trigger] program[i]),
    ensures
        disassembly(assemble(program), 0) == listing(program, 0),
{
    lemma_disassembly_behind_prefix(Seq::empty(), program);
    assert(Seq::<u8>::empty() + assemble(program) =~= assemble(program));
}


/// Whether every instruction of `program` is well formed.
pub open spec fn all_well_formed(program: Seq<Emitted>) -> bool {
    forall|i: int| 0 <= i < program.len() ==> well_formed(#[trigger] program[i])
}

/// The offset at which the instruction with the index `j` stands in the
/// stream of `program`.
pub open spec fn offset_of(program: Seq<Emitted>, j: int) -> nat {
    assemble(program.take(j)).len()
}

/// The stream of two programs one after the other is the stream of the
/// first followed by the stream of the second.
pub proof fn lemma_assemble_concat(a: Seq<Emitted>, b: Seq<Emitted>)
    ensures
        assemble(a + b) == assemble(a) + assemble(b),
    decreases a.len(),
{
    if a.len() == 0 {
        assert(a + b =~= b);
        assert(assemble(a) + assemble(b) =~= assemble(b));
    } else {
        lemma_assemble_concat(a.drop_first(), b);
        assert((a + b).drop_first() =~= a.drop_first() + b);
        assert(assemble(a + b) =~= assemble(a) + assemble(b));
    }
}

/// Emitting one more instruction appends its bytes.
pub proof fn lemma_assemble_push(program: Seq<Emitted>, instruction: Emitted)
    ensures
        assemble(program.push(instruction)) == assemble(program) + encoding(
            instruction.0,
            instruction.1,
        ),
{
    lemma_assemble_concat(program, seq![instruction]);
    assert(program.push(instruction) =~= program + seq![instruction]);
    let single = seq![instruction];
    assert(single.drop_first() =~= Seq::<Emitted>::empty());
    assert(assemble(single.drop_first()) =~= Seq::<u8>::empty());
    assert(single[0] == instruction);
    assert(assemble(single) == encoding(single[0].0, single[0].1) + assemble(single.drop_first()));
    assert(assemble(single) =~= encoding(instruction.0, instruction.1));
}

/// The stream of a program is the stream of the instructions before the
/// index `j`, the bytes of the instruction at `j`, and the stream of the
/// instructions behind it.
pub proof fn lemma_assemble_split(program: Seq<Emitted>, j: int)
    requires
        0 <= j < program.len(),
    ensures
        assemble(program) == assemble(program.take(j)) + encoding(program[j].0, program[j].1)
            + assemble(program.skip(j + 1)),
{
    let front = program.take(j);
    let back = program.skip(j);
    assert(program =~= front + back);
    lemma_assemble_concat(front, back);
    assert(back.drop_first() =~= program.skip(j + 1));
    assert(back[0] == program[j]);
    assert(assemble(program) =~= assemble(front) + encoding(program[j].0, program[j].1)
        + assemble(program.skip(j + 1)));
}

/// A well-formed instruction takes one byte for its opcode and as many
/// bytes for its operands as the widths of the opcode sum to, and its first
/// byte is the opcode.
pub proof fn lemma_encoding_shape(instruction: Emitted)
    requires
        well_formed(instruction),
    ensures
        encoding(instruction.0, instruction.1).len() == 1 + total_width(
            operand_widths(instruction.0),
            operand_widths(instruction.0).len() as int,
        ),
        encoding(instruction.0, instruction.1)[0] == instruction.0,
{
    lemma_encode_operands_len(
        operand_widths(instruction.0),
        instruction.1,
        operand_widths(instruction.0).len() as int,
    );
}

/// Two well-formed programs with the same opcodes have streams of the same
/// length.
pub proof fn lemma_assemble_len_by_opcodes(a: Seq<Emitted>, b: Seq<Emitted>)
    requires
        a.len() == b.len(),
        all_well_formed(a),
        all_well_formed(b),
        forall|i: int| 0 <= i < a.len() ==> a[i].0 == b[i].0,
    ensures
        assemble(a).len() == assemble(b).len(),
    decreases a.len(),
{
    if a.len() > 0 {
        lemma_encoding_shape(a[0]);
        lemma_encoding_shape(b[0]);
        assert(a[0].0 == b[0].0);
        let ra = a.drop_first();
        let rb = b.drop_first();
        assert forall|i: int| 0 <= i < ra.len() implies well_formed(#[trigger] ra[i]) by {
            assert(ra[i] == a[i + 1]);
        }
        assert forall|i: int| 0 <= i < rb.len() implies well_formed(#[trigger] rb[i]) by {
            assert(rb[i] == b[i + 1]);
        }
        assert forall|i: int| 0 <= i < ra.len() implies ra[i].0 == rb[i].0 by {
            assert(ra[i] == a[i + 1] && rb[i] == b[i + 1]);
        }
        lemma_assemble_len_by_opcodes(ra, rb);
    }
}

/// Replacing an instruction by a well-formed one with the same opcode
/// overwrites its bytes and leaves the others where they are.
pub proof fn lemma_assemble_update(program: Seq<Emitted>, j: int, instruction: Emitted)
    requires
        0 <= j < program.len(),
        well_formed(program[j]),
        well_formed(instruction),
        instruction.0 == program[j].0,
    ensures
        assemble(program.update(j, instruction)) == assemble(program.take(j)) + encoding(
            instruction.0,
            instruction.1,
        ) + assemble(program.skip(j + 1)),
        assemble(program.update(j, instruction)).len() == assemble(program).len(),
{
    let updated = program.update(j, instruction);
    lemma_assemble_split(program, j);
    lemma_assemble_split(updated, j);
    assert(updated.take(j) =~= program.take(j));
    assert(updated.skip(j + 1) =~= program.skip(j + 1));
    lemma_encoding_shape(program[j]);
    lemma_encoding_shape(instruction);
}

} // verus!
