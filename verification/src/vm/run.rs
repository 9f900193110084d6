//! The dispatch loop and the instructions.
use crate::code::{
    Opcode, OP_ADD, OP_ARRAY, OP_ASSIGN_GLOBAL, OP_BANG, OP_CALL, OP_CLOSURE, OP_CONSTANT,
    OP_CURRENT_CLOSURE, OP_DIV, OP_EQUAL, OP_FALSE, OP_GET_BUILTIN, OP_GET_FREE, OP_GET_GLOBAL,
    OP_GET_LOCAL, OP_GREATER_THAN, OP_HASH, OP_INDEX, OP_JUMP, OP_JUMP_NOT_TRUTHY, OP_MINUS,
    OP_MUL, OP_NOT_EQUAL, OP_NULL, OP_POP, OP_RETURN, OP_RETURN_VALUE, OP_SET_GLOBAL,
    OP_SET_LOCAL, OP_SUB, OP_TRUE,
};
use crate::error::RuntimeError;
use crate::object::builtins::{
    builtin_at, builtin_outcome, call_builtin, get_builtin_function, BUILTIN_COUNT,
};
use crate::object::heap::{array_at, find_key, hash_lookup, Cell, Heap};
use crate::object::builtins::lemma_builtin_keeps_order;
use crate::object::keys::{
    distinct_plain_keys, heap_in_order, lemma_entries_with_key, lemma_found_in_range,
    lemma_new_object_keeps_order,
};
use crate::object::objects::{
    ArrayObj, Boolean, Closure, HashMapObj, Integer, Null, StringObj, VARIADIC,
};
use crate::object::{duplicate_all, kind_of, pairs_of, values_of, AllObjects, Value};
use crate::vm::frame::{new_frame, Frame, FrameModel};
use crate::vm::{Machine, MAX_FRAMES, MAX_STEPS, STACK_SIZE, VM};
use vstd::prelude::*;
use vstd::string::StringExecFns;

verus! {

/// Whether the machine did what an instruction says: on success it is in
/// the state that the instruction leads to; on failure the error is the one
/// that the instruction gives, and the machine is as it was.
pub open spec fn follows(
    before: Machine,
    after: Machine,
    r: Result<(), RuntimeError>,
    expected: Result<Machine, RuntimeError>,
) -> bool {
    match expected {
        Ok(m) => r is Ok && after == m,
        Err(e) => r == Err::<(), RuntimeError>(e) && after == before,
    }
}

/// The machine after the value is pushed and the instruction pointer has
/// moved on by `n` bytes.
pub open spec fn push_and_advance(m: Machine, v: Value, n: int) -> Result<Machine, RuntimeError> {
    match m.push(v) {
        Err(e) => Err(e),
        Ok(pushed) => Ok(pushed.advance(n)),
    }
}

/// CONSTANT: pushes the constant at the operand's index.
pub open spec fn constant_step(m: Machine) -> Result<Machine, RuntimeError> {
    match m.operand16() {
        None => Err(RuntimeError::TruncatedInstruction),
        Some(index) => if index >= m.constants.len() {
            Err(RuntimeError::ConstantNotFound { index })
        } else {
            push_and_advance(m, m.constants[index as int], 3)
        },
    }
}

/// The quotient of an integer division that truncates towards zero and
/// wraps where the quotient is no 64 bit integer.
pub open spec fn wrapping_quotient(left: i64, right: i64) -> i64 {
    match left.checked_div(right) {
        Some(q) => q,
        None => i64::MIN,
    }
}

/// What an arithmetic instruction computes from two operands: the
/// concatenation of two strings for ADD; the sum, difference, product or
/// quotient of two integers, wrapping on overflow.
pub open spec fn arithmetic_value(op: Opcode, left: Value, right: Value) -> Result<
    Value,
    RuntimeError,
> {
    match (left, right) {
        (Value::Str(l), Value::Str(r)) => if op == OP_ADD {
            Ok(Value::Str(l + r))
        } else {
            Err(RuntimeError::IncorrectStringOperation)
        },
        (Value::Integer(l), Value::Integer(r)) => if op == OP_ADD {
            Ok(Value::Integer(l.wrapping_add(r)))
        } else if op == OP_SUB {
            Ok(Value::Integer(l.wrapping_sub(r)))
        } else if op == OP_MUL {
            Ok(Value::Integer(l.wrapping_mul(r)))
        } else if r == 0 {
            Err(RuntimeError::DivisionByZero)
        } else {
            Ok(Value::Integer(wrapping_quotient(l, r)))
        },
        _ => Err(RuntimeError::UnsupportedArithmetic),
    }
}

/// An instruction that replaces the two topmost values, the right operand on
/// top of the left, by what `value` computes from them.
pub open spec fn binary_step(m: Machine, value: Result<Value, RuntimeError>) -> Result<
    Machine,
    RuntimeError,
> {
    if m.stack.len() < 2 {
        Err(RuntimeError::StackEmpty)
    } else {
        match value {
            Err(e) => Err(e),
            Ok(v) => push_and_advance(m.drop(2), v, 1),
        }
    }
}

/// ADD, SUB, MUL, DIV.
pub open spec fn arithmetic_step(m: Machine, op: Opcode) -> Result<Machine, RuntimeError> {
    binary_step(m, arithmetic_value(op, m.peek(1), m.peek(0)))
}

/// What a comparison computes from two operands. Integers and booleans
/// compare by value; a boolean is greater than another where it is true and
/// the other is false.
pub open spec fn comparison_value(op: Opcode, left: Value, right: Value) -> Result<
    Value,
    RuntimeError,
> {
    match (left, right) {
        (Value::Integer(l), Value::Integer(r)) => Ok(
            Value::Boolean(
                if op == OP_EQUAL {
                    l == r
                } else if op == OP_NOT_EQUAL {
                    l != r
                } else {
                    l > r
                },
            ),
        ),
        (Value::Boolean(l), Value::Boolean(r)) => Ok(
            Value::Boolean(
                if op == OP_EQUAL {
                    l == r
                } else if op == OP_NOT_EQUAL {
                    l != r
                } else {
                    l && !r
                },
            ),
        ),
        _ => Err(
            RuntimeError::OperandTypesMismatch { left: kind_of(left), right: kind_of(right) },
        ),
    }
}

/// EQUAL, NOT_EQUAL, GREATER_THAN.
pub open spec fn comparison_step(m: Machine, op: Opcode) -> Result<Machine, RuntimeError> {
    binary_step(m, comparison_value(op, m.peek(1), m.peek(0)))
}

/// An instruction that replaces the topmost value by what `value` computes
/// from it.
pub open spec fn unary_step(m: Machine, value: Result<Value, RuntimeError>) -> Result<
    Machine,
    RuntimeError,
> {
    if m.stack.len() < 1 {
        Err(RuntimeError::StackEmpty)
    } else {
        match value {
            Err(e) => Err(e),
            Ok(v) => push_and_advance(m.drop(1), v, 1),
        }
    }
}

/// What MINUS computes: the negation of an integer, wrapping on overflow.
pub open spec fn minus_value(v: Value) -> Result<Value, RuntimeError> {
    match v {
        Value::Integer(n) => Ok(Value::Integer(0i64.wrapping_sub(n))),
        _ => Err(RuntimeError::NotAnInteger { found: kind_of(v) }),
    }
}

/// Whether a value counts as true: everything but false and null does.
pub open spec fn truthy(v: Value) -> bool {
    match v {
        Value::Boolean(b) => b,
        Value::Null => false,
        _ => true,
    }
}

/// POP: takes the topmost value from the stack and records it as the result.
pub open spec fn pop_step(m: Machine) -> Result<Machine, RuntimeError> {
    if m.stack.len() < 1 {
        Err(RuntimeError::StackEmpty)
    } else {
        Ok((Machine { result: Some(m.peek(0)), ..m.drop(1) }).advance(1))
    }
}

/// JUMP: continues at the operand's offset.
pub open spec fn jump_step(m: Machine) -> Result<Machine, RuntimeError> {
    match m.operand16() {
        None => Err(RuntimeError::TruncatedInstruction),
        Some(target) => Ok(m.jump(target)),
    }
}

/// JUMP_NOT_TRUTHY: takes the topmost value from the stack and continues at
/// the operand's offset where the value does not count as true.
pub open spec fn jump_not_truthy_step(m: Machine) -> Result<Machine, RuntimeError> {
    if m.stack.len() < 1 {
        Err(RuntimeError::StackEmpty)
    } else {
        match m.operand16() {
            None => Err(RuntimeError::TruncatedInstruction),
            Some(target) => if truthy(m.peek(0)) {
                Ok(m.drop(1).advance(3))
            } else {
                Ok(m.drop(1).jump(target))
            },
        }
    }
}

/// The global variables after the variable at `index` is set: variables up
/// to the index that do not exist yet come into being as null.
pub open spec fn globals_with(globals: Seq<Value>, index: int, v: Value) -> Seq<Value> {
    if index < globals.len() {
        globals.update(index, v)
    } else {
        globals + Seq::new((index - globals.len()) as nat, |i: int| Value::Null) + seq![v]
    }
}

/// SET_GLOBAL: takes the topmost value from the stack and stores it in the
/// global variable at the operand's index.
pub open spec fn set_global_step(m: Machine) -> Result<Machine, RuntimeError> {
    match m.operand16() {
        None => Err(RuntimeError::TruncatedInstruction),
        Some(index) => if m.stack.len() < 1 {
            Err(RuntimeError::StackEmpty)
        } else {
            Ok(
                (Machine {
                    globals: globals_with(m.globals, index as int, m.peek(0)),
                    ..m.drop(1)
                }).advance(3),
            )
        },
    }
}

/// GET_GLOBAL: pushes the global variable at the operand's index.
pub open spec fn get_global_step(m: Machine) -> Result<Machine, RuntimeError> {
    match m.operand16() {
        None => Err(RuntimeError::TruncatedInstruction),
        Some(index) => if index >= m.globals.len() {
            Err(RuntimeError::GlobalNotFound { index })
        } else {
            push_and_advance(m, m.globals[index as int], 3)
        },
    }
}

/// ASSIGN_GLOBAL: takes the topmost value from the stack, stores it in the
/// existing global variable at the operand's index, and pushes null.
pub open spec fn assign_global_step(m: Machine) -> Result<Machine, RuntimeError> {
    match m.operand16() {
        None => Err(RuntimeError::TruncatedInstruction),
        Some(index) => if m.stack.len() < 1 {
            Err(RuntimeError::StackEmpty)
        } else if index >= m.globals.len() {
            Err(RuntimeError::GlobalNotFound { index })
        } else {
            push_and_advance(
                Machine { globals: m.globals.update(index as int, m.peek(0)), ..m.drop(1) },
                Value::Null,
                3,
            )
        },
    }
}

/// The machine with the local variable at `index` of the active frame set.
pub open spec fn with_local(m: Machine, index: int, v: Value) -> Machine {
    Machine {
        frames: m.frames.update(
            m.frames.len() - 1,
            FrameModel { locals: m.frame().locals.update(index, v), ..m.frame() },
        ),
        ..m
    }
}

/// SET_LOCAL: takes the topmost value from the stack and stores it in the
/// local slot at the operand's index.
pub open spec fn set_local_step(m: Machine) -> Result<Machine, RuntimeError> {
    match m.operand8(1) {
        None => Err(RuntimeError::TruncatedInstruction),
        Some(index) => if m.stack.len() < 1 {
            Err(RuntimeError::StackEmpty)
        } else if index >= m.frame().locals.len() {
            Err(RuntimeError::LocalNotFound { index })
        } else {
            Ok(with_local(m.drop(1), index as int, m.peek(0)).advance(2))
        },
    }
}

/// GET_LOCAL: pushes the local variable at the operand's index.
pub open spec fn get_local_step(m: Machine) -> Result<Machine, RuntimeError> {
    match m.operand8(1) {
        None => Err(RuntimeError::TruncatedInstruction),
        Some(index) => if index >= m.frame().locals.len() {
            Err(RuntimeError::LocalNotFound { index })
        } else {
            push_and_advance(m, m.frame().locals[index as int], 2)
        },
    }
}

/// GET_BUILTIN: pushes the builtin function with the operand's index.
pub open spec fn get_builtin_step(m: Machine) -> Result<Machine, RuntimeError> {
    match m.operand8(1) {
        None => Err(RuntimeError::TruncatedInstruction),
        Some(index) => if 1 <= index <= BUILTIN_COUNT {
            push_and_advance(m, Value::BuiltinFunction(builtin_at(index as int)), 2)
        } else {
            Err(RuntimeError::BuiltinNotFound { index })
        },
    }
}

/// GET_FREE: pushes the captured value at the operand's index.
pub open spec fn get_free_step(m: Machine) -> Result<Machine, RuntimeError> {
    match m.operand8(1) {
        None => Err(RuntimeError::TruncatedInstruction),
        Some(index) => if index >= m.frame().free.len() {
            Err(RuntimeError::FreeNotFound { index })
        } else {
            push_and_advance(m, m.frame().free[index as int], 2)
        },
    }
}

/// CURRENT_CLOSURE: pushes the closure that is being executed.
pub open spec fn current_closure_step(m: Machine) -> Result<Machine, RuntimeError> {
    push_and_advance(m, Value::Closure(m.frame().func, m.frame().free), 1)
}

/// The `n` topmost values of the operand stack, the lowest first.
pub open spec fn top_values(m: Machine, n: int) -> Seq<Value> {
    m.stack.subrange(m.stack.len() - n, m.stack.len() as int)
}

/// ARRAY: takes as many values from the stack as the operand says, puts an
/// array of them on the heap, in the order in which they were pushed, and
/// pushes the array.
pub open spec fn array_step(m: Machine) -> Result<Machine, RuntimeError> {
    match m.operand16() {
        None => Err(RuntimeError::TruncatedInstruction),
        Some(n) => if m.stack.len() < n {
            Err(RuntimeError::StackEmpty)
        } else {
            push_and_advance(
                Machine {
                    heap: m.heap.push(Cell::Array(top_values(m, n as int))),
                    ..m.drop(n as int)
                },
                Value::Array(m.heap.len() as usize),
                3,
            )
        },
    }
}

/// The entries of a hash map after `key` is bound to `value`: an entry whose
/// key equals `key` keeps its key and place and gets the value; where there
/// is none, a new entry is appended.
pub open spec fn entries_with(
    heap: Seq<Cell>,
    entries: Seq<(Value, Value)>,
    key: Value,
    value: Value,
) -> Result<Seq<(Value, Value)>, RuntimeError> {
    match find_key(heap, entries, key, 0) {
        Err(e) => Err(e),
        Ok(None) => Ok(entries.push((key, value))),
        Ok(Some(i)) => Ok(entries.update(i as int, (entries[i as int].0, value))),
    }
}

/// The entries of the hash map that HASH builds from `items`, which holds a
/// key and its value in turn: the pairs from position `from` on, inserted
/// from the last one back to the one at `from`.
pub open spec fn built_entries(heap: Seq<Cell>, items: Seq<Value>, from: nat) -> Result<
    Seq<(Value, Value)>,
    RuntimeError,
>
    decreases items.len() - 2 * from,
{
    if 2 * from + 1 >= items.len() {
        Ok(Seq::empty())
    } else {
        match built_entries(heap, items, from + 1) {
            Err(e) => Err(e),
            Ok(entries) => entries_with(
                heap,
                entries,
                items[2 * from as int],
                items[2 * from as int + 1],
            ),
        }
    }
}

/// HASH: takes twice as many values from the stack as the operand says, a
/// key and its value in turn, puts a hash map of them on the heap, and pushes
/// the hash map. The pairs are inserted from the top of the stack down.
pub open spec fn hash_step(m: Machine) -> Result<Machine, RuntimeError> {
    match m.operand16() {
        None => Err(RuntimeError::TruncatedInstruction),
        Some(n) => if m.stack.len() < 2 * n {
            Err(RuntimeError::StackEmpty)
        } else {
            match built_entries(m.heap, top_values(m, 2 * n), 0) {
                Err(e) => Err(e),
                Ok(entries) => push_and_advance(
                    Machine { heap: m.heap.push(Cell::Hash(entries)), ..m.drop(2 * n) },
                    Value::Hash(m.heap.len() as usize),
                    3,
                ),
            }
        },
    }
}

/// What INDEX computes: the element of an array at a non-negative integer
/// within its bounds; the value that a hash map holds for a key, or null
/// where it holds none.
pub open spec fn index_value(heap: Seq<Cell>, container: Value, index: Value) -> Result<
    Value,
    RuntimeError,
> {
    match container {
        Value::Array(id) => match index {
            Value::Integer(n) => if n < 0 {
                Err(RuntimeError::IndexNegative)
            } else {
                match array_at(heap, id) {
                    None => Err(RuntimeError::InvalidHandle),
                    Some(elements) => if n >= elements.len() {
                        Err(RuntimeError::IndexOutOfBounds)
                    } else {
                        Ok(elements[n as int])
                    },
                }
            },
            _ => Err(RuntimeError::IndexNotInteger),
        },
        Value::Hash(id) => match hash_lookup(heap, id, index) {
            Err(e) => Err(e),
            Ok(Some(v)) => Ok(v),
            Ok(None) => Ok(Value::Null),
        },
        _ => Err(RuntimeError::NotIndexable),
    }
}

/// INDEX: replaces the container and the index on top of it by the element.
pub open spec fn index_step(m: Machine) -> Result<Machine, RuntimeError> {
    binary_step(m, index_value(m.heap, m.peek(1), m.peek(0)))
}

/// CLOSURE: takes as many values from the stack as the second operand says
/// and pushes a closure of the function at the first operand's index in the
/// constants that has captured them.
pub open spec fn closure_step(m: Machine) -> Result<Machine, RuntimeError> {
    match (m.operand16(), m.operand8(3)) {
        (Some(index), Some(count)) => if index >= m.constants.len() {
            Err(RuntimeError::ConstantNotFound { index })
        } else {
            match m.constants[index as int] {
                Value::CompiledFunction(func) => if m.stack.len() < count {
                    Err(RuntimeError::StackEmpty)
                } else {
                    push_and_advance(
                        m.drop(count as int),
                        Value::Closure(func, top_values(m, count as int)),
                        4,
                    )
                },
                other => Err(RuntimeError::NotAFunction { found: kind_of(other) }),
            }
        },
        _ => Err(RuntimeError::TruncatedInstruction),
    }
}

/// CALL: takes the arguments, as many as the operand says, and below them
/// the callee from the stack. A closure is called in a new frame, which
/// becomes the active one. A builtin function is called at once: its result
/// is pushed, and what it asks of the host becomes pending.
pub open spec fn call_step(m: Machine) -> Result<Machine, RuntimeError> {
    match m.operand8(1) {
        None => Err(RuntimeError::TruncatedInstruction),
        Some(n) => if m.stack.len() < n + 1 {
            Err(RuntimeError::StackEmpty)
        } else {
            let arguments = top_values(m, n as int);
            let rest = m.drop(n + 1);
            match m.peek(n as int) {
                Value::Closure(func, free) => if n != func.num_args {
                    Err(RuntimeError::WrongArgumentCount { want: func.num_args, got: n })
                } else if m.frames.len() >= MAX_FRAMES {
                    Err(RuntimeError::FrameOverflow)
                } else {
                    let caller = rest.advance(2);
                    Ok(
                        Machine {
                            frames: caller.frames.push(new_frame(func, free, arguments)),
                            ..caller
                        },
                    )
                },
                Value::BuiltinFunction(f) => if f.num_params != VARIADIC && n != f.num_params {
                    Err(RuntimeError::WrongArgumentCount { want: f.num_params, got: n })
                } else {
                    match builtin_outcome(f.func, m.heap, arguments) {
                        Err(e) => Err(e),
                        Ok((heap, value, effect)) => push_and_advance(
                            Machine { heap, pending: effect, ..rest },
                            value,
                            2,
                        ),
                    }
                },
                other => Err(RuntimeError::NotCallable { found: kind_of(other) }),
            }
        },
    }
}

/// RETURN_VALUE: takes the return value from the stack, leaves the active
/// frame, and pushes the return value for the caller.
pub open spec fn return_value_step(m: Machine) -> Result<Machine, RuntimeError> {
    if m.stack.len() < 1 {
        Err(RuntimeError::StackEmpty)
    } else if m.frames.len() < 2 {
        Err(RuntimeError::ReturnOutsideFunction)
    } else {
        Ok(Machine { frames: m.frames.drop_last(), ..m })
    }
}

/// RETURN: leaves the active frame and pushes null for the caller.
pub open spec fn return_step(m: Machine) -> Result<Machine, RuntimeError> {
    if m.frames.len() < 2 {
        Err(RuntimeError::ReturnOutsideFunction)
    } else {
        (Machine { frames: m.frames.drop_last(), ..m }).push(Value::Null)
    }
}

/// The state that executing the next instruction leads to, or the error that
/// it gives. A byte that is no opcode is skipped.
pub open spec fn step(m: Machine) -> Result<Machine, RuntimeError> {
    let op = m.code()[m.ip()];
    if op == OP_CONSTANT {
        constant_step(m)
    } else if op == OP_ADD || op == OP_SUB || op == OP_MUL || op == OP_DIV {
        arithmetic_step(m, op)
    } else if op == OP_EQUAL || op == OP_NOT_EQUAL || op == OP_GREATER_THAN {
        comparison_step(m, op)
    } else if op == OP_TRUE {
        push_and_advance(m, Value::Boolean(true), 1)
    } else if op == OP_FALSE {
        push_and_advance(m, Value::Boolean(false), 1)
    } else if op == OP_NULL {
        push_and_advance(m, Value::Null, 1)
    } else if op == OP_MINUS {
        unary_step(m, minus_value(m.peek(0)))
    } else if op == OP_BANG {
        unary_step(m, Ok(Value::Boolean(!truthy(m.peek(0)))))
    } else if op == OP_POP {
        pop_step(m)
    } else if op == OP_JUMP {
        jump_step(m)
    } else if op == OP_JUMP_NOT_TRUTHY {
        jump_not_truthy_step(m)
    } else if op == OP_SET_GLOBAL {
        set_global_step(m)
    } else if op == OP_GET_GLOBAL {
        get_global_step(m)
    } else if op == OP_ASSIGN_GLOBAL {
        assign_global_step(m)
    } else if op == OP_SET_LOCAL {
        set_local_step(m)
    } else if op == OP_GET_LOCAL {
        get_local_step(m)
    } else if op == OP_GET_BUILTIN {
        get_builtin_step(m)
    } else if op == OP_GET_FREE {
        get_free_step(m)
    } else if op == OP_CURRENT_CLOSURE {
        current_closure_step(m)
    } else if op == OP_ARRAY {
        array_step(m)
    } else if op == OP_HASH {
        hash_step(m)
    } else if op == OP_INDEX {
        index_step(m)
    } else if op == OP_CLOSURE {
        closure_step(m)
    } else if op == OP_CALL {
        call_step(m)
    } else if op == OP_RETURN_VALUE {
        return_value_step(m)
    } else if op == OP_RETURN {
        return_step(m)
    } else {
        Ok(m.advance(1))
    }
}


/// The state in which a run ends, and the error that ended it, if one did.
/// The machine executes instructions until the active frame has none left,
/// until a builtin function asks something of the host, until an instruction
/// fails, or until `fuel` instructions are executed. An instruction that
/// fails leaves the machine as it was: the state that comes with an error is
/// the one in which the failing instruction started.
pub open spec fn run_from(m: Machine, fuel: nat) -> (Machine, Option<RuntimeError>)
    decreases fuel,
{
    if m.pending is Some || m.halted() {
        (m, None)
    } else if fuel == 0 {
        (m, Some(RuntimeError::StepLimit))
    } else {
        match step(m) {
            Err(e) => (m, Some(e)),
            Ok(next) => run_from(next, (fuel - 1) as nat),
        }
    }
}

/// The value of an arithmetic instruction.
pub fn arithmetic(op: Opcode, left: &AllObjects, right: &AllObjects) -> (r: Result<
    AllObjects,
    RuntimeError,
>)
    requires
        op == OP_ADD || op == OP_SUB || op == OP_MUL || op == OP_DIV,
    ensures
        match arithmetic_value(op, left@, right@) {
            Err(e) => r == Err::<AllObjects, RuntimeError>(e),
            Ok(v) => r is Ok && r->Ok_0@ == v,
        },
{
    match (left, right) {
        (AllObjects::StringObj(l), AllObjects::StringObj(r)) => {
            if op != OP_ADD {
                return Err(RuntimeError::IncorrectStringOperation);
            }
            let concatenated = l.value.clone().concat(r.value.as_str());
            Ok(AllObjects::StringObj(StringObj { value: concatenated }))
        },
        (AllObjects::Integer(l), AllObjects::Integer(r)) => {
            let value: i64 = if op == OP_ADD {
                l.value.wrapping_add(r.value)
            } else if op == OP_SUB {
                l.value.wrapping_sub(r.value)
            } else if op == OP_MUL {
                l.value.wrapping_mul(r.value)
            } else if r.value == 0 {
                return Err(RuntimeError::DivisionByZero);
            } else {
                match l.value.checked_div(r.value) {
                    Some(q) => q,
                    None => i64::MIN,
                }
            };
            Ok(AllObjects::Integer(Integer { value }))
        },
        _ => Err(RuntimeError::UnsupportedArithmetic),
    }
}

/// The value of a comparison.
pub fn comparison(op: Opcode, left: &AllObjects, right: &AllObjects) -> (r: Result<
    AllObjects,
    RuntimeError,
>)
    requires
        op == OP_EQUAL || op == OP_NOT_EQUAL || op == OP_GREATER_THAN,
    ensures
        match comparison_value(op, left@, right@) {
            Err(e) => r == Err::<AllObjects, RuntimeError>(e),
            Ok(v) => r is Ok && r->Ok_0@ == v,
        },
{
    if left.is_integer() && right.is_integer() {
        return VM::run_comparison_for_ints(op, left, right);
    }
    if left.is_boolean() && right.is_boolean() {
        return VM::run_comparison_for_bools(op, left, right);
    }
    Err(
        RuntimeError::OperandTypesMismatch {
            left: left.object_type(),
            right: right.object_type(),
        },
    )
}

/// The value of an index expression.
pub fn index_into(heap: &Heap, container: &AllObjects, index: &AllObjects) -> (r: Result<
    AllObjects,
    RuntimeError,
>)
    ensures
        match index_value(heap@, container@, index@) {
            Err(e) => r == Err::<AllObjects, RuntimeError>(e),
            Ok(v) => r is Ok && r->Ok_0@ == v,
        },
{
    match container {
        AllObjects::ArrayObj(array) => {
            let position = match index {
                AllObjects::Integer(v) => v.value,
                _ => {
                    return Err(RuntimeError::IndexNotInteger);
                },
            };
            if position < 0 {
                return Err(RuntimeError::IndexNegative);
            }
            let elements = match heap.array(array.id) {
                None => {
                    return Err(RuntimeError::InvalidHandle);
                },
                Some(v) => v,
            };
            if position as u64 >= elements.len() as u64 {
                return Err(RuntimeError::IndexOutOfBounds);
            }
            Ok(elements[position as usize].duplicate())
        },
        AllObjects::HashMap(map) => {
            match heap.hash_get(map.id, index) {
                Err(e) => Err(e),
                Ok(Some(v)) => Ok(v),
                Ok(None) => Ok(AllObjects::Null(Null)),
            }
        },
        _ => Err(RuntimeError::NotIndexable),
    }
}

/// Once building the entries from some pair on fails, so does building them
/// from an earlier pair on.
proof fn lemma_built_entries_fails(heap: Seq<Cell>, items: Seq<Value>, from: nat, earlier: nat)
    requires
        earlier <= from,
        built_entries(heap, items, from) is Err,
    ensures
        built_entries(heap, items, earlier) == built_entries(heap, items, from),
    decreases from - earlier,
{
    if earlier < from {
        lemma_built_entries_fails(heap, items, from, earlier + 1);
    }
}

/// The entries that HASH builds hold no plain key twice.
pub proof fn lemma_built_entries_distinct(heap: Seq<Cell>, items: Seq<Value>, from: nat)
    ensures
        built_entries(heap, items, from) matches Ok(entries) ==> distinct_plain_keys(entries),
    decreases items.len() - 2 * from,
{
    if 2 * from + 1 < items.len() {
        lemma_built_entries_distinct(heap, items, from + 1);
        if let Ok(entries) = built_entries(heap, items, from + 1) {
            lemma_entries_with_key(
                heap,
                entries,
                items[2 * from as int],
                items[2 * from as int + 1],
            );
            lemma_found_in_range(heap, entries, items[2 * from as int], 0);
        }
    }
}

/// An instruction keeps the heap in order: no hash map comes to hold a
/// plain key twice.
pub proof fn lemma_step_keeps_heap_in_order(m: Machine)
    requires
        heap_in_order(m.heap),
        step(m) is Ok,
    ensures
        heap_in_order(step(m)->Ok_0.heap),
{
    let op = m.code()[m.ip()];
    if op == OP_ARRAY {
        let n = m.operand16()->Some_0;
        lemma_new_object_keeps_order(m.heap, Cell::Array(top_values(m, n as int)));
    } else if op == OP_HASH {
        let n = m.operand16()->Some_0;
        lemma_built_entries_distinct(m.heap, top_values(m, 2 * n), 0);
        lemma_new_object_keeps_order(
            m.heap,
            Cell::Hash(built_entries(m.heap, top_values(m, 2 * n), 0)->Ok_0),
        );
    } else if op == OP_CALL {
        let n = m.operand8(1)->Some_0;
        if let Value::BuiltinFunction(f) = m.peek(n as int) {
            lemma_builtin_keeps_order(f.func, m.heap, top_values(m, n as int));
        }
    }
}

/// A run keeps the heap in order.
pub proof fn lemma_run_keeps_heap_in_order(m: Machine, fuel: nat)
    requires
        heap_in_order(m.heap),
    ensures
        heap_in_order(run_from(m, fuel).0.heap),
    decreases fuel,
{
    if !(m.pending is Some || m.halted() || fuel == 0) {
        if let Ok(next) = step(m) {
            lemma_step_keeps_heap_in_order(m);
            lemma_run_keeps_heap_in_order(next, (fuel - 1) as nat);
        }
    }
}

/// The entries of the hash map that HASH builds from the given values, a
/// key and its value in turn.
pub fn build_entries(heap: &Heap, items: Vec<AllObjects>) -> (r: Result<
    Vec<(AllObjects, AllObjects)>,
    RuntimeError,
>)
    requires
        items@.len() % 2 == 0,
    ensures
        match built_entries(heap@, values_of(items@), 0) {
            Err(e) => r == Err::<Vec<(AllObjects, AllObjects)>, RuntimeError>(e),
            Ok(entries) => r is Ok && pairs_of(r->Ok_0@) == entries,
        },
        r matches Ok(entries) ==> distinct_plain_keys(pairs_of(entries@)),
{
    proof {
        lemma_built_entries_distinct(heap@, values_of(items@), 0);
    }
    let mut rest = items;
    let ghost all = values_of(items@);
    let mut entries: Vec<(AllObjects, AllObjects)> = Vec::new();
    assert(pairs_of(entries@) =~= Seq::empty());
    while rest.len() >= 2
        invariant
            all == values_of(items@),
            rest@.len() % 2 == 0,
            rest@.len() <= all.len(),
            values_of(rest@) == all.subrange(0, rest@.len() as int),
            built_entries(heap@, all, (rest@.len() / 2) as nat) == Ok::<
                Seq<(Value, Value)>,
                RuntimeError,
            >(pairs_of(entries@)),
        decreases rest@.len(),
    {
        let ghost before = rest@;
        let ghost from = (rest@.len() / 2 - 1) as nat;
        let value = rest.pop().unwrap();
        let key = rest.pop().unwrap();
        assert(value@ == all[2 * from as int + 1] && key@ == all[2 * from as int]) by {
            assert(values_of(before)[2 * from as int + 1] == value@);
            assert(values_of(before)[2 * from as int] == key@);
        }
        assert(values_of(rest@) =~= all.subrange(0, rest@.len() as int));
        let position = match heap.position_of_key(&entries, &key) {
            Err(e) => {
                proof {
                    assert(built_entries(heap@, all, from) == Err::<
                        Seq<(Value, Value)>,
                        RuntimeError,
                    >(e));
                    lemma_built_entries_fails(heap@, all, from, 0);
                }
                return Err(e);
            },
            Ok(p) => p,
        };
        let ghost old_entries = entries@;
        match position {
            None => {
                entries.push((key, value));
                assert(pairs_of(entries@) =~= pairs_of(old_entries).push((key@, value@)));
            },
            Some(i) => {
                let (kept, _) = entries.remove(i);
                entries.insert(i, (kept, value));
                assert(pairs_of(entries@) =~= pairs_of(old_entries).update(
                    i as int,
                    (pairs_of(old_entries)[i as int].0, value@),
                ));
            },
        }
    }
    Ok(entries)
}

impl VM {
    /// Moves the instruction pointer of the active frame on by `n` bytes.
    pub fn advance(&mut self, n: usize)
        requires
            old(self).wf(),
            old(self)@.ip() + n <= old(self)@.code().len(),
        ensures
            final(self).wf(),
            final(self)@ == old(self)@.advance(n as int),
    {
        let frame = self.current_frame();
        let ip: usize = frame.ip;
        let len: usize = frame.closure.func.instructions.len();
        assert(ip + n <= len);
        self.set_ip(ip + n);
    }

    /// Pushes a value and moves the instruction pointer on by `n` bytes.
    pub fn push_and_advance(&mut self, v: AllObjects, n: usize) -> (r: Result<(), RuntimeError>)
        requires
            old(self).wf(),
            old(self)@.ip() + n <= old(self)@.code().len(),
        ensures
            final(self).wf(),
            follows(old(self)@, final(self)@, r, push_and_advance(old(self)@, v@, n as int)),
    {
        match self.push(v) {
            Err(e) => Err(e),
            Ok(()) => {
                self.advance(n);
                Ok(())
            },
        }
    }

    /// Executes a CONSTANT instruction.
    pub fn run_constant_instruction(&mut self) -> (r: Result<(), RuntimeError>)
        requires
            old(self).wf(),
            !old(self)@.halted(),
        ensures
            final(self).wf(),
            follows(old(self)@, final(self)@, r, constant_step(old(self)@)),
    {
        let index = match self.read_operand16() {
            None => {
                return Err(RuntimeError::TruncatedInstruction);
            },
            Some(i) => i,
        };
        if index >= self.constants.len() {
            return Err(RuntimeError::ConstantNotFound { index });
        }
        let v = self.constants[index].duplicate();
        self.push_and_advance(v, 3)
    }

    /// Executes an ADD, SUB, MUL or DIV instruction.
    pub fn run_arithmetic_operations(&mut self, op: Opcode) -> (r: Result<(), RuntimeError>)
        requires
            old(self).wf(),
            !old(self)@.halted(),
            op == OP_ADD || op == OP_SUB || op == OP_MUL || op == OP_DIV,
        ensures
            final(self).wf(),
            follows(old(self)@, final(self)@, r, arithmetic_step(old(self)@, op)),
    {
        let len: usize = self.stack.len();
        if len < 2 {
            return Err(RuntimeError::StackEmpty);
        }
        let value = match arithmetic(op, &self.stack[len - 2], &self.stack[len - 1]) {
            Err(e) => {
                return Err(e);
            },
            Ok(v) => v,
        };
        self.drop_top(2);
        self.push_and_advance(value, 1)
    }

    /// Executes an EQUAL, NOT_EQUAL or GREATER_THAN instruction.
    pub fn run_boolean_operations(&mut self, op: Opcode) -> (r: Result<(), RuntimeError>)
        requires
            old(self).wf(),
            !old(self)@.halted(),
            op == OP_EQUAL || op == OP_NOT_EQUAL || op == OP_GREATER_THAN,
        ensures
            final(self).wf(),
            follows(old(self)@, final(self)@, r, comparison_step(old(self)@, op)),
    {
        let len: usize = self.stack.len();
        if len < 2 {
            return Err(RuntimeError::StackEmpty);
        }
        let value = match comparison(op, &self.stack[len - 2], &self.stack[len - 1]) {
            Err(e) => {
                return Err(e);
            },
            Ok(v) => v,
        };
        self.drop_top(2);
        self.push_and_advance(value, 1)
    }

    /// Compares two integers.
    pub fn run_comparison_for_ints(op: Opcode, l: &AllObjects, r: &AllObjects) -> (res: Result<
        AllObjects,
        RuntimeError,
    >)
        requires
            op == OP_EQUAL || op == OP_NOT_EQUAL || op == OP_GREATER_THAN,
            l@ is Integer,
            r@ is Integer,
        ensures
            res is Ok,
            Ok::<Value, RuntimeError>(res->Ok_0@) == comparison_value(op, l@, r@),
    {
        match (l, r) {
            (AllObjects::Integer(left), AllObjects::Integer(right)) => {
                let result = if op == OP_EQUAL {
                    left.value == right.value
                } else if op == OP_NOT_EQUAL {
                    left.value != right.value
                } else {
                    left.value > right.value
                };
                Ok(Self::get_bool_constant(result))
            },
            _ => Ok(Self::get_bool_constant(false)),
        }
    }

    /// Compares two booleans.
    pub fn run_comparison_for_bools(op: Opcode, l: &AllObjects, r: &AllObjects) -> (res: Result<
        AllObjects,
        RuntimeError,
    >)
        requires
            op == OP_EQUAL || op == OP_NOT_EQUAL || op == OP_GREATER_THAN,
            l@ is Boolean,
            r@ is Boolean,
        ensures
            res is Ok,
            Ok::<Value, RuntimeError>(res->Ok_0@) == comparison_value(op, l@, r@),
    {
        match (l, r) {
            (AllObjects::Boolean(left), AllObjects::Boolean(right)) => {
                let result = if op == OP_EQUAL {
                    left.value == right.value
                } else if op == OP_NOT_EQUAL {
                    left.value != right.value
                } else {
                    left.value && !right.value
                };
                Ok(Self::get_bool_constant(result))
            },
            _ => Ok(Self::get_bool_constant(false)),
        }
    }

    /// The boolean value for a truth value.
    pub fn get_bool_constant(val: bool) -> (v: AllObjects)
        ensures
            v@ == Value::Boolean(val),
    {
        AllObjects::Boolean(Boolean { value: val })
    }

    /// Whether a value counts as true, as a boolean value.
    pub fn cast_obj_to_bool(obj: &AllObjects) -> (v: AllObjects)
        ensures
            v@ == Value::Boolean(truthy(obj@)),
    {
        match obj {
            AllObjects::Boolean(b) => Self::get_bool_constant(b.value),
            AllObjects::Null(_) => Self::get_bool_constant(false),
            _ => Self::get_bool_constant(true),
        }
    }

    /// Executes a MINUS instruction.
    pub fn run_prefix_minus(&mut self) -> (r: Result<(), RuntimeError>)
        requires
            old(self).wf(),
            !old(self)@.halted(),
        ensures
            final(self).wf(),
            follows(
                old(self)@,
                final(self)@,
                r,
                unary_step(old(self)@, minus_value(old(self)@.peek(0))),
            ),
    {
        let len: usize = self.stack.len();
        if len < 1 {
            return Err(RuntimeError::StackEmpty);
        }
        let value = match &self.stack[len - 1] {
            AllObjects::Integer(v) => AllObjects::Integer(
                Integer { value: 0i64.wrapping_sub(v.value) },
            ),
            v => {
                return Err(RuntimeError::NotAnInteger { found: v.object_type() });
            },
        };
        self.drop_top(1);
        self.push_and_advance(value, 1)
    }

    /// Executes a BANG instruction.
    pub fn run_prefix_bang(&mut self) -> (r: Result<(), RuntimeError>)
        requires
            old(self).wf(),
            !old(self)@.halted(),
        ensures
            final(self).wf(),
            follows(
                old(self)@,
                final(self)@,
                r,
                unary_step(old(self)@, Ok(Value::Boolean(!truthy(old(self)@.peek(0))))),
            ),
    {
        let len: usize = self.stack.len();
        if len < 1 {
            return Err(RuntimeError::StackEmpty);
        }
        let value = match Self::cast_obj_to_bool(&self.stack[len - 1]) {
            AllObjects::Boolean(b) => Self::get_bool_constant(!b.value),
            _ => Self::get_bool_constant(false),
        };
        self.drop_top(1);
        self.push_and_advance(value, 1)
    }

    /// Executes a POP instruction.
    pub fn run_pop_instruction(&mut self) -> (r: Result<(), RuntimeError>)
        requires
            old(self).wf(),
            !old(self)@.halted(),
        ensures
            final(self).wf(),
            follows(old(self)@, final(self)@, r, pop_step(old(self)@)),
    {
        let popped = match self.pop() {
            Err(e) => {
                return Err(e);
            },
            Ok(v) => v,
        };
        self.result = Some(popped);
        self.advance(1);
        Ok(())
    }

    /// Executes a JUMP instruction.
    pub fn run_jump_instruction(&mut self) -> (r: Result<(), RuntimeError>)
        requires
            old(self).wf(),
            !old(self)@.halted(),
        ensures
            final(self).wf(),
            follows(old(self)@, final(self)@, r, jump_step(old(self)@)),
    {
        match self.read_operand16() {
            None => Err(RuntimeError::TruncatedInstruction),
            Some(target) => {
                self.set_ip(target);
                Ok(())
            },
        }
    }

    /// Executes a JUMP_NOT_TRUTHY instruction.
    pub fn run_jump_not_truthy_instruction(&mut self) -> (r: Result<(), RuntimeError>)
        requires
            old(self).wf(),
            !old(self)@.halted(),
        ensures
            final(self).wf(),
            follows(old(self)@, final(self)@, r, jump_not_truthy_step(old(self)@)),
    {
        let len: usize = self.stack.len();
        if len < 1 {
            return Err(RuntimeError::StackEmpty);
        }
        let target = match self.read_operand16() {
            None => {
                return Err(RuntimeError::TruncatedInstruction);
            },
            Some(t) => t,
        };
        let condition = match Self::cast_obj_to_bool(&self.stack[len - 1]) {
            AllObjects::Boolean(b) => b.value,
            _ => true,
        };
        self.drop_top(1);
        if condition {
            self.advance(3);
        } else {
            self.set_ip(target);
        }
        Ok(())
    }

    /// Executes a SET_GLOBAL instruction.
    pub fn run_set_global_instruction(&mut self) -> (r: Result<(), RuntimeError>)
        requires
            old(self).wf(),
            !old(self)@.halted(),
        ensures
            final(self).wf(),
            follows(old(self)@, final(self)@, r, set_global_step(old(self)@)),
    {
        let index = match self.read_operand16() {
            None => {
                return Err(RuntimeError::TruncatedInstruction);
            },
            Some(i) => i,
        };
        let value = match self.pop() {
            Err(e) => {
                return Err(e);
            },
            Ok(v) => v,
        };
        let ghost before = values_of(self.globals@);
        let ghost base = self@;
        if index < self.globals.len() {
            self.globals[index] = value;
            assert(values_of(self.globals@) =~= globals_with(before, index as int, value@));
        } else {
            assert(values_of(self.globals@) =~= before + Seq::new(0, |i: int| Value::Null));
            while self.globals.len() < index
                invariant
                    before.len() <= self.globals@.len() <= index,
                    values_of(self.globals@) == before + Seq::new(
                        (self.globals@.len() - before.len()) as nat,
                        |i: int| Value::Null,
                    ),
                    self.wf(),
                    self@ == (Machine { globals: values_of(self.globals@), ..base }),
                decreases index - self.globals@.len(),
            {
                let ghost current = self.globals@;
                self.globals.push(AllObjects::Null(Null));
                assert(values_of(self.globals@) =~= before + Seq::new(
                    (self.globals@.len() - before.len()) as nat,
                    |i: int| Value::Null,
                )) by {
                    assert(values_of(self.globals@) =~= values_of(current).push(Value::Null));
                }
            }
            let ghost current = self.globals@;
            self.globals.push(value);
            assert(values_of(self.globals@) =~= globals_with(before, index as int, value@)) by {
                assert(values_of(self.globals@) =~= values_of(current).push(value@));
            }
        }
        self.advance(3);
        Ok(())
    }

    /// Executes a GET_GLOBAL instruction.
    pub fn run_get_global_instruction(&mut self) -> (r: Result<(), RuntimeError>)
        requires
            old(self).wf(),
            !old(self)@.halted(),
        ensures
            final(self).wf(),
            follows(old(self)@, final(self)@, r, get_global_step(old(self)@)),
    {
        let index = match self.read_operand16() {
            None => {
                return Err(RuntimeError::TruncatedInstruction);
            },
            Some(i) => i,
        };
        if index >= self.globals.len() {
            return Err(RuntimeError::GlobalNotFound { index });
        }
        let v = self.globals[index].duplicate();
        self.push_and_advance(v, 3)
    }

    /// Executes an ASSIGN_GLOBAL instruction.
    pub fn run_assign_global_instruction(&mut self) -> (r: Result<(), RuntimeError>)
        requires
            old(self).wf(),
            !old(self)@.halted(),
        ensures
            final(self).wf(),
            follows(old(self)@, final(self)@, r, assign_global_step(old(self)@)),
    {
        let index = match self.read_operand16() {
            None => {
                return Err(RuntimeError::TruncatedInstruction);
            },
            Some(i) => i,
        };
        if self.stack.len() < 1 {
            return Err(RuntimeError::StackEmpty);
        }
        if index >= self.globals.len() {
            return Err(RuntimeError::GlobalNotFound { index });
        }
        let value = match self.pop() {
            Err(e) => {
                return Err(e);
            },
            Ok(v) => v,
        };
        let ghost before = values_of(self.globals@);
        self.globals[index] = value;
        assert(values_of(self.globals@) =~= before.update(index as int, value@));
        self.push_and_advance(AllObjects::Null(Null), 3)
    }

    /// Executes a SET_LOCAL instruction.
    pub fn run_set_local_instruction(&mut self) -> (r: Result<(), RuntimeError>)
        requires
            old(self).wf(),
            !old(self)@.halted(),
        ensures
            final(self).wf(),
            follows(old(self)@, final(self)@, r, set_local_step(old(self)@)),
    {
        let index = match self.read_operand8(1) {
            None => {
                return Err(RuntimeError::TruncatedInstruction);
            },
            Some(i) => i,
        };
        let top: usize = self.frames_index - 1;
        if self.stack.len() < 1 {
            return Err(RuntimeError::StackEmpty);
        }
        if index >= self.frames[top].locals.len() {
            return Err(RuntimeError::LocalNotFound { index });
        }
        let value = match self.pop() {
            Err(e) => {
                return Err(e);
            },
            Ok(v) => v,
        };
        let ghost before = self@;
        let ghost frames_before = self.frames@;
        self.frames[top].locals[index] = value;
        assert(self@.frames =~= with_local(before, index as int, value@).frames) by {
            assert(self.frames@.len() == frames_before.len());
            assert(forall|j: int|
                0 <= j < frames_before.len() && j != top ==> self.frames@[j] == frames_before[j]);
            assert(self.frames@[top as int].locals@ == frames_before[top as int].locals@.update(
                index as int,
                value,
            ));
            assert(self.frames@[top as int].closure == frames_before[top as int].closure);
            assert(self.frames@[top as int].ip == frames_before[top as int].ip);
            assert(values_of(self.frames@[top as int].locals@) =~= values_of(
                frames_before[top as int].locals@,
            ).update(index as int, value@));
        }
        self.advance(2);
        Ok(())
    }

    /// Executes a GET_LOCAL instruction.
    pub fn run_get_local_instruction(&mut self) -> (r: Result<(), RuntimeError>)
        requires
            old(self).wf(),
            !old(self)@.halted(),
        ensures
            final(self).wf(),
            follows(old(self)@, final(self)@, r, get_local_step(old(self)@)),
    {
        let index = match self.read_operand8(1) {
            None => {
                return Err(RuntimeError::TruncatedInstruction);
            },
            Some(i) => i,
        };
        let frame = self.current_frame();
        if index >= frame.locals.len() {
            return Err(RuntimeError::LocalNotFound { index });
        }
        let v = frame.locals[index].duplicate();
        self.push_and_advance(v, 2)
    }

    /// Executes a GET_BUILTIN instruction.
    pub fn run_get_builtin(&mut self) -> (r: Result<(), RuntimeError>)
        requires
            old(self).wf(),
            !old(self)@.halted(),
        ensures
            final(self).wf(),
            follows(old(self)@, final(self)@, r, get_builtin_step(old(self)@)),
    {
        let index = match self.read_operand8(1) {
            None => {
                return Err(RuntimeError::TruncatedInstruction);
            },
            Some(i) => i,
        };
        match get_builtin_function(index) {
            None => Err(RuntimeError::BuiltinNotFound { index }),
            Some(func) => self.push_and_advance(func, 2),
        }
    }

    /// Executes a GET_FREE instruction.
    pub fn run_get_free_instruction(&mut self) -> (r: Result<(), RuntimeError>)
        requires
            old(self).wf(),
            !old(self)@.halted(),
        ensures
            final(self).wf(),
            follows(old(self)@, final(self)@, r, get_free_step(old(self)@)),
    {
        let index = match self.read_operand8(1) {
            None => {
                return Err(RuntimeError::TruncatedInstruction);
            },
            Some(i) => i,
        };
        let frame = self.current_frame();
        if index >= frame.closure.free.len() {
            return Err(RuntimeError::FreeNotFound { index });
        }
        let v = frame.closure.free[index].duplicate();
        self.push_and_advance(v, 2)
    }

    /// Executes a CURRENT_CLOSURE instruction.
    pub fn run_current_closure_instruction(&mut self) -> (r: Result<(), RuntimeError>)
        requires
            old(self).wf(),
            !old(self)@.halted(),
        ensures
            final(self).wf(),
            follows(old(self)@, final(self)@, r, current_closure_step(old(self)@)),
    {
        let frame = self.current_frame();
        let closure = Closure {
            func: frame.closure.func.duplicate(),
            free: duplicate_all(&frame.closure.free),
        };
        self.push_and_advance(AllObjects::Closure(closure), 1)
    }

    /// Executes an ARRAY instruction.
    pub fn run_array_literal_instruction(&mut self) -> (r: Result<(), RuntimeError>)
        requires
            old(self).wf(),
            !old(self)@.halted(),
        ensures
            final(self).wf(),
            follows(old(self)@, final(self)@, r, array_step(old(self)@)),
    {
        let length = match self.read_operand16() {
            None => {
                return Err(RuntimeError::TruncatedInstruction);
            },
            Some(n) => n,
        };
        if length > self.stack.len() {
            return Err(RuntimeError::StackEmpty);
        }
        if self.stack.len() - length >= STACK_SIZE {
            return Err(RuntimeError::StackOverflow);
        }
        let elements = match self.pop_many(length) {
            Err(e) => {
                return Err(e);
            },
            Ok(v) => v,
        };
        let array = ArrayObj::new(&mut self.heap, elements);
        self.push_and_advance(AllObjects::ArrayObj(array), 3)
    }

    /// Executes a HASH instruction.
    pub fn run_hash_literal_instruction(&mut self) -> (r: Result<(), RuntimeError>)
        requires
            old(self).wf(),
            !old(self)@.halted(),
        ensures
            final(self).wf(),
            follows(old(self)@, final(self)@, r, hash_step(old(self)@)),
    {
        let length = match self.read_operand16() {
            None => {
                return Err(RuntimeError::TruncatedInstruction);
            },
            Some(n) => n,
        };
        assert(length < 65536);
        let items = match self.peek_many(2 * length) {
            Err(e) => {
                return Err(e);
            },
            Ok(v) => v,
        };
        let entries = match build_entries(&self.heap, items) {
            Err(e) => {
                return Err(e);
            },
            Ok(v) => v,
        };
        if self.stack.len() - 2 * length >= STACK_SIZE {
            return Err(RuntimeError::StackOverflow);
        }
        self.drop_top(2 * length);
        let map = HashMapObj::new(&mut self.heap, entries);
        self.push_and_advance(AllObjects::HashMap(map), 3)
    }

    /// Executes an INDEX instruction.
    pub fn run_index_expression(&mut self) -> (r: Result<(), RuntimeError>)
        requires
            old(self).wf(),
            !old(self)@.halted(),
        ensures
            final(self).wf(),
            follows(old(self)@, final(self)@, r, index_step(old(self)@)),
    {
        let len: usize = self.stack.len();
        if len < 2 {
            return Err(RuntimeError::StackEmpty);
        }
        let value = match index_into(&self.heap, &self.stack[len - 2], &self.stack[len - 1]) {
            Err(e) => {
                return Err(e);
            },
            Ok(v) => v,
        };
        self.drop_top(2);
        self.push_and_advance(value, 1)
    }

    /// Executes a CLOSURE instruction.
    pub fn run_closure_instruction(&mut self) -> (r: Result<(), RuntimeError>)
        requires
            old(self).wf(),
            !old(self)@.halted(),
        ensures
            final(self).wf(),
            follows(old(self)@, final(self)@, r, closure_step(old(self)@)),
    {
        let index = match self.read_operand16() {
            None => {
                return Err(RuntimeError::TruncatedInstruction);
            },
            Some(i) => i,
        };
        let count = match self.read_operand8(3) {
            None => {
                return Err(RuntimeError::TruncatedInstruction);
            },
            Some(n) => n,
        };
        if index >= self.constants.len() {
            return Err(RuntimeError::ConstantNotFound { index });
        }
        let func = match &self.constants[index] {
            AllObjects::CompiledFunction(f) => f.duplicate(),
            v => {
                return Err(RuntimeError::NotAFunction { found: v.object_type() });
            },
        };
        if count > self.stack.len() {
            return Err(RuntimeError::StackEmpty);
        }
        if self.stack.len() - count >= STACK_SIZE {
            return Err(RuntimeError::StackOverflow);
        }
        let free = match self.pop_many(count) {
            Err(e) => {
                return Err(e);
            },
            Ok(v) => v,
        };
        self.push_and_advance(AllObjects::Closure(Closure { func, free }), 4)
    }

    /// Executes a CALL instruction.
    pub fn run_call_expression(&mut self) -> (r: Result<(), RuntimeError>)
        requires
            old(self).wf(),
            !old(self)@.halted(),
        ensures
            final(self).wf(),
            follows(old(self)@, final(self)@, r, call_step(old(self)@)),
    {
        let num_args = match self.read_operand8(1) {
            None => {
                return Err(RuntimeError::TruncatedInstruction);
            },
            Some(n) => n,
        };
        let len: usize = self.stack.len();
        if len < num_args + 1 {
            return Err(RuntimeError::StackEmpty);
        }
        match &self.stack[len - num_args - 1] {
            AllObjects::Closure(c) => {
                if num_args != c.func.num_args {
                    return Err(
                        RuntimeError::WrongArgumentCount { want: c.func.num_args, got: num_args },
                    );
                }
                if self.frames_index >= MAX_FRAMES {
                    return Err(RuntimeError::FrameOverflow);
                }
            },
            AllObjects::BuiltinFunction(builtin) => {
                if builtin.num_params != VARIADIC && num_args != builtin.num_params {
                    return Err(
                        RuntimeError::WrongArgumentCount {
                            want: builtin.num_params,
                            got: num_args,
                        },
                    );
                }
                let func = builtin.func;
                let arguments = match self.peek_many(num_args) {
                    Err(e) => {
                        return Err(e);
                    },
                    Ok(v) => v,
                };
                let (value, effect) = match call_builtin(func, &mut self.heap, arguments) {
                    Err(e) => {
                        return Err(e);
                    },
                    Ok(outcome) => outcome,
                };
                self.drop_top(num_args + 1);
                self.pending = effect;
                return self.push_and_advance(value, 2);
            },
            v => {
                return Err(RuntimeError::NotCallable { found: v.object_type() });
            },
        }
        let local_args = match self.pop_many(num_args) {
            Err(e) => {
                return Err(e);
            },
            Ok(v) => v,
        };
        let callee = match self.pop() {
            Err(e) => {
                return Err(e);
            },
            Ok(v) => v,
        };
        assert(self@ == old(self)@.drop(num_args + 1)) by {
            assert(self@.stack =~= old(self)@.drop(num_args + 1).stack);
        }
        if let AllObjects::Closure(c) = callee {
            self.advance(2);
            assert(self.frames@.len() == self@.frames.len());
            self.push_frame(Frame::new(c, local_args));
        }
        Ok(())
    }

    /// Executes a RETURN_VALUE instruction.
    pub fn run_return_value_instruction(&mut self) -> (r: Result<(), RuntimeError>)
        requires
            old(self).wf(),
            !old(self)@.halted(),
        ensures
            final(self).wf(),
            follows(old(self)@, final(self)@, r, return_value_step(old(self)@)),
    {
        if self.stack.len() < 1 {
            return Err(RuntimeError::StackEmpty);
        }
        if self.frames_index < 2 {
            return Err(RuntimeError::ReturnOutsideFunction);
        }
        self.pop_frame();
        Ok(())
    }

    /// Executes a RETURN instruction.
    pub fn run_return_instruction(&mut self) -> (r: Result<(), RuntimeError>)
        requires
            old(self).wf(),
            !old(self)@.halted(),
        ensures
            final(self).wf(),
            follows(old(self)@, final(self)@, r, return_step(old(self)@)),
    {
        if self.frames_index < 2 {
            return Err(RuntimeError::ReturnOutsideFunction);
        }
        if self.stack.len() >= STACK_SIZE {
            return Err(RuntimeError::StackOverflow);
        }
        self.pop_frame();
        self.push(AllObjects::Null(Null))
    }

    /// Executes the next instruction of the active frame.
    pub fn step(&mut self) -> (r: Result<(), RuntimeError>)
        requires
            old(self).wf(),
            !old(self)@.halted(),
        ensures
            final(self).wf(),
            follows(old(self)@, final(self)@, r, step(old(self)@)),
            old(self).heap.wf() ==> final(self).heap.wf(),
    {
        proof {
            if self.heap.wf() && step(self@) is Ok {
                lemma_step_keeps_heap_in_order(self@);
            }
        }
        let frame = self.current_frame();
        let op: Opcode = frame.closure.func.instructions[frame.ip];
        match op {
            OP_CONSTANT => self.run_constant_instruction(),
            OP_ADD | OP_SUB | OP_MUL | OP_DIV => self.run_arithmetic_operations(op),
            OP_EQUAL | OP_NOT_EQUAL | OP_GREATER_THAN => self.run_boolean_operations(op),
            OP_TRUE => self.push_and_advance(Self::get_bool_constant(true), 1),
            OP_FALSE => self.push_and_advance(Self::get_bool_constant(false), 1),
            OP_NULL => self.push_and_advance(AllObjects::Null(Null), 1),
            OP_MINUS => self.run_prefix_minus(),
            OP_BANG => self.run_prefix_bang(),
            OP_POP => self.run_pop_instruction(),
            OP_JUMP => self.run_jump_instruction(),
            OP_JUMP_NOT_TRUTHY => self.run_jump_not_truthy_instruction(),
            OP_SET_GLOBAL => self.run_set_global_instruction(),
            OP_GET_GLOBAL => self.run_get_global_instruction(),
            OP_ASSIGN_GLOBAL => self.run_assign_global_instruction(),
            OP_SET_LOCAL => self.run_set_local_instruction(),
            OP_GET_LOCAL => self.run_get_local_instruction(),
            OP_GET_BUILTIN => self.run_get_builtin(),
            OP_GET_FREE => self.run_get_free_instruction(),
            OP_CURRENT_CLOSURE => self.run_current_closure_instruction(),
            OP_ARRAY => self.run_array_literal_instruction(),
            OP_HASH => self.run_hash_literal_instruction(),
            OP_INDEX => self.run_index_expression(),
            OP_CLOSURE => self.run_closure_instruction(),
            OP_CALL => self.run_call_expression(),
            OP_RETURN_VALUE => self.run_return_value_instruction(),
            OP_RETURN => self.run_return_instruction(),
            _ => {
                self.advance(1);
                Ok(())
            },
        }
    }

    /// Runs the program: executes instructions until the active frame has
    /// none left, a builtin function asks something of the host, or an
    /// instruction fails.
    pub fn run(&mut self) -> (r: Result<(), RuntimeError>)
        requires
            old(self).wf(),
        ensures
            final(self).wf(),
            match run_from(old(self)@, MAX_STEPS as nat) {
                (m, None) => r is Ok && final(self)@ == m,
                (m, Some(e)) => r == Err::<(), RuntimeError>(e) && final(self)@ == m,
            },
            old(self).heap.wf() ==> final(self).heap.wf(),
    {
        let mut steps: u64 = 0;
        while self.pending.is_none() && !self.halted()
            invariant
                self.wf(),
                old(self).heap.wf() ==> self.heap.wf(),
                steps <= MAX_STEPS,
                run_from(self@, (MAX_STEPS - steps) as nat) == run_from(
                    old(self)@,
                    MAX_STEPS as nat,
                ),
            decreases MAX_STEPS - steps,
        {
            if steps >= MAX_STEPS {
                return Err(RuntimeError::StepLimit);
            }
            match self.step() {
                Err(e) => {
                    return Err(e);
                },
                Ok(()) => {},
            }
            steps += 1;
        }
        Ok(())
    }
}


/// The result of the machine is the value that the last POP took from the
/// stack: a POP that succeeds records the topmost value as the result, and
/// no other instruction changes the result.
pub proof fn lemma_result_is_last_popped(m: Machine)
    requires
        m.frames.len() >= 1,
        !m.halted(),
        step(m) is Ok,
    ensures
        step(m)->Ok_0.result == (if m.code()[m.ip()] == OP_POP {
            Some(m.peek(0))
        } else {
            m.result
        }),
{
}


/// The value that the last POP dispatched in a run takes from the stack, if
/// the run dispatches a POP.
pub open spec fn last_popped(m: Machine, fuel: nat) -> Option<Value>
    decreases fuel,
{
    if m.pending is Some || m.halted() || fuel == 0 {
        None
    } else {
        match step(m) {
            Err(_) => None,
            Ok(next) => match last_popped(next, (fuel - 1) as nat) {
                Some(v) => Some(v),
                None => if m.code()[m.ip()] == OP_POP {
                    Some(m.peek(0))
                } else {
                    None
                },
            },
        }
    }
}

/// An instruction leaves at least one frame.
pub proof fn lemma_step_keeps_a_frame(m: Machine)
    requires
        m.frames.len() >= 1,
        step(m) is Ok,
    ensures
        step(m)->Ok_0.frames.len() >= 1,
{
}

/// The result of a run is the value that the last POP dispatched in it took
/// from the stack: the value of the last expression statement that was
/// executed. A run that dispatches no POP leaves the result as it was.
pub proof fn lemma_result_of_run(m: Machine, fuel: nat)
    requires
        m.frames.len() >= 1,
    ensures
        run_from(m, fuel).0.result == (match last_popped(m, fuel) {
            Some(v) => Some(v),
            None => m.result,
        }),
    decreases fuel,
{
    if !(m.pending is Some || m.halted() || fuel == 0) {
        match step(m) {
            Err(_) => {},
            Ok(next) => {
                lemma_result_is_last_popped(m);
                lemma_step_keeps_a_frame(m);
                lemma_result_of_run(next, (fuel - 1) as nat);
            },
        }
    }
}

} // verus!
