//! The errors of the virtual machine.
use crate::object::objects::Builtin;
use crate::object::{kind_name, ObjectType};
use crate::text::{decimal, push_decimal};
use vstd::prelude::*;
use vstd::string::StringExecFns;

verus! {

/// Why the virtual machine, or a builtin function, gave up.
#[derive(Clone, Copy, Debug, PartialEq, Eq, Structural)]
pub enum RuntimeError {
    /// The operand stack holds its limit of values.
    StackOverflow,
    /// An instruction needs more values than the operand stack holds.
    StackEmpty,
    /// The frame stack holds its limit of call frames.
    FrameOverflow,
    /// The operands of an instruction run past the end of the stream.
    TruncatedInstruction,
    /// A return instruction in the main frame.
    ReturnOutsideFunction,
    /// No constant at the index.
    ConstantNotFound { index: usize },
    /// No global variable at the index.
    GlobalNotFound { index: usize },
    /// No local variable at the index.
    LocalNotFound { index: usize },
    /// No captured variable at the index.
    FreeNotFound { index: usize },
    /// No builtin function at the index.
    BuiltinNotFound { index: usize },
    /// Strings can be added, and nothing else.
    IncorrectStringOperation,
    /// Arithmetic on operands that are neither two strings nor two integers.
    UnsupportedArithmetic,
    /// An integer division by zero.
    DivisionByZero,
    /// A comparison of operands that are neither two integers nor two
    /// booleans.
    OperandTypesMismatch { left: ObjectType, right: ObjectType },
    /// The operand of a negation is no integer.
    NotAnInteger { found: ObjectType },
    /// An array was indexed with something that is no integer.
    IndexNotInteger,
    /// An array was indexed with a negative integer.
    IndexNegative,
    /// An array was indexed past its end.
    IndexOutOfBounds,
    /// The indexed value is neither an array nor a hash map.
    NotIndexable,
    /// The constant of a closure instruction is no compiled function.
    NotAFunction { found: ObjectType },
    /// The called value is neither a closure nor a builtin function.
    NotCallable { found: ObjectType },
    /// A call with another number of arguments than the function takes.
    WrongArgumentCount { want: usize, got: usize },
    /// A builtin function was handed a value that it does not work on.
    ArgumentNotSupported { builtin: Builtin, found: ObjectType },
    /// The sleep duration is negative.
    InvalidSleepDuration,
    /// An array or hash map value refers to no object of its kind.
    InvalidHandle,
    /// A value that contains itself was printed or compared: its arrays and
    /// hash maps were followed deeper than the heap has objects.
    NestingTooDeep,
    /// A length that is no 64 bit signed integer.
    LengthOutOfRange,
    /// The machine has executed its limit of instructions in one run.
    StepLimit,
}

/// The text of an error.
pub open spec fn error_text(e: RuntimeError) -> Seq<char> {
    match e {
        RuntimeError::StackOverflow => "stack overflow"@,
        RuntimeError::StackEmpty => "stack is empty"@,
        RuntimeError::FrameOverflow => "frame stack overflow"@,
        RuntimeError::TruncatedInstruction => "instruction is cut short"@,
        RuntimeError::ReturnOutsideFunction => "return outside of a function"@,
        RuntimeError::ConstantNotFound { index } => "constant at the index "@ + decimal(
            index as nat,
        ) + " not found"@,
        RuntimeError::GlobalNotFound { index } => "variable at index "@ + decimal(index as nat)
            + " not found"@,
        RuntimeError::LocalNotFound { index } => "local variable at index "@ + decimal(
            index as nat,
        ) + " not found"@,
        RuntimeError::FreeNotFound { index } => "free variable at index "@ + decimal(
            index as nat,
        ) + " not found"@,
        RuntimeError::BuiltinNotFound { index } => "builtin function with index "@ + decimal(
            index as nat,
        ) + " not found"@,
        RuntimeError::IncorrectStringOperation => "incorrect operation on strings"@,
        RuntimeError::UnsupportedArithmetic =>
            "arithmetic operations are only supported between strings or integers"@,
        RuntimeError::DivisionByZero => "division by zero"@,
        RuntimeError::OperandTypesMismatch { left, right } => "left "@ + kind_name(left)
            + " and right "@ + kind_name(right) + " operand types doesn't match"@,
        RuntimeError::NotAnInteger { found } => "expected an INTEGER, found "@ + kind_name(found),
        RuntimeError::IndexNotInteger => "index should be an integer"@,
        RuntimeError::IndexNegative => "index should be a positive integer"@,
        RuntimeError::IndexOutOfBounds => "index out of bounds"@,
        RuntimeError::NotIndexable => "indexing is only supported for arrays and hash-maps"@,
        RuntimeError::NotAFunction { found } => "not a function: "@ + kind_name(found),
        RuntimeError::NotCallable { found } => "expected a function, found "@ + kind_name(found),
        RuntimeError::WrongArgumentCount { want, got } => "wrong number of arguments: want="@
            + decimal(want as nat) + ", got="@ + decimal(got as nat),
        RuntimeError::ArgumentNotSupported { builtin, found } => "argument to `"@
            + builtin.spec_name() + "` not supported, got "@ + kind_name(found),
        RuntimeError::InvalidSleepDuration => "sleep only takes a positive integer value"@,
        RuntimeError::InvalidHandle => "value refers to no array or hash-map"@,
        RuntimeError::NestingTooDeep => "an array or hash-map contains itself"@,
        RuntimeError::LengthOutOfRange => "out of range integral type conversion attempted"@,
        RuntimeError::StepLimit => "instruction limit reached"@,
    }
}

impl RuntimeError {
    /// The text of the error, as it is shown to the user.
    pub fn message(&self) -> (s: String)
        ensures
            s@ == error_text(*self),
    {
        let mut out = String::new();
        match *self {
            RuntimeError::StackOverflow => out.append("stack overflow"),
            RuntimeError::StackEmpty => out.append("stack is empty"),
            RuntimeError::FrameOverflow => out.append("frame stack overflow"),
            RuntimeError::TruncatedInstruction => out.append("instruction is cut short"),
            RuntimeError::ReturnOutsideFunction => out.append("return outside of a function"),
            RuntimeError::ConstantNotFound { index } => {
                out.append("constant at the index ");
                push_decimal(&mut out, index as u64);
                out.append(" not found");
            },
            RuntimeError::GlobalNotFound { index } => {
                out.append("variable at index ");
                push_decimal(&mut out, index as u64);
                out.append(" not found");
            },
            RuntimeError::LocalNotFound { index } => {
                out.append("local variable at index ");
                push_decimal(&mut out, index as u64);
                out.append(" not found");
            },
            RuntimeError::FreeNotFound { index } => {
                out.append("free variable at index ");
                push_decimal(&mut out, index as u64);
                out.append(" not found");
            },
            RuntimeError::BuiltinNotFound { index } => {
                out.append("builtin function with index ");
                push_decimal(&mut out, index as u64);
                out.append(" not found");
            },
            RuntimeError::IncorrectStringOperation => out.append("incorrect operation on strings"),
            RuntimeError::UnsupportedArithmetic => out.append(
                "arithmetic operations are only supported between strings or integers",
            ),
            RuntimeError::DivisionByZero => out.append("division by zero"),
            RuntimeError::OperandTypesMismatch { left, right } => {
                out.append("left ");
                out.append(left.name());
                out.append(" and right ");
                out.append(right.name());
                out.append(" operand types doesn't match");
            },
            RuntimeError::NotAnInteger { found } => {
                out.append("expected an INTEGER, found ");
                out.append(found.name());
            },
            RuntimeError::IndexNotInteger => out.append("index should be an integer"),
            RuntimeError::IndexNegative => out.append("index should be a positive integer"),
            RuntimeError::IndexOutOfBounds => out.append("index out of bounds"),
            RuntimeError::NotIndexable => out.append(
                "indexing is only supported for arrays and hash-maps",
            ),
            RuntimeError::NotAFunction { found } => {
                out.append("not a function: ");
                out.append(found.name());
            },
            RuntimeError::NotCallable { found } => {
                out.append("expected a function, found ");
                out.append(found.name());
            },
            RuntimeError::WrongArgumentCount { want, got } => {
                out.append("wrong number of arguments: want=");
                push_decimal(&mut out, want as u64);
                out.append(", got=");
                push_decimal(&mut out, got as u64);
            },
            RuntimeError::ArgumentNotSupported { builtin, found } => {
                out.append("argument to `");
                out.append(builtin.name());
                out.append("` not supported, got ");
                out.append(found.name());
            },
            RuntimeError::InvalidSleepDuration => out.append(
                "sleep only takes a positive integer value",
            ),
            RuntimeError::InvalidHandle => out.append("value refers to no array or hash-map"),
            RuntimeError::NestingTooDeep => out.append("an array or hash-map contains itself"),
            RuntimeError::LengthOutOfRange => out.append(
                "out of range integral type conversion attempted",
            ),
            RuntimeError::StepLimit => out.append("instruction limit reached"),
        }
        assert(out@ =~= error_text(*self));
        out
    }
}

} // verus!
