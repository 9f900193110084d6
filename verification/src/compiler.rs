//! The compiler: a single pass over the syntax tree that emits bytecode.
pub mod compile;
pub mod ordering;
pub mod symbol_table;

use crate::code::{
    all_well_formed, assemble, disassembly, encoding, is_defined, lemma_assemble_push,
    lemma_assemble_split, lemma_disassembly_of_emitted, lemma_encoding_shape, listing, make,
    offset_of, operand_widths, operands_fit, Emitted, Instructions, Opcode, OP_CLOSURE,
    OP_CONSTANT,
};
use crate::compiler::symbol_table::{
    enclosed_table, new_table, table_depth, SymbolTable, TableView,
};
use crate::object::objects::duplicate_bytes;
use crate::object::{values_of, AllObjects, Value};
use crate::text::{decimal, push_decimal};
use vstd::prelude::*;
use vstd::string::StringExecFns;

verus! {

/// Why a program was not compiled.
#[derive(Debug)]
pub enum CompileError {
    /// An identifier that no scope binds.
    UndefinedVariable(String),
    /// An assignment to a name that no scope binds.
    AssignToUndefined(String),
    /// An infix operator that the language does not have.
    UnknownOperator(String),
    /// A prefix operator that the language does not have.
    UnknownPrefixOperator(String),
    /// An expression statement without an expression.
    MissingExpression,
    /// An infix expression without its left operand.
    MissingLeft,
    /// An infix expression without its right operand.
    MissingRight,
    /// A prefix expression without its operand.
    MissingOperand,
    /// A conditional without its condition.
    MissingCondition,
    /// A while statement: the compiler does not implement loops.
    UnsupportedWhile,
    /// An operand that does not fit the width that its instruction gives it.
    OperandOutOfRange { opcode: Opcode, operand: usize },
    /// A jump to patch that is not where the compiler left it.
    InvalidPatch { position: usize },
    /// A scope with more definitions than can be counted.
    TooManyDefinitions,
}

/// A compile error as a mathematical value.
pub enum CompileFailure {
    UndefinedVariable(Seq<char>),
    AssignToUndefined(Seq<char>),
    UnknownOperator(Seq<char>),
    UnknownPrefixOperator(Seq<char>),
    MissingExpression,
    MissingLeft,
    MissingRight,
    MissingOperand,
    MissingCondition,
    UnsupportedWhile,
    OperandOutOfRange { opcode: Opcode, operand: usize },
    InvalidPatch { position: usize },
    TooManyDefinitions,
}

impl View for CompileError {
    type V = CompileFailure;

    open spec fn view(&self) -> CompileFailure {
        match self {
            CompileError::UndefinedVariable(name) => CompileFailure::UndefinedVariable(name@),
            CompileError::AssignToUndefined(name) => CompileFailure::AssignToUndefined(name@),
            CompileError::UnknownOperator(op) => CompileFailure::UnknownOperator(op@),
            CompileError::UnknownPrefixOperator(op) => CompileFailure::UnknownPrefixOperator(op@),
            CompileError::MissingExpression => CompileFailure::MissingExpression,
            CompileError::MissingLeft => CompileFailure::MissingLeft,
            CompileError::MissingRight => CompileFailure::MissingRight,
            CompileError::MissingOperand => CompileFailure::MissingOperand,
            CompileError::MissingCondition => CompileFailure::MissingCondition,
            CompileError::UnsupportedWhile => CompileFailure::UnsupportedWhile,
            CompileError::OperandOutOfRange { opcode, operand } => {
                CompileFailure::OperandOutOfRange { opcode: *opcode, operand: *operand }
            },
            CompileError::InvalidPatch { position } => CompileFailure::InvalidPatch {
                position: *position,
            },
            CompileError::TooManyDefinitions => CompileFailure::TooManyDefinitions,
        }
    }
}

/// The text of a compile error.
pub open spec fn failure_text(e: CompileFailure) -> Seq<char> {
    match e {
        CompileFailure::UndefinedVariable(name) => "undefined variable "@ + name,
        CompileFailure::AssignToUndefined(name) => "variable with name "@ + name + ", not found"@,
        CompileFailure::UnknownOperator(op) => "unknown arithmetic operator: "@ + op,
        CompileFailure::UnknownPrefixOperator(op) => "unknown prefix expression: "@ + op,
        CompileFailure::MissingExpression => "expression statement should contain an expression"@,
        CompileFailure::MissingLeft => "infix expression should contain a left expression"@,
        CompileFailure::MissingRight => "infix expression should contain a right expression"@,
        CompileFailure::MissingOperand => "prefix expression should contain a right expression"@,
        CompileFailure::MissingCondition => "if expression should contain a condition"@,
        CompileFailure::UnsupportedWhile => "while statements are not implemented"@,
        CompileFailure::OperandOutOfRange { opcode, operand } => "operand "@ + decimal(
            operand as nat,
        ) + " is too large for opcode "@ + decimal(opcode as nat),
        CompileFailure::InvalidPatch { position } => "no jump to patch at position "@ + decimal(
            position as nat,
        ),
        CompileFailure::TooManyDefinitions => "too many definitions in one scope"@,
    }
}

impl CompileError {
    /// The text of the error, as it is shown to the user.
    pub fn message(&self) -> (s: String)
        ensures
            s@ == failure_text(self@),
    {
        let mut out = String::new();
        match self {
            CompileError::UndefinedVariable(name) => {
                out.append("undefined variable ");
                out.append(name.as_str());
            },
            CompileError::AssignToUndefined(name) => {
                out.append("variable with name ");
                out.append(name.as_str());
                out.append(", not found");
            },
            CompileError::UnknownOperator(op) => {
                out.append("unknown arithmetic operator: ");
                out.append(op.as_str());
            },
            CompileError::UnknownPrefixOperator(op) => {
                out.append("unknown prefix expression: ");
                out.append(op.as_str());
            },
            CompileError::MissingExpression => out.append(
                "expression statement should contain an expression",
            ),
            CompileError::MissingLeft => out.append(
                "infix expression should contain a left expression",
            ),
            CompileError::MissingRight => out.append(
                "infix expression should contain a right expression",
            ),
            CompileError::MissingOperand => out.append(
                "prefix expression should contain a right expression",
            ),
            CompileError::MissingCondition => out.append(
                "if expression should contain a condition",
            ),
            CompileError::UnsupportedWhile => out.append("while statements are not implemented"),
            CompileError::OperandOutOfRange { opcode, operand } => {
                out.append("operand ");
                push_decimal(&mut out, *operand as u64);
                out.append(" is too large for opcode ");
                push_decimal(&mut out, *opcode as u64);
            },
            CompileError::InvalidPatch { position } => {
                out.append("no jump to patch at position ");
                push_decimal(&mut out, *position as u64);
            },
            CompileError::TooManyDefinitions => out.append("too many definitions in one scope"),
        }
        assert(out@ =~= failure_text(self@));
        out
    }
}

/// An instruction that was emitted: its opcode and where it stands.
#[derive(Clone, Copy, Debug, PartialEq, Eq, Structural)]
pub struct EmittedInstruction {
    pub opcode: Opcode,
    pub position: usize,
}

impl EmittedInstruction {
    /// The record of an instruction with the given opcode at the given
    /// position.
    pub fn new(opcode: Opcode, position: usize) -> (e: Self)
        ensures
            e == (EmittedInstruction { opcode, position }),
    {
        Self { opcode, position }
    }
}

/// The instructions of the program or of one function literal while they are
/// being emitted, with the last two instructions that were emitted.
pub struct CompilationScope {
    pub instructions: Instructions,
    pub last_instruction: EmittedInstruction,
    pub previous_instruction: EmittedInstruction,
    /// The instructions that make up the stream, in order.
    pub emitted: Ghost<Seq<Emitted>>,
}

/// The listing of a scope that is in order shows one line for each
/// instruction that was emitted into it, in the order of emission.
pub proof fn lemma_listing_of_scope(s: CompilationScope)
    requires
        scope_tidy(s),
    ensures
        disassembly(s.instructions@, 0) == listing(s.emitted@, 0),
{
    lemma_disassembly_of_emitted(s.emitted@);
}

/// Whether `a` is the beginning of `b`.
pub open spec fn is_prefix(a: Seq<Emitted>, b: Seq<Emitted>) -> bool {
    a.len() <= b.len() && forall|k: int| 0 <= k < a.len() ==> #[trigger] b[k] == a[k]
}

/// Whether an instruction of `program` stands at the offset `position`.
pub open spec fn is_boundary(program: Seq<Emitted>, position: int) -> bool {
    exists|j: int| 0 <= j < program.len() && #[trigger] offset_of(program, j) == position
}

/// The offsets of the instructions of a well-formed program grow.
pub proof fn lemma_offsets_increasing(program: Seq<Emitted>, a: int, b: int)
    requires
        all_well_formed(program),
        0 <= a < b <= program.len(),
    ensures
        offset_of(program, a) < offset_of(program, b),
    decreases b - a,
{
    assert(program.take(b) =~= program.take(b - 1).push(program[b - 1]));
    lemma_assemble_push(program.take(b - 1), program[b - 1]);
    lemma_encoding_shape(program[b - 1]);
    if a < b - 1 {
        lemma_offsets_increasing(program, a, b - 1);
    }
}

/// The instructions that two programs share stand at the same offsets.
pub proof fn lemma_prefix_offset(a: Seq<Emitted>, b: Seq<Emitted>, j: int)
    requires
        is_prefix(a, b),
        0 <= j <= a.len(),
    ensures
        offset_of(b, j) == offset_of(a, j),
{
    assert(b.take(j) =~= a.take(j));
}

/// Emitting more leaves the bytes that are there as they are: the stream of
/// a program begins with the stream of each of its beginnings.
pub proof fn lemma_extension_keeps_bytes(before: Seq<Emitted>, after: Seq<Emitted>)
    requires
        is_prefix(before, after),
    ensures
        assemble(before).len() <= assemble(after).len(),
        assemble(after).subrange(0, assemble(before).len() as int) == assemble(before),
{
    let rest = after.skip(before.len() as int);
    assert(after =~= before + rest);
    crate::code::lemma_assemble_concat(before, rest);
    assert(assemble(after).subrange(0, assemble(before).len() as int) =~= assemble(before));
}

/// Replacing operands leaves every instruction at its offset.
pub proof fn lemma_same_opcodes_offset(a: Seq<Emitted>, b: Seq<Emitted>, j: int)
    requires
        a.len() == b.len(),
        all_well_formed(a),
        all_well_formed(b),
        forall|i: int| 0 <= i < a.len() ==> a[i].0 == b[i].0,
        0 <= j <= a.len(),
    ensures
        offset_of(b, j) == offset_of(a, j),
{
    crate::code::lemma_assemble_len_by_opcodes(a.take(j), b.take(j));
}

/// Whether a scope is in order: its stream is that of well-formed
/// instructions, and the records of the last two instructions, where they
/// point into the stream, say where the last two of them stand and what
/// their opcodes are.
pub open spec fn scope_tidy(s: CompilationScope) -> bool {
    let e = s.emitted@;
    let n = e.len() as int;
    let len = s.instructions@.len();
    &&& s.instructions@ == assemble(e)
    &&& all_well_formed(e)
    &&& (s.last_instruction.position < len ==> n >= 1 && s.last_instruction.position == offset_of(
        e,
        n - 1,
    ) && e[n - 1].0 == s.last_instruction.opcode)
    &&& (s.previous_instruction.position < s.last_instruction.position
        && s.last_instruction.position < len ==> n >= 2 && s.previous_instruction.position
        == offset_of(e, n - 2) && e[n - 2].0 == s.previous_instruction.opcode)
}

/// Whether an instruction that loads a constant, CONSTANT or CLOSURE, names
/// an index below the length `pool` of the constant pool.
pub open spec fn refers_into_pool(instruction: Emitted, pool: nat) -> bool {
    instruction.0 == OP_CONSTANT || instruction.0 == OP_CLOSURE ==> instruction.1.len() >= 1
        && instruction.1[0] < pool
}

/// Whether a scope is in order, and each of its instructions that loads a
/// constant names one that the pool holds.
pub open spec fn scope_in_order(s: CompilationScope, pool: nat) -> bool {
    &&& scope_tidy(s)
    &&& forall|k: int|
        0 <= k < s.emitted@.len() ==> refers_into_pool(#[trigger] s.emitted@[k], pool)
}

/// A compilation scope as a mathematical value.
pub struct ScopeModel {
    pub instructions: Seq<u8>,
    pub last: EmittedInstruction,
    pub previous: EmittedInstruction,
}

impl View for CompilationScope {
    type V = ScopeModel;

    open spec fn view(&self) -> ScopeModel {
        ScopeModel {
            instructions: self.instructions@,
            last: self.last_instruction,
            previous: self.previous_instruction,
        }
    }
}

/// A scope in which nothing was emitted.
pub open spec fn empty_scope() -> ScopeModel {
    ScopeModel {
        instructions: Seq::empty(),
        last: EmittedInstruction { opcode: 0, position: 0 },
        previous: EmittedInstruction { opcode: 0, position: 0 },
    }
}

impl CompilationScope {
    /// A scope in which nothing was emitted.
    pub fn empty() -> (s: Self)
        ensures
            s@ == empty_scope(),
            s.emitted@ == Seq::<Emitted>::empty(),
            scope_tidy(s),
    {
        CompilationScope {
            instructions: Vec::new(),
            last_instruction: EmittedInstruction::new(0, 0),
            previous_instruction: EmittedInstruction::new(0, 0),
            emitted: Ghost(Seq::empty()),
        }
    }
}

/// The views of a sequence of scopes.
pub open spec fn scope_views(scopes: Seq<CompilationScope>) -> Seq<ScopeModel> {
    Seq::new(scopes.len(), |i: int| scopes[i]@)
}

/// What the compiler hands to the virtual machine: the instructions of the
/// program and the constants that they refer to.
#[derive(Debug)]
pub struct ByteCode {
    pub instructions: Instructions,
    pub constants: Vec<AllObjects>,
}

/// The compiler.
pub struct Compiler {
    /// The constant pool.
    pub constants: Vec<AllObjects>,
    /// The symbol table of the scope that is being compiled, with those of
    /// the scopes around it.
    pub symbol_table: SymbolTable,
    /// The scope of the program, followed by those of the function literals
    /// that are being compiled, the innermost last.
    pub scopes: Vec<CompilationScope>,
    /// The index of the scope that is being compiled.
    pub scope_index: usize,
}

/// The state of the compiler as a mathematical value.
pub struct CompilerModel {
    pub constants: Seq<Value>,
    pub symbols: TableView,
    pub scopes: Seq<ScopeModel>,
}

impl CompilerModel {
    /// The scope that is being compiled.
    pub open spec fn scope(self) -> ScopeModel {
        self.scopes.last()
    }

    /// The state with the scope that is being compiled replaced.
    pub open spec fn with_scope(self, scope: ScopeModel) -> CompilerModel {
        CompilerModel { scopes: self.scopes.update(self.scopes.len() - 1, scope), ..self }
    }

    /// The state after an instruction is emitted: its bytes are appended to
    /// the scope, and it becomes the last instruction.
    pub open spec fn emit(self, op: Opcode, operands: Seq<usize>) -> CompilerModel {
        self.with_scope(
            ScopeModel {
                instructions: self.scope().instructions + encoding(op, operands),
                last: EmittedInstruction {
                    opcode: op,
                    position: self.scope().instructions.len() as usize,
                },
                previous: self.scope().last,
            },
        )
    }

    /// Whether the instruction that was emitted last has the opcode `op` and
    /// stands in the scope.
    pub open spec fn last_is(self, op: Opcode) -> bool {
        &&& self.scope().last.position < self.scope().instructions.len()
        &&& self.scope().last.opcode == op
    }

    /// The state after the instruction that was emitted last is removed.
    pub open spec fn remove_last(self) -> CompilerModel {
        self.with_scope(
            ScopeModel {
                instructions: self.scope().instructions.subrange(
                    0,
                    self.scope().last.position as int,
                ),
                last: self.scope().previous,
                previous: self.scope().previous,
            },
        )
    }

    /// The state after a constant is appended to the pool.
    pub open spec fn add_constant(self, v: Value) -> CompilerModel {
        CompilerModel { constants: self.constants.push(v), ..self }
    }

    /// The state after the bytes at `position` are overwritten by `bytes`.
    pub open spec fn overwrite(self, position: int, bytes: Seq<u8>) -> CompilerModel {
        self.with_scope(
            ScopeModel {
                instructions: Seq::new(
                    self.scope().instructions.len(),
                    |i: int|
                        if position <= i < position + bytes.len() {
                            bytes[i - position]
                        } else {
                            self.scope().instructions[i]
                        },
                ),
                ..self.scope()
            },
        )
    }

    /// The state after a new scope is entered.
    pub open spec fn enter(self) -> CompilerModel {
        CompilerModel {
            symbols: enclosed_table(self.symbols),
            scopes: self.scopes.push(empty_scope()),
            ..self
        }
    }

    /// The state after the innermost scope is left.
    pub open spec fn leave(self) -> CompilerModel {
        CompilerModel {
            symbols: *self.symbols.outer->Some_0,
            scopes: self.scopes.drop_last(),
            ..self
        }
    }
}

/// The state of a compiler that has compiled nothing.
pub open spec fn new_compiler(symbols: TableView, constants: Seq<Value>) -> CompilerModel {
    CompilerModel { constants, symbols, scopes: seq![empty_scope()] }
}

impl View for Compiler {
    type V = CompilerModel;

    open spec fn view(&self) -> CompilerModel {
        CompilerModel {
            constants: values_of(self.constants@),
            symbols: self.symbol_table@,
            scopes: scope_views(self.scopes@),
        }
    }
}

impl Compiler {
    /// There is a scope to compile into, and a symbol table for every scope.
    pub open spec fn wf(&self) -> bool {
        &&& self.scopes@.len() >= 1
        &&& self.scope_index == self.scopes@.len() - 1
        &&& self.symbol_table.wf()
        &&& table_depth(self.symbol_table@) >= self.scope_index
    }

    /// Whether every scope is in order, and every instruction that loads a
    /// constant names one that the pool holds.
    pub open spec fn tidy(&self) -> bool {
        forall|i: int|
            0 <= i < self.scopes@.len() ==> scope_in_order(
                #[trigger] self.scopes@[i],
                self.constants@.len(),
            )
    }

    /// The instructions that make up the stream of the scope that is being
    /// compiled.
    pub open spec fn emitted(&self) -> Seq<Emitted> {
        self.scopes@.last().emitted@
    }

    /// Whether this compiler has the scopes of `earlier`, each with the
    /// instructions that it had and possibly more behind them.
    pub open spec fn extends(&self, earlier: Compiler) -> bool {
        &&& self.scopes@.len() == earlier.scopes@.len()
        &&& forall|i: int|
            0 <= i < self.scopes@.len() ==> is_prefix(
                earlier.scopes@[i].emitted@,
                #[trigger] self.scopes@[i].emitted@,
            )
    }

    /// Whether the instructions of the other scopes are those of `earlier`.
    pub open spec fn same_outer_scopes(&self, earlier: Compiler) -> bool {
        &&& self.scopes@.len() == earlier.scopes@.len()
        &&& forall|i: int|
            0 <= i < self.scopes@.len() - 1 ==> #[trigger] self.scopes@[i] == earlier.scopes@[i]
    }

    /// Whether the compiler is well formed.
    pub fn is_well_formed(&self) -> (b: bool)
        ensures
            b == self.wf(),
    {
        if self.scopes.len() < 1 || self.scope_index != self.scopes.len() - 1 {
            return false;
        }
        if !self.symbol_table.is_well_formed() {
            return false;
        }
        self.symbol_table.encloses(self.scope_index)
    }

    /// Creates a new compiler with empty instructions and constant pool.
    pub fn new() -> (c: Self)
        ensures
            c.wf(),
            c.tidy(),
            c.emitted() == Seq::<Emitted>::empty(),
            c@ == new_compiler(new_table(), Seq::empty()),
    {
        let constants: Vec<AllObjects> = Vec::new();
        assert(values_of(constants@) =~= Seq::empty());
        Self::new_with_state(SymbolTable::new(), constants)
    }

    /// Creates a new compiler that goes on from the symbol table and the
    /// constants of an earlier compilation.
    pub fn new_with_state(symbol_table: SymbolTable, constants: Vec<AllObjects>) -> (c: Self)
        requires
            symbol_table.wf(),
        ensures
            c.wf(),
            c.tidy(),
            c.emitted() == Seq::<Emitted>::empty(),
            c@ == new_compiler(symbol_table@, values_of(constants@)),
    {
        let mut scopes: Vec<CompilationScope> = Vec::new();
        scopes.push(CompilationScope::empty());
        let c = Compiler { constants, symbol_table, scopes, scope_index: 0 };
        assert(c@.scopes =~= seq![empty_scope()]);
        c
    }

    /// Returns the bytecode: the instructions of the scope that is being
    /// compiled, and the constants.
    pub fn byte_code(self) -> (b: ByteCode)
        requires
            self.wf(),
        ensures
            b.instructions@ == self@.scope().instructions,
            values_of(b.constants@) == self@.constants,
            self.tidy() ==> all_well_formed(self.emitted()) && b.instructions@ == assemble(
                self.emitted(),
            ) && disassembly(b.instructions@, 0) == listing(self.emitted(), 0) && (forall|k: int|
                0 <= k < self.emitted().len() ==> refers_into_pool(
                    #[trigger] self.emitted()[k],
                    b.constants@.len(),
                )),
    {
        proof {
            if self.tidy() {
                assert(scope_in_order(
                    self.scopes@[self.scope_index as int],
                    self.constants@.len(),
                ));
                lemma_disassembly_of_emitted(self.emitted());
            }
        }
        ByteCode {
            instructions: duplicate_bytes(&self.scopes[self.scope_index].instructions),
            constants: self.constants,
        }
    }

    /// The instructions of the scope that is being compiled.
    pub fn current_instructions(&self) -> (ins: &Instructions)
        requires
            self.wf(),
        ensures
            ins@ == self@.scope().instructions,
    {
        &self.scopes[self.scope_index].instructions
    }

    /// Records the instruction that was emitted last.
    pub fn set_last_instruction(&mut self, opcode: Opcode, position: usize)
        requires
            old(self).wf(),
        ensures
            final(self).wf(),
            final(self)@ == old(self)@.with_scope(
                ScopeModel {
                    last: EmittedInstruction { opcode, position },
                    previous: old(self)@.scope().last,
                    ..old(self)@.scope()
                },
            ),
            final(self).same_outer_scopes(*old(self)),
            final(self).emitted() == old(self).emitted(),
    {
        let index: usize = self.scope_index;
        let previous = self.scopes[index].last_instruction;
        let last = EmittedInstruction::new(opcode, position);
        self.scopes[index].previous_instruction = previous;
        self.scopes[index].last_instruction = last;
        assert(final(self)@.scopes =~= old(self)@.with_scope(
            ScopeModel {
                last: EmittedInstruction { opcode, position },
                previous: old(self)@.scope().last,
                ..old(self)@.scope()
            },
        ).scopes);
    }

    /// Emits an instruction into the scope that is being compiled and
    /// returns the position at which it stands.
    pub fn emit(&mut self, op: Opcode, operands: &[usize]) -> (position: usize)
        requires
            old(self).wf(),
            is_defined(op) ==> operands_fit(operand_widths(op), operands@),
        ensures
            final(self).wf(),
            final(self)@ == old(self)@.emit(op, operands@),
            position == old(self)@.scope().instructions.len(),
            final(self).same_outer_scopes(*old(self)),
            final(self).emitted() == (if is_defined(op) {
                old(self).emitted().push((op, operands@))
            } else {
                old(self).emitted()
            }),
            old(self).tidy() && (is_defined(op) ==> operands@.len() == operand_widths(op).len()
                && refers_into_pool((op, operands@), old(self).constants@.len()))
                ==> final(self).tidy(),
    {
        let instructions = make(op, operands);
        let index: usize = self.scope_index;
        let position: usize = self.scopes[index].instructions.len();
        let mut i: usize = 0;
        while i < instructions.len()
            invariant
                index == self.scope_index,
                self.wf(),
                i <= instructions@.len(),
                self.symbol_table == old(self).symbol_table,
                self.constants == old(self).constants,
                self.scopes@.len() == old(self).scopes@.len(),
                forall|j: int|
                    0 <= j < self.scopes@.len() && j != index ==> self.scopes@[j] == old(
                        self,
                    ).scopes@[j],
                self.scopes@[index as int].last_instruction == old(
                    self,
                ).scopes@[index as int].last_instruction,
                self.scopes@[index as int].previous_instruction == old(
                    self,
                ).scopes@[index as int].previous_instruction,
                self.scopes@[index as int].emitted == old(self).scopes@[index as int].emitted,
                self.scopes@[index as int].instructions@ == old(
                    self,
                ).scopes@[index as int].instructions@ + instructions@.subrange(0, i as int),
            decreases instructions@.len() - i,
        {
            let byte: u8 = instructions[i];
            self.scopes[index].instructions.push(byte);
            i += 1;
            assert(self.scopes@[index as int].instructions@ =~= old(
                self,
            ).scopes@[index as int].instructions@ + instructions@.subrange(0, i as int));
        }
        assert(instructions@.subrange(0, instructions@.len() as int) =~= instructions@);
        let ghost appended = self@;
        assert(appended.scopes =~= old(self)@.with_scope(
            ScopeModel {
                instructions: old(self)@.scope().instructions + encoding(op, operands@),
                ..old(self)@.scope()
            },
        ).scopes);
        self.set_last_instruction(op, position);
        assert(self@.scopes =~= old(self)@.emit(op, operands@).scopes);
        let ghost before = old(self).scopes@[index as int];
        let ghost recorded = self.scopes@[index as int];
        let ghost outcome = self@;
        let ghost program = if is_defined(op) {
            before.emitted@.push((op, operands@))
        } else {
            before.emitted@
        };
        self.scopes[index].emitted = Ghost(program);
        assert(self.scopes@[index as int]@ == recorded@);
        assert(final(self)@.scopes =~= outcome.scopes);
        proof {
            if old(self).tidy() && (is_defined(op) ==> operands@.len() == operand_widths(op).len()
                && refers_into_pool((op, operands@), old(self).constants@.len())) {
                assert(scope_tidy(before));
                let after = self.scopes@[index as int];
                assert(outcome.scopes[index as int] == recorded@);
                assert(old(self)@.scope() == before@);
                assert(outcome.scopes[index as int] == (ScopeModel {
                    instructions: before@.instructions + encoding(op, operands@),
                    last: EmittedInstruction { opcode: op, position },
                    previous: before@.last,
                }));
                assert(after@ == recorded@);
                assert(after.instructions@ == before.instructions@ + encoding(op, operands@));
                assert(after.last_instruction == (EmittedInstruction { opcode: op, position }));
                assert(after.previous_instruction == before.last_instruction);
                if is_defined(op) {
                    lemma_assemble_push(before.emitted@, (op, operands@));
                    lemma_encoding_shape((op, operands@));
                    assert(program.take(program.len() - 1) =~= before.emitted@);
                    if before.emitted@.len() >= 1 {
                        assert(program.take(program.len() - 2) =~= before.emitted@.take(
                            before.emitted@.len() - 1,
                        ));
                    }
                }
                assert(scope_tidy(after));
                assert(scope_in_order(before, old(self).constants@.len()));
                assert(self.constants@.len() == self@.constants.len());
                assert(old(self).constants@.len() == old(self)@.constants.len());
                assert forall|k: int| 0 <= k < after.emitted@.len() implies refers_into_pool(
                    #[trigger] after.emitted@[k],
                    self.constants@.len(),
                ) by {
                    if k < before.emitted@.len() {
                        assert(after.emitted@[k] == before.emitted@[k]);
                    }
                }
                assert forall|i: int| 0 <= i < self.scopes@.len() implies scope_in_order(
                    #[trigger] self.scopes@[i],
                    self.constants@.len(),
                ) by {
                    if i != index {
                        assert(self.scopes@[i] == old(self).scopes@[i]);
                    }
                }
            }
        }
        position
    }

    /// Adds a constant to the pool and returns its index.
    pub fn add_constant(&mut self, obj: AllObjects) -> (index: usize)
        requires
            old(self).wf(),
        ensures
            final(self).wf(),
            final(self)@ == old(self)@.add_constant(obj@),
            index == old(self)@.constants.len(),
            final(self).scopes == old(self).scopes,
            final(self).constants@.len() == old(self).constants@.len() + 1,
            old(self).tidy() ==> final(self).tidy(),
    {
        self.constants.push(obj);
        proof {
            if old(self).tidy() {
                assert forall|i: int| 0 <= i < self.scopes@.len() implies scope_in_order(
                    #[trigger] self.scopes@[i],
                    self.constants@.len(),
                ) by {
                    assert(scope_in_order(old(self).scopes@[i], old(self).constants@.len()));
                }
            }
        }
        assert(final(self)@.constants =~= old(self)@.constants.push(obj@));
        self.constants.len() - 1
    }

    /// Whether the instruction that was emitted last has the opcode `op`.
    pub fn last_instruction_is(&self, op: Opcode) -> (b: bool)
        requires
            self.wf(),
        ensures
            b == self@.last_is(op),
    {
        let scope = &self.scopes[self.scope_index];
        scope.last_instruction.position < scope.instructions.len()
            && scope.last_instruction.opcode == op
    }

    /// Removes the instruction that was emitted last.
    pub fn remove_last_pop(&mut self)
        requires
            old(self).wf(),
            old(self)@.scope().last.position <= old(self)@.scope().instructions.len(),
        ensures
            final(self).wf(),
            final(self)@ == old(self)@.remove_last(),
            final(self).same_outer_scopes(*old(self)),
            old(self).tidy() && old(self)@.scope().last.position < old(
                self,
            )@.scope().instructions.len() ==> final(self).tidy() && final(self).emitted() == old(
                self,
            ).emitted().drop_last(),
    {
        let index: usize = self.scope_index;
        let last = self.scopes[index].last_instruction;
        let previous = self.scopes[index].previous_instruction;
        let ghost before = self.scopes@[index as int];
        self.scopes[index].instructions.truncate(last.position);
        self.scopes[index].last_instruction = previous;
        self.scopes[index].emitted = Ghost(before.emitted@.drop_last());
        assert(final(self)@.scopes =~= old(self)@.remove_last().scopes);
        proof {
            if old(self).tidy() && last.position < before.instructions@.len() {
                assert(scope_tidy(before));
                let e = before.emitted@;
                let n = e.len() as int;
                lemma_assemble_split(e, n - 1);
                assert(e.skip(n) =~= Seq::<Emitted>::empty());
                assert(e.take(n - 1) =~= e.drop_last());
                assert(assemble(e.skip(n)) =~= Seq::<u8>::empty());
                let after = self.scopes@[index as int];
                assert(after.instructions@ =~= assemble(e.drop_last()));
                if n >= 2 {
                    assert(e.drop_last().take(n - 2) =~= e.take(n - 2));
                }
                assert(scope_tidy(after));
                assert(scope_in_order(before, old(self).constants@.len()));
                assert(self.constants@.len() == self@.constants.len());
                assert(old(self).constants@.len() == old(self)@.constants.len());
                assert forall|k: int| 0 <= k < after.emitted@.len() implies refers_into_pool(
                    #[trigger] after.emitted@[k],
                    self.constants@.len(),
                ) by {
                    if k < before.emitted@.len() {
                        assert(after.emitted@[k] == before.emitted@[k]);
                    }
                }
                assert forall|i: int| 0 <= i < self.scopes@.len() implies scope_in_order(
                    #[trigger] self.scopes@[i],
                    self.constants@.len(),
                ) by {
                    if i != index {
                        assert(self.scopes@[i] == old(self).scopes@[i]);
                    }
                }
            }
        }
    }

    /// Overwrites the instructions from `position` on with `ins`.
    pub fn replace_instruction(&mut self, position: usize, ins: Instructions)
        requires
            old(self).wf(),
            position + ins@.len() <= old(self)@.scope().instructions.len(),
        ensures
            final(self).wf(),
            final(self)@ == old(self)@.overwrite(position as int, ins@),
            final(self).same_outer_scopes(*old(self)),
            final(self).emitted() == old(self).emitted(),
    {
        let index: usize = self.scope_index;
        let len: usize = self.scopes[index].instructions.len();
        let mut i: usize = 0;
        while i < ins.len()
            invariant
                index == self.scope_index,
                self.wf(),
                i <= ins@.len(),
                position + ins@.len() <= len,
                len == old(self)@.scope().instructions.len(),
                self.symbol_table == old(self).symbol_table,
                self.constants == old(self).constants,
                self.scopes@.len() == old(self).scopes@.len(),
                forall|j: int|
                    0 <= j < self.scopes@.len() && j != index ==> self.scopes@[j] == old(
                        self,
                    ).scopes@[j],
                self.scopes@[index as int].last_instruction == old(
                    self,
                ).scopes@[index as int].last_instruction,
                self.scopes@[index as int].previous_instruction == old(
                    self,
                ).scopes@[index as int].previous_instruction,
                self.scopes@[index as int].emitted == old(self).scopes@[index as int].emitted,
                self.scopes@[index as int].instructions@ == old(self)@.overwrite(
                    position as int,
                    ins@.subrange(0, i as int),
                ).scope().instructions,
            decreases ins@.len() - i,
        {
            let byte: u8 = ins[i];
            self.scopes[index].instructions[position + i] = byte;
            i += 1;
            assert(self.scopes@[index as int].instructions@ =~= old(self)@.overwrite(
                position as int,
                ins@.subrange(0, i as int),
            ).scope().instructions);
        }
        assert(ins@.subrange(0, ins@.len() as int) =~= ins@);
        assert(final(self)@.scopes =~= old(self)@.overwrite(position as int, ins@).scopes);
    }

    /// Creates a new scope and makes it the one that is being compiled.
    pub fn enter_scope(&mut self)
        requires
            old(self).wf(),
        ensures
            final(self).wf(),
            final(self)@ == old(self)@.enter(),
            final(self).scopes@.len() == old(self).scopes@.len() + 1,
            final(self).scopes@.drop_last() == old(self).scopes@,
            final(self).emitted() == Seq::<Emitted>::empty(),
            old(self).tidy() ==> final(self).tidy(),
    {
        let mut outer = SymbolTable::new();
        std::mem::swap(&mut outer, &mut self.symbol_table);
        self.symbol_table = SymbolTable::new_enclosed(outer);
        self.scopes.push(CompilationScope::empty());
        self.scope_index = self.scopes.len() - 1;
        assert(final(self)@.scopes =~= old(self)@.enter().scopes);
        assert(final(self).scopes@.drop_last() =~= old(self).scopes@);
        proof {
            if old(self).tidy() {
                assert forall|i: int| 0 <= i < self.scopes@.len() implies scope_in_order(
                    #[trigger] self.scopes@[i],
                    self.constants@.len(),
                ) by {
                    if i < old(self).scopes@.len() {
                        assert(self.scopes@[i] == old(self).scopes@[i]);
                    }
                }
            }
        }
    }

    /// Leaves the scope that is being compiled and returns its
    /// instructions. The scope around it is the one that is being compiled
    /// from then on.
    pub fn leave_scope(&mut self) -> (ins: Instructions)
        requires
            old(self).wf(),
            old(self)@.scopes.len() >= 2,
        ensures
            final(self).wf(),
            final(self)@ == old(self)@.leave(),
            ins@ == old(self)@.scope().instructions,
            final(self).scopes@ == old(self).scopes@.drop_last(),
            old(self).tidy() ==> final(self).tidy(),
    {
        let scope = self.scopes.pop().unwrap();
        let mut inner = SymbolTable::new();
        std::mem::swap(&mut inner, &mut self.symbol_table);
        match inner.outer {
            Some(outer) => {
                self.symbol_table = *outer;
            },
            None => {},
        }
        self.scope_index -= 1;
        assert(final(self)@.scopes =~= old(self)@.leave().scopes);
        assert(final(self).scopes@ =~= old(self).scopes@.drop_last());
        proof {
            if old(self).tidy() {
                assert forall|i: int| 0 <= i < self.scopes@.len() implies scope_in_order(
                    #[trigger] self.scopes@[i],
                    self.constants@.len(),
                ) by {
                    assert(self.scopes@[i] == old(self).scopes@[i]);
                }
            }
        }
        scope.instructions
    }
}

} // verus!
