//! Code generation for each kind of node.
use crate::ast::{
    AllExpressions, AllNodes, AllStatements, ArrayLiteral, AssignmentExpression, BlockStatement,
    BooleanLiteral, CallExpression, ExpressionStatement, FunctionLiteral, HashLiteral, Identifier,
    IfExpression, IndexExpression, InfixExpression, IntegerLiteral, LetStatement,
    PrefixExpression, StringLiteral,
};
use crate::code::{
    encoding, is_defined, make, operand_fits, operand_widths, Opcode, OP_ADD,
    OP_ARRAY, OP_ASSIGN_GLOBAL, OP_BANG, OP_CALL, OP_CLOSURE, OP_CONSTANT, OP_CURRENT_CLOSURE,
    OP_DIV, OP_EQUAL, OP_FALSE, OP_GET_BUILTIN, OP_GET_FREE, OP_GET_GLOBAL, OP_GET_LOCAL,
    OP_GREATER_THAN, OP_HASH, OP_INDEX, OP_JUMP, OP_JUMP_NOT_TRUTHY, OP_MINUS, OP_MUL,
    OP_NOT_EQUAL, OP_NULL, OP_POP, OP_RETURN, OP_RETURN_VALUE, OP_SET_GLOBAL, OP_SET_LOCAL,
    OP_SUB, OP_TRUE,
};
use crate::compiler::ordering::{
    as_indices, distinct_key_texts, emission_order, is_permutation, key_bytes, key_order,
    lemma_ordered_pairs_of_rearranged, lemma_sorted_indices, occurs, ordered_pairs,
};
use crate::compiler::symbol_table::{
    bind_symbol, define_symbol, resolve_symbol, symbol_views, Symbol, SymbolScope, SymbolView,
};
use crate::code::{
    assemble, lemma_assemble_split, lemma_assemble_update, lemma_encoding_shape, offset_of,
    well_formed, Emitted,
};
use crate::compiler::{
    is_boundary, is_prefix, lemma_offsets_increasing, lemma_prefix_offset,
    lemma_same_opcodes_offset, refers_into_pool, scope_in_order, scope_tidy, CompileError,
    CompileFailure, Compiler, CompilerModel, EmittedInstruction, ScopeModel,
};
use crate::object::objects::{CompiledFunctionObj, FunctionModel, Integer, StringObj};
use crate::object::{AllObjects, Value};
use vstd::prelude::*;
use vstd::string::StringExecFns;

verus! {

/// The state in which a compilation ends, and the error that ended it, if
/// one did.
pub type Outcome = (CompilerModel, Option<CompileFailure>);

/// The state of a compiler and the result of a compilation as an outcome.
pub open spec fn outcome(c: CompilerModel, r: Result<(), CompileError>) -> Outcome {
    (
        c,
        match r {
            Ok(_) => None,
            Err(e) => Some(e@),
        },
    )
}

/// Emitting an instruction with one operand: fails, and emits nothing, where
/// the operand does not fit its width.
pub open spec fn emit_checked(c: CompilerModel, op: Opcode, operand: usize) -> Outcome {
    if operand_fits(operand_widths(op)[0], operand) {
        (c.emit(op, seq![operand]), None)
    } else {
        (c, Some(CompileFailure::OperandOutOfRange { opcode: op, operand }))
    }
}

/// Emitting a CLOSURE instruction for the constant at `index` that captures
/// `count` values.
pub open spec fn emit_closure(c: CompilerModel, index: usize, count: usize) -> Outcome {
    if index >= 65536 {
        (c, Some(CompileFailure::OperandOutOfRange { opcode: OP_CLOSURE, operand: index }))
    } else if count >= 256 {
        (c, Some(CompileFailure::OperandOutOfRange { opcode: OP_CLOSURE, operand: count }))
    } else {
        (c.emit(OP_CLOSURE, seq![index, count]), None)
    }
}

/// Emitting the instruction that loads a symbol, by its scope.
pub open spec fn load_symbol(c: CompilerModel, symbol: SymbolView) -> Outcome {
    match symbol.scope {
        SymbolScope::Global => emit_checked(c, OP_GET_GLOBAL, symbol.index),
        SymbolScope::Local => emit_checked(c, OP_GET_LOCAL, symbol.index),
        SymbolScope::Builtin => emit_checked(c, OP_GET_BUILTIN, symbol.index),
        SymbolScope::Free => emit_checked(c, OP_GET_FREE, symbol.index),
        SymbolScope::Function => (c.emit(OP_CURRENT_CLOSURE, Seq::empty()), None),
    }
}

/// Emitting the loads of the first `k` symbols, in order.
pub open spec fn load_symbols(c: CompilerModel, symbols: Seq<SymbolView>, k: nat) -> Outcome
    decreases k,
{
    if k == 0 {
        (c, None)
    } else {
        let (before, failure) = load_symbols(c, symbols, (k - 1) as nat);
        if failure is Some {
            (before, failure)
        } else {
            load_symbol(before, symbols[k - 1])
        }
    }
}

/// Writing `operand` into the instruction at `position`: fails, and changes
/// nothing, where no instruction with one operand stands there or the
/// operand does not fit.
pub open spec fn patched(c: CompilerModel, position: usize, operand: usize) -> Outcome {
    let ins = c.scope().instructions;
    if position >= ins.len() {
        (c, Some(CompileFailure::InvalidPatch { position }))
    } else {
        let op = ins[position as int];
        if !is_defined(op) || operand_widths(op).len() != 1 || position + 1 + operand_widths(op)[0]
            > ins.len() {
            (c, Some(CompileFailure::InvalidPatch { position }))
        } else if !operand_fits(operand_widths(op)[0], operand) {
            (c, Some(CompileFailure::OperandOutOfRange { opcode: op, operand }))
        } else {
            (c.overwrite(position as int, encoding(op, seq![operand])), None)
        }
    }
}

/// Compiling an identifier: the load of the symbol that it resolves to.
pub open spec fn compile_name(c: CompilerModel, name: Seq<char>) -> Outcome {
    let (table, found) = resolve_symbol(c.symbols, name);
    let resolved = CompilerModel { symbols: table, ..c };
    match found {
        None => (resolved, Some(CompileFailure::UndefinedVariable(name))),
        Some(symbol) => load_symbol(resolved, symbol),
    }
}

/// The opcode of an infix operator.
pub open spec fn infix_opcode(operator: Seq<char>) -> Option<Opcode> {
    if operator == "+"@ {
        Some(OP_ADD)
    } else if operator == "-"@ {
        Some(OP_SUB)
    } else if operator == "*"@ {
        Some(OP_MUL)
    } else if operator == "/"@ {
        Some(OP_DIV)
    } else if operator == ">"@ || operator == "<"@ {
        Some(OP_GREATER_THAN)
    } else if operator == "=="@ {
        Some(OP_EQUAL)
    } else if operator == "!="@ {
        Some(OP_NOT_EQUAL)
    } else {
        None
    }
}

/// Removing a POP that was emitted last, so that the value of a block stays
/// on the stack.
pub open spec fn without_last_pop(c: CompilerModel) -> CompilerModel {
    if c.last_is(OP_POP) {
        c.remove_last()
    } else {
        c
    }
}

/// The end of a function: a POP that was emitted last becomes a
/// RETURN_VALUE, and a function that does not end in RETURN_VALUE gets a
/// RETURN.
pub open spec fn with_return(c: CompilerModel) -> CompilerModel {
    let replaced = if c.last_is(OP_POP) {
        let overwritten = c.overwrite(
            c.scope().last.position as int,
            encoding(OP_RETURN_VALUE, Seq::empty()),
        );
        overwritten.with_scope(
            ScopeModel {
                last: EmittedInstruction {
                    opcode: OP_RETURN_VALUE,
                    position: c.scope().last.position,
                },
                ..overwritten.scope()
            },
        )
    } else {
        c
    };
    if replaced.last_is(OP_RETURN_VALUE) {
        replaced
    } else {
        replaced.emit(OP_RETURN, Seq::empty())
    }
}

/// Defining the first `k` parameters of a function, in order.
pub open spec fn define_parameters(c: CompilerModel, parameters: Seq<Identifier>, k: nat) -> CompilerModel
    decreases k,
{
    if k == 0 {
        c
    } else {
        let before = define_parameters(c, parameters, (k - 1) as nat);
        CompilerModel { symbols: define_symbol(before.symbols, parameters[k - 1].value@).0, ..before }
    }
}

/// Compiling an expression.
pub open spec fn compile_expression(c: CompilerModel, e: AllExpressions) -> Outcome
    decreases e, 0nat,
{
    match e {
        AllExpressions::IntegerLiteral(v) => emit_checked(
            c.add_constant(Value::Integer(v.value)),
            OP_CONSTANT,
            c.constants.len() as usize,
        ),
        AllExpressions::StringLiteral(v) => emit_checked(
            c.add_constant(Value::Str(v.value@)),
            OP_CONSTANT,
            c.constants.len() as usize,
        ),
        AllExpressions::Boolean(v) => (
            c.emit(
                if v.value {
                    OP_TRUE
                } else {
                    OP_FALSE
                },
                Seq::empty(),
            ),
            None,
        ),
        AllExpressions::Identifier(v) => compile_name(c, v.value@),
        AllExpressions::PrefixExpression(v) => compile_prefix(c, v),
        AllExpressions::InfixExpression(v) => compile_infix(c, v),
        AllExpressions::IfExpression(v) => compile_if(c, v),
        AllExpressions::ArrayLiteral(v) => {
            let (compiled, failure) = compile_expressions(c, v.elements@, v.elements@.len());
            if failure is Some {
                (compiled, failure)
            } else {
                emit_checked(compiled, OP_ARRAY, v.elements@.len() as usize)
            }
        },
        AllExpressions::HashLiteral(v) => {
            let order = emission_order(v.pairs@);
            let (compiled, failure) = compile_pairs(c, v.pairs@, order, order.len());
            if failure is Some {
                (compiled, failure)
            } else {
                emit_checked(compiled, OP_HASH, v.pairs@.len() as usize)
            }
        },
        AllExpressions::IndexExpression(v) => {
            let (left, failure) = compile_expression(c, *v.left);
            if failure is Some {
                (left, failure)
            } else {
                let (index, failure) = compile_expression(left, *v.index);
                if failure is Some {
                    (index, failure)
                } else {
                    (index.emit(OP_INDEX, Seq::empty()), None)
                }
            }
        },
        AllExpressions::FunctionLiteral(v) => compile_function(c, v, None),
        AllExpressions::CallExpression(v) => {
            let (callee, failure) = compile_expression(c, *v.function);
            if failure is Some {
                (callee, failure)
            } else {
                let (compiled, failure) = compile_expressions(
                    callee,
                    v.arguments@,
                    v.arguments@.len(),
                );
                if failure is Some {
                    (compiled, failure)
                } else {
                    emit_checked(compiled, OP_CALL, v.arguments@.len() as usize)
                }
            }
        },
        AllExpressions::Assignment(v) => {
            let (value, failure) = compile_expression(c, *v.value);
            if failure is Some {
                (value, failure)
            } else {
                let (table, found) = resolve_symbol(value.symbols, v.ident.value@);
                let resolved = CompilerModel { symbols: table, ..value };
                match found {
                    None => (resolved, Some(CompileFailure::AssignToUndefined(v.ident.value@))),
                    Some(symbol) => emit_checked(resolved, OP_ASSIGN_GLOBAL, symbol.index),
                }
            }
        },
    }
}

/// Compiling a prefix expression: the operand, then the operator.
pub open spec fn compile_prefix(c: CompilerModel, v: PrefixExpression) -> Outcome
    decreases v, 0nat,
{
    match v.right {
        None => (c, Some(CompileFailure::MissingOperand)),
        Some(right) => {
            let (operand, failure) = compile_expression(c, *right);
            if failure is Some {
                (operand, failure)
            } else if v.operator@ == "-"@ {
                (operand.emit(OP_MINUS, Seq::empty()), None)
            } else if v.operator@ == "!"@ {
                (operand.emit(OP_BANG, Seq::empty()), None)
            } else {
                (operand, Some(CompileFailure::UnknownPrefixOperator(v.operator@)))
            }
        },
    }
}

/// Compiling an infix expression: the operands, the right one first for
/// `<` and the left one first for every other operator, then the operator.
pub open spec fn compile_infix(c: CompilerModel, v: InfixExpression) -> Outcome
    decreases v, 0nat,
{
    match (v.left, v.right) {
        (None, _) => (c, Some(CompileFailure::MissingLeft)),
        (Some(_), None) => (c, Some(CompileFailure::MissingRight)),
        (Some(left), Some(right)) => {
            let (first, failure) = if v.operator@ == "<"@ {
                compile_expression(c, *right)
            } else {
                compile_expression(c, *left)
            };
            if failure is Some {
                (first, failure)
            } else {
                let (second, failure) = if v.operator@ == "<"@ {
                    compile_expression(first, *left)
                } else {
                    compile_expression(first, *right)
                };
                if failure is Some {
                    (second, failure)
                } else {
                    match infix_opcode(v.operator@) {
                        Some(op) => (second.emit(op, Seq::empty()), None),
                        None => (second, Some(CompileFailure::UnknownOperator(v.operator@))),
                    }
                }
            }
        },
    }
}

/// Compiling a conditional: the condition, a jump over the consequence that
/// is taken where the condition does not hold, the consequence, a jump over
/// the alternative, and the alternative, or NULL where there is none. Both
/// jumps are emitted with the operand 9999 and patched when their targets
/// are known.
pub open spec fn compile_if(c: CompilerModel, v: IfExpression) -> Outcome
    decreases v, 0nat,
{
    match v.condition {
        None => (c, Some(CompileFailure::MissingCondition)),
        Some(condition) => {
            let (tested, failure) = compile_expression(c, *condition);
            if failure is Some {
                (tested, failure)
            } else {
                let skip = tested.scope().instructions.len() as usize;
                let (consequence, failure) = compile_block(
                    tested.emit(OP_JUMP_NOT_TRUTHY, seq![9999usize]),
                    v.consequence.statements@,
                    v.consequence.statements@.len(),
                );
                if failure is Some {
                    (consequence, failure)
                } else {
                    let value = without_last_pop(consequence);
                    let leave = value.scope().instructions.len() as usize;
                    let jumped = value.emit(OP_JUMP, seq![9999usize]);
                    let (landed, failure) = patched(
                        jumped,
                        skip,
                        jumped.scope().instructions.len() as usize,
                    );
                    if failure is Some {
                        (landed, failure)
                    } else {
                        let (alternative, failure) = match v.alternative {
                            None => (landed.emit(OP_NULL, Seq::empty()), None),
                            Some(block) => {
                                let (compiled, failure) = compile_block(
                                    landed,
                                    block.statements@,
                                    block.statements@.len(),
                                );
                                if failure is Some {
                                    (compiled, failure)
                                } else {
                                    (without_last_pop(compiled), None)
                                }
                            },
                        };
                        if failure is Some {
                            (alternative, failure)
                        } else {
                            patched(
                                alternative,
                                leave,
                                alternative.scope().instructions.len() as usize,
                            )
                        }
                    }
                }
            }
        },
    }
}

/// The scope in which a function literal is compiled: a new scope in which
/// the name of the function, if it is known, stands for the function, and
/// the parameters are defined.
pub open spec fn function_scope(
    c: CompilerModel,
    parameters: Seq<Identifier>,
    name: Option<Seq<char>>,
) -> CompilerModel {
    let entered = c.enter();
    let named = match name {
        None => entered,
        Some(n) => CompilerModel {
            symbols: bind_symbol(
                entered.symbols,
                SymbolView { name: n, scope: SymbolScope::Function, index: 0 },
            ),
            ..entered
        },
    };
    define_parameters(named, parameters, parameters.len())
}

/// Emitting the closure of a compiled function: the loads of the symbols
/// that it captured, the function as a new constant, and CLOSURE.
pub open spec fn closure_of(c: CompilerModel, function: FunctionModel, free: Seq<SymbolView>) -> Outcome {
    let (loaded, failure) = load_symbols(c, free, free.len());
    if failure is Some {
        (loaded, failure)
    } else {
        emit_closure(
            loaded.add_constant(Value::CompiledFunction(function)),
            loaded.constants.len() as usize,
            free.len() as usize,
        )
    }
}

/// Compiling a function literal in a scope of its own, and emitting the
/// closure of the compiled function in the scope around it. Where the
/// function is known by a name, its body can refer to it by that name.
pub open spec fn compile_function(c: CompilerModel, v: FunctionLiteral, name: Option<Seq<char>>) -> Outcome
    decreases v, 0nat,
{
    let (body, failure) = compile_block(
        function_scope(c, v.parameters@, name),
        v.body.statements@,
        v.body.statements@.len(),
    );
    if failure is Some {
        (body, failure)
    } else {
        let ended = with_return(body);
        closure_of(
            ended.leave(),
            FunctionModel {
                instructions: ended.scope().instructions,
                num_args: v.parameters@.len() as usize,
                num_locals: ended.symbols.num_definitions as usize,
            },
            ended.symbols.free_symbols,
        )
    }
}

/// Compiling the first `k` expressions, in order.
pub open spec fn compile_expressions(c: CompilerModel, list: Seq<AllExpressions>, k: nat) -> Outcome
    decreases list, k,
{
    if k == 0 || k > list.len() {
        (c, None)
    } else {
        let (before, failure) = compile_expressions(c, list, (k - 1) as nat);
        if failure is Some {
            (before, failure)
        } else {
            compile_expression(before, list[k - 1])
        }
    }
}

/// Compiling the pairs at the first `k` indices of `order`: of each pair the
/// key, then the value.
pub open spec fn compile_pairs(
    c: CompilerModel,
    pairs: Seq<(AllExpressions, AllExpressions)>,
    order: Seq<int>,
    k: nat,
) -> Outcome
    decreases pairs, k,
{
    if k == 0 || k > order.len() {
        (c, None)
    } else {
        let (before, failure) = compile_pairs(c, pairs, order, (k - 1) as nat);
        if failure is Some {
            (before, failure)
        } else if 0 <= order[k - 1] < pairs.len() {
            let (key, failure) = compile_expression(before, pairs[order[k - 1]].0);
            if failure is Some {
                (key, failure)
            } else {
                compile_expression(key, pairs[order[k - 1]].1)
            }
        } else {
            (before, None)
        }
    }
}

/// Compiling a statement.
pub open spec fn compile_statement(c: CompilerModel, s: AllStatements) -> Outcome
    decreases s, 0nat,
{
    match s {
        AllStatements::Let(v) => {
            let (value, failure) = match *v.value {
                AllExpressions::FunctionLiteral(f) => compile_function(c, f, Some(v.name.value@)),
                other => compile_expression(c, other),
            };
            if failure is Some {
                (value, failure)
            } else if value.symbols.num_definitions >= usize::MAX {
                (value, Some(CompileFailure::TooManyDefinitions))
            } else {
                let (table, symbol) = define_symbol(value.symbols, v.name.value@);
                emit_checked(
                    CompilerModel { symbols: table, ..value },
                    if symbol.scope == SymbolScope::Local {
                        OP_SET_LOCAL
                    } else {
                        OP_SET_GLOBAL
                    },
                    symbol.index,
                )
            }
        },
        AllStatements::Block(v) => compile_block(c, v.statements@, v.statements@.len()),
        AllStatements::Expression(v) => match v.expression {
            None => (c, Some(CompileFailure::MissingExpression)),
            Some(e) => {
                let (value, failure) = compile_expression(c, *e);
                if failure is Some {
                    (value, failure)
                } else {
                    (value.emit(OP_POP, Seq::empty()), None)
                }
            },
        },
        AllStatements::Return(v) => {
            let (value, failure) = compile_expression(c, *v.return_value);
            if failure is Some {
                (value, failure)
            } else {
                (value.emit(OP_RETURN_VALUE, Seq::empty()), None)
            }
        },
        AllStatements::While(_) => (c, Some(CompileFailure::UnsupportedWhile)),
    }
}

/// Compiling the first `k` statements, in order.
pub open spec fn compile_block(c: CompilerModel, list: Seq<AllStatements>, k: nat) -> Outcome
    decreases list, k,
{
    if k == 0 || k > list.len() {
        (c, None)
    } else {
        let (before, failure) = compile_block(c, list, (k - 1) as nat);
        if failure is Some {
            (before, failure)
        } else {
            compile_statement(before, list[k - 1])
        }
    }
}

/// Compiling a node: a program statement by statement, any other node as
/// what it is.
pub open spec fn compile_node(c: CompilerModel, node: AllNodes) -> Outcome {
    match node {
        AllNodes::Program(p) => compile_block(c, p.statements@, p.statements@.len()),
        AllNodes::Statements(s) => compile_statement(c, s),
        AllNodes::Expressions(e) => compile_expression(c, e),
    }
}


/// Once compiling the first `k` statements fails, so does compiling more.
pub proof fn lemma_compile_block_fails(c: CompilerModel, list: Seq<AllStatements>, k: nat, n: nat)
    requires
        k <= n <= list.len(),
        compile_block(c, list, k).1 is Some,
    ensures
        compile_block(c, list, n) == compile_block(c, list, k),
    decreases n - k,
{
    if k < n {
        lemma_compile_block_fails(c, list, k, (n - 1) as nat);
    }
}

/// Once compiling the first `k` expressions fails, so does compiling more.
pub proof fn lemma_compile_expressions_fails(
    c: CompilerModel,
    list: Seq<AllExpressions>,
    k: nat,
    n: nat,
)
    requires
        k <= n <= list.len(),
        compile_expressions(c, list, k).1 is Some,
    ensures
        compile_expressions(c, list, n) == compile_expressions(c, list, k),
    decreases n - k,
{
    if k < n {
        lemma_compile_expressions_fails(c, list, k, (n - 1) as nat);
    }
}

/// Once compiling the first `k` pairs fails, so does compiling more.
pub proof fn lemma_compile_pairs_fails(
    c: CompilerModel,
    pairs: Seq<(AllExpressions, AllExpressions)>,
    order: Seq<int>,
    k: nat,
    n: nat,
)
    requires
        k <= n <= order.len(),
        compile_pairs(c, pairs, order, k).1 is Some,
    ensures
        compile_pairs(c, pairs, order, n) == compile_pairs(c, pairs, order, k),
    decreases n - k,
{
    if k < n {
        lemma_compile_pairs_fails(c, pairs, order, k, (n - 1) as nat);
    }
}

/// Once loading the first `k` symbols fails, so does loading more.
pub proof fn lemma_load_symbols_fails(c: CompilerModel, symbols: Seq<SymbolView>, k: nat, n: nat)
    requires
        k <= n,
        load_symbols(c, symbols, k).1 is Some,
    ensures
        load_symbols(c, symbols, n) == load_symbols(c, symbols, k),
    decreases n - k,
{
    if k < n {
        lemma_load_symbols_fails(c, symbols, k, (n - 1) as nat);
    }
}

/// Whether the last instruction of `program` is a jump that stands at the
/// offset `position`.
pub open spec fn jump_at_end(program: Seq<Emitted>, position: int) -> bool {
    &&& program.len() >= 1
    &&& offset_of(program, program.len() - 1) == position
    &&& (program.last().0 == OP_JUMP_NOT_TRUTHY || program.last().0 == OP_JUMP)
}

/// Whether `after` is `before` with `operand` as the one operand of the
/// instruction at the offset `position`, if there is one.
pub open spec fn rewritten(
    before: Seq<Emitted>,
    after: Seq<Emitted>,
    position: int,
    operand: usize,
) -> bool {
    &&& after.len() == before.len()
    &&& forall|i: int|
        0 <= i < before.len() ==> #[trigger] after[i] == (if offset_of(before, i) == position {
            (before[i].0, seq![operand])
        } else {
            before[i]
        })
}

/// Whether `after` holds, behind the instructions of `before`, the two jumps
/// of a conditional with their targets: a JUMP_NOT_TRUTHY to the offset
/// behind the JUMP that ends the consequence, and that JUMP to the end of the
/// instructions.
pub open spec fn conditional_jumps(before: Seq<Emitted>, after: Seq<Emitted>) -> bool {
    exists|skip: int, leave: int|
        before.len() <= skip < leave < after.len() && #[trigger] after[skip] == (
            OP_JUMP_NOT_TRUTHY,
            seq![offset_of(after, leave + 1) as usize],
        ) && #[trigger] after[leave] == (OP_JUMP, seq![assemble(after).len() as usize])
}

/// A compiler whose other scopes are those of an earlier one, and whose
/// active scope begins with the instructions of the earlier one, extends it.
pub proof fn lemma_extends_active(earlier: Compiler, later: Compiler)
    requires
        earlier.scopes@.len() >= 1,
        later.same_outer_scopes(earlier),
        is_prefix(earlier.emitted(), later.emitted()),
    ensures
        later.extends(earlier),
{
    assert forall|i: int| 0 <= i < later.scopes@.len() implies is_prefix(
        earlier.scopes@[i].emitted@,
        #[trigger] later.scopes@[i].emitted@,
    ) by {
        if i < later.scopes@.len() - 1 {
            assert(later.scopes@[i] == earlier.scopes@[i]);
        }
    }
}

/// A compiler that extends one that extends a third extends the third.
pub proof fn lemma_extends_transitive(first: Compiler, second: Compiler, third: Compiler)
    requires
        second.extends(first),
        third.extends(second),
    ensures
        third.extends(first),
{
    assert forall|i: int| 0 <= i < third.scopes@.len() implies is_prefix(
        first.scopes@[i].emitted@,
        #[trigger] third.scopes@[i].emitted@,
    ) by {
        assert(is_prefix(first.scopes@[i].emitted@, second.scopes@[i].emitted@));
        assert(is_prefix(second.scopes@[i].emitted@, third.scopes@[i].emitted@));
        let a = first.scopes@[i].emitted@;
        let c = third.scopes@[i].emitted@;
        assert forall|k: int| 0 <= k < a.len() implies #[trigger] c[k] == a[k] by {
            assert(second.scopes@[i].emitted@[k] == first.scopes@[i].emitted@[k]);
        }
    }
}

/// Every compiler extends itself.
pub proof fn lemma_extends_reflexive(c: Compiler)
    ensures
        c.extends(c),
{
}

/// Whether a string holds the given text.
pub fn text_is(s: &String, text: &str) -> (b: bool)
    ensures
        b == (s@ == text@),
{
    let other = String::from_str(text);
    *s == other
}

impl Compiler {
    /// Emits an instruction without operands.
    pub fn emit_plain(&mut self, op: Opcode) -> (position: usize)
        requires
            old(self).wf(),
            is_defined(op),
            operand_widths(op).len() == 0,
        ensures
            final(self).wf(),
            final(self)@.scopes.len() == old(self)@.scopes.len(),
            old(self).tidy() ==> final(self).tidy() && final(self).extends(*old(self)),
            final(self)@ == old(self)@.emit(op, Seq::empty()),
            position == old(self)@.scope().instructions.len(),
            final(self).same_outer_scopes(*old(self)),
            final(self).emitted() == old(self).emitted().push((op, Seq::empty())),
    {
        let operands: Vec<usize> = Vec::new();
        let position = self.emit(op, operands.as_slice());
        proof {
            lemma_extends_active(*old(self), *self);
        }
        position
    }

    /// Emits an instruction with one operand, where the operand fits the
    /// width that the instruction gives it.
    pub fn emit_checked(&mut self, op: Opcode, operand: usize) -> (r: Result<(), CompileError>)
        requires
            old(self).wf(),
            is_defined(op),
            operand_widths(op).len() == 1,
        ensures
            final(self).wf(),
            final(self)@.scopes.len() == old(self)@.scopes.len(),
            old(self).tidy() && (op == OP_CONSTANT ==> operand < old(self).constants@.len())
                ==> final(self).tidy() && final(self).extends(*old(self)),
            outcome(final(self)@, r) == emit_checked(old(self)@, op, operand),
            final(self).same_outer_scopes(*old(self)),
            final(self).emitted() == (if r is Ok {
                old(self).emitted().push((op, seq![operand]))
            } else {
                old(self).emitted()
            }),
    {
        let width: usize = crate::code::operands_width(op);
        proof {
            reveal_with_fuel(crate::code::total_width, 2);
        }
        if (width == 1 && operand >= 256) || (width == 2 && operand >= 65536) {
            proof {
                lemma_extends_reflexive(*self);
            }
            return Err(CompileError::OperandOutOfRange { opcode: op, operand });
        }
        let mut operands: Vec<usize> = Vec::new();
        operands.push(operand);
        assert(operands@ =~= seq![operand]);
        self.emit(op, operands.as_slice());
        proof {
            lemma_extends_active(*old(self), *self);
        }
        Ok(())
    }

    /// Emits the instruction that loads a symbol.
    pub fn load_symbol(&mut self, symbol: &Symbol) -> (r: Result<(), CompileError>)
        requires
            old(self).wf(),
        ensures
            final(self).wf(),
            final(self)@.scopes.len() == old(self)@.scopes.len(),
            old(self).tidy() ==> final(self).tidy() && final(self).extends(*old(self)),
            outcome(final(self)@, r) == load_symbol(old(self)@, symbol@),
    {
        match symbol.scope {
            SymbolScope::Global => self.emit_checked(OP_GET_GLOBAL, symbol.index),
            SymbolScope::Local => self.emit_checked(OP_GET_LOCAL, symbol.index),
            SymbolScope::Builtin => self.emit_checked(OP_GET_BUILTIN, symbol.index),
            SymbolScope::Free => self.emit_checked(OP_GET_FREE, symbol.index),
            SymbolScope::Function => {
                self.emit_plain(OP_CURRENT_CLOSURE);
                Ok(())
            },
        }
    }

    /// Writes `operand` into the instruction at `op_pos`.
    pub fn change_operand(&mut self, op_pos: usize, operand: usize) -> (r: Result<
        (),
        CompileError,
    >)
        requires
            old(self).wf(),
        ensures
            final(self).wf(),
            final(self)@.scopes.len() == old(self)@.scopes.len(),
            outcome(final(self)@, r) == patched(old(self)@, op_pos, operand),
            final(self).same_outer_scopes(*old(self)),
            old(self).tidy() && is_boundary(old(self).emitted(), op_pos as int) && (forall|j: int|
                0 <= j < old(self).emitted().len() && offset_of(old(self).emitted(), j) == op_pos
                    ==> (#[trigger] old(self).emitted()[j]).0 != OP_CONSTANT) ==> final(self).tidy()
                && (r is Ok ==> rewritten(
                old(self).emitted(),
                final(self).emitted(),
                op_pos as int,
                operand,
            )) && (r is Err ==> final(self).emitted() == old(self).emitted()),
    {
        let len: usize = self.current_instructions().len();
        if op_pos >= len {
            return Err(CompileError::InvalidPatch { position: op_pos });
        }
        let op: Opcode = self.current_instructions()[op_pos];
        let def = match crate::code::lookup(op) {
            Err(_) => {
                return Err(CompileError::InvalidPatch { position: op_pos });
            },
            Ok(d) => d,
        };
        if def.operand_widths.len() != 1 {
            return Err(CompileError::InvalidPatch { position: op_pos });
        }
        let width: usize = def.operand_widths[0];
        if width > len - op_pos - 1 {
            return Err(CompileError::InvalidPatch { position: op_pos });
        }
        if (width == 1 && operand >= 256) || (width == 2 && operand >= 65536) {
            return Err(CompileError::OperandOutOfRange { opcode: op, operand });
        }
        let mut operands: Vec<usize> = Vec::new();
        operands.push(operand);
        assert(operands@ =~= seq![operand]);
        let new_instruction = make(op, operands.as_slice());
        proof {
            crate::code::lemma_encode_operands_len(operand_widths(op), seq![operand], 1);
            reveal_with_fuel(crate::code::total_width, 2);
        }
        self.replace_instruction(op_pos, new_instruction);
        let index: usize = self.scope_index;
        let ghost before = old(self).scopes@[index as int];
        let ghost e = before.emitted@;
        let ghost in_order = old(self).tidy() && is_boundary(e, op_pos as int) && (forall|j: int|
            0 <= j < e.len() && offset_of(e, j) == op_pos ==> (#[trigger] e[j]).0 != OP_CONSTANT);
        let ghost j = choose|j: int| 0 <= j < e.len() && #[trigger] offset_of(e, j) == op_pos;
        let ghost patched_program = if in_order {
            e.update(j, (op, seq![operand]))
        } else {
            e
        };
        let ghost replaced = self.scopes@[index as int];
        let ghost outcome = self@;
        self.scopes[index].emitted = Ghost(patched_program);
        assert(self.scopes@[index as int]@ == replaced@);
        assert(self@.scopes =~= outcome.scopes);
        proof {
            if in_order {
                assert(scope_tidy(before));
                let n = e.len() as int;
                let new_e = patched_program;
                lemma_assemble_split(e, j);
                lemma_encoding_shape(e[j]);
                assert(before.instructions@[op_pos as int] == encoding(e[j].0, e[j].1)[0]);
                assert(op == e[j].0);
                assert(well_formed((op, seq![operand])));
                lemma_assemble_update(e, j, (op, seq![operand]));
                lemma_encoding_shape((op, seq![operand]));
                let after = self.scopes@[index as int];
                assert(old(self)@.scope() == before@);
                assert(outcome.scopes[index as int] == replaced@);
                assert(after.instructions@ =~= assemble(new_e));
                assert forall|i: int| 0 <= i < new_e.len() implies well_formed(
                    #[trigger] new_e[i],
                ) by {
                    if i != j {
                        assert(new_e[i] == e[i]);
                    }
                }
                if n >= 1 {
                    lemma_same_opcodes_offset(e, new_e, n - 1);
                }
                if n >= 2 {
                    lemma_same_opcodes_offset(e, new_e, n - 2);
                }
                assert(scope_tidy(after));
                assert(scope_in_order(before, old(self).constants@.len()));
                assert(self.constants@.len() == self@.constants.len());
                assert(old(self).constants@.len() == old(self)@.constants.len());
                assert forall|k: int| 0 <= k < after.emitted@.len() implies refers_into_pool(
                    #[trigger] after.emitted@[k],
                    self.constants@.len(),
                ) by {
                    if k != j {
                        assert(after.emitted@[k] == e[k]);
                    }
                }
                assert forall|i: int| 0 <= i < self.scopes@.len() implies scope_in_order(
                    #[trigger] self.scopes@[i],
                    self.constants@.len(),
                ) by {
                    if i != index {
                        assert(self.scopes@[i] == old(self).scopes@[i]);
                    }
                }
                assert forall|i: int| 0 <= i < e.len() implies #[trigger] new_e[i] == (if offset_of(
                    e,
                    i,
                ) == op_pos {
                    (e[i].0, seq![operand])
                } else {
                    e[i]
                }) by {
                    if i < j {
                        lemma_offsets_increasing(e, i, j);
                    } else if j < i {
                        lemma_offsets_increasing(e, j, i);
                    }
                }
            }
        }
        Ok(())
    }

    /// Removes a POP that was emitted last.
    pub fn remove_pop(&mut self)
        requires
            old(self).wf(),
        ensures
            final(self).wf(),
            final(self)@.scopes.len() == old(self)@.scopes.len(),
            final(self)@ == without_last_pop(old(self)@),
            final(self).same_outer_scopes(*old(self)),
            old(self).tidy() ==> final(self).tidy() && (final(self).emitted() == old(self).emitted()
                || (old(self).emitted().len() >= 1 && old(self).emitted().last().0 == OP_POP
                && final(self).emitted() == old(self).emitted().drop_last())),
    {
        if self.last_instruction_is(OP_POP) {
            proof {
                if old(self).tidy() {
                    assert(scope_tidy(self.scopes@[self.scope_index as int]));
                }
            }
            self.remove_last_pop();
        }
    }

    /// Compiles a node: emits its instructions into the scope that is being
    /// compiled, and adds its constants to the pool.
    pub fn compile(&mut self, node: &AllNodes) -> (r: Result<(), CompileError>)
        requires
            old(self).wf(),
        ensures
            final(self).wf(),
            outcome(final(self)@, r) == compile_node(old(self)@, *node),
            r is Ok ==> final(self)@.scopes.len() == old(self)@.scopes.len(),
            old(self).tidy() ==> final(self).tidy(),
            old(self).tidy() && r is Ok ==> final(self).extends(*old(self)),
    {
        match node {
            AllNodes::Program(p) => self.compile_statements(&p.statements),
            AllNodes::Statements(stmt) => self.compile_statement(stmt),
            AllNodes::Expressions(expr) => self.compile_expression(expr),
        }
    }

    /// Compiles statements, in order.
    pub fn compile_statements(&mut self, list: &Vec<AllStatements>) -> (r: Result<
        (),
        CompileError,
    >)
        requires
            old(self).wf(),
        ensures
            final(self).wf(),
            outcome(final(self)@, r) == compile_block(old(self)@, list@, list@.len()),
            r is Ok ==> final(self)@.scopes.len() == old(self)@.scopes.len(),
            old(self).tidy() ==> final(self).tidy(),
            old(self).tidy() && r is Ok ==> final(self).extends(*old(self)),
        decreases list,
    {
        let mut i: usize = 0;
        while i < list.len()
            invariant
                i <= list@.len(),
                self.wf(),
                self@.scopes.len() == old(self)@.scopes.len(),
                (self@, None::<CompileFailure>) == compile_block(old(self)@, list@, i as nat),
                old(self).tidy() ==> self.tidy() && self.extends(*old(self)),
            decreases list@.len() - i,
        {
            let ghost before = *self;
            match self.compile_statement(&list[i]) {
                Err(e) => {
                    proof {
                        lemma_compile_block_fails(old(self)@, list@, i as nat + 1, list@.len());
                    }
                    return Err(e);
                },
                Ok(()) => {},
            }
            proof {
                if old(self).tidy() {
                    lemma_extends_transitive(*old(self), before, *self);
                }
            }
            i += 1;
        }
        Ok(())
    }

    /// Compiles expressions, in order.
    pub fn compile_expression_list(&mut self, list: &Vec<AllExpressions>) -> (r: Result<
        (),
        CompileError,
    >)
        requires
            old(self).wf(),
        ensures
            final(self).wf(),
            outcome(final(self)@, r) == compile_expressions(old(self)@, list@, list@.len()),
            r is Ok ==> final(self)@.scopes.len() == old(self)@.scopes.len(),
            old(self).tidy() ==> final(self).tidy(),
            old(self).tidy() && r is Ok ==> final(self).extends(*old(self)),
        decreases list,
    {
        let mut i: usize = 0;
        while i < list.len()
            invariant
                i <= list@.len(),
                self.wf(),
                self@.scopes.len() == old(self)@.scopes.len(),
                (self@, None::<CompileFailure>) == compile_expressions(
                    old(self)@,
                    list@,
                    i as nat,
                ),
                old(self).tidy() ==> self.tidy() && self.extends(*old(self)),
            decreases list@.len() - i,
        {
            let ghost before = *self;
            match self.compile_expression(&list[i]) {
                Err(e) => {
                    proof {
                        lemma_compile_expressions_fails(
                            old(self)@,
                            list@,
                            i as nat + 1,
                            list@.len(),
                        );
                    }
                    return Err(e);
                },
                Ok(()) => {},
            }
            proof {
                if old(self).tidy() {
                    lemma_extends_transitive(*old(self), before, *self);
                }
            }
            i += 1;
        }
        Ok(())
    }

    /// Compiles a statement.
    pub fn compile_statement(&mut self, stmt: &AllStatements) -> (r: Result<(), CompileError>)
        requires
            old(self).wf(),
        ensures
            final(self).wf(),
            outcome(final(self)@, r) == compile_statement(old(self)@, *stmt),
            r is Ok ==> final(self)@.scopes.len() == old(self)@.scopes.len(),
            old(self).tidy() ==> final(self).tidy(),
            old(self).tidy() && r is Ok ==> final(self).extends(*old(self)),
        decreases stmt,
    {
        match stmt {
            AllStatements::Let(s) => self.compile_let_statements(s),
            AllStatements::Block(b) => self.compile_statements(&b.statements),
            AllStatements::Expression(s) => self.compile_expression_statement(s),
            AllStatements::Return(s) => {
                match self.compile_expression(&s.return_value) {
                    Err(e) => Err(e),
                    Ok(()) => {
                        self.emit_plain(OP_RETURN_VALUE);
                        Ok(())
                    },
                }
            },
            AllStatements::While(_) => Err(CompileError::UnsupportedWhile),
        }
    }

    /// Compiles an expression.
    pub fn compile_expression(&mut self, expr: &AllExpressions) -> (r: Result<(), CompileError>)
        requires
            old(self).wf(),
        ensures
            final(self).wf(),
            outcome(final(self)@, r) == compile_expression(old(self)@, *expr),
            r is Ok ==> final(self)@.scopes.len() == old(self)@.scopes.len(),
            old(self).tidy() ==> final(self).tidy(),
            old(self).tidy() && r is Ok ==> final(self).extends(*old(self)),
        decreases expr,
    {
        match expr {
            AllExpressions::IntegerLiteral(v) => self.compile_integer_literal(v),
            AllExpressions::StringLiteral(v) => self.compile_string_literal(v),
            AllExpressions::Boolean(v) => self.compile_boolean_literal(v),
            AllExpressions::PrefixExpression(v) => self.compile_prefix_expression(v),
            AllExpressions::InfixExpression(v) => self.compile_infix_expression(v),
            AllExpressions::IfExpression(v) => self.compile_if_expression(v),
            AllExpressions::ArrayLiteral(v) => self.compile_array_literal(v),
            AllExpressions::HashLiteral(v) => self.compile_hash_literal(v),
            AllExpressions::Identifier(v) => self.compile_identifier(v),
            AllExpressions::IndexExpression(v) => self.compile_index_expression(v),
            AllExpressions::FunctionLiteral(v) => self.compile_function_literals(v, None),
            AllExpressions::CallExpression(v) => self.compile_call_expressions(v),
            AllExpressions::Assignment(v) => self.compile_assignment_expression(v),
        }
    }

    /// Compiles an expression statement: the expression, then a POP, the
    /// instruction that takes the value of the expression from the stack
    /// and records it as the result of the program.
    pub fn compile_expression_statement(&mut self, stmt: &ExpressionStatement) -> (r: Result<
        (),
        CompileError,
    >)
        requires
            old(self).wf(),
        ensures
            final(self).wf(),
            r is Ok ==> final(self)@.last_is(OP_POP) && final(self)@.scope().instructions.last()
                == OP_POP,
            outcome(final(self)@, r) == compile_statement(
                old(self)@,
                AllStatements::Expression(*stmt),
            ),
            r is Ok ==> final(self)@.scopes.len() == old(self)@.scopes.len(),
            old(self).tidy() ==> final(self).tidy(),
            old(self).tidy() && r is Ok ==> final(self).extends(*old(self)),
        decreases stmt,
    {
        let expr = match &stmt.expression {
            None => {
                return Err(CompileError::MissingExpression);
            },
            Some(e) => e,
        };
        match self.compile_expression(expr) {
            Err(e) => Err(e),
            Ok(()) => {
                self.emit_plain(OP_POP);
                proof {
                    assert(operand_widths(OP_POP) =~= Seq::<usize>::empty());
                    assert(encoding(OP_POP, Seq::empty()) =~= seq![OP_POP]);
                }
                Ok(())
            },
        }
    }

    /// Compiles a let statement: the value, then the definition of the name
    /// and the instruction that stores the value in it.
    pub fn compile_let_statements(&mut self, s: &LetStatement) -> (r: Result<(), CompileError>)
        requires
            old(self).wf(),
        ensures
            final(self).wf(),
            outcome(final(self)@, r) == compile_statement(old(self)@, AllStatements::Let(*s)),
            r is Ok ==> final(self)@.scopes.len() == old(self)@.scopes.len(),
            old(self).tidy() ==> final(self).tidy(),
            old(self).tidy() && r is Ok ==> final(self).extends(*old(self)),
        decreases s,
    {
        let compiled = match &*s.value {
            AllExpressions::FunctionLiteral(f) => self.compile_function_literals(
                f,
                Some(s.name.value.as_str()),
            ),
            other => self.compile_expression(other),
        };
        match compiled {
            Err(e) => {
                return Err(e);
            },
            Ok(()) => {},
        }
        if self.symbol_table.table.num_definitions >= usize::MAX {
            return Err(CompileError::TooManyDefinitions);
        }
        let symbol = self.symbol_table.define(s.name.value.as_str());
        match symbol.scope {
            SymbolScope::Local => self.emit_checked(OP_SET_LOCAL, symbol.index),
            _ => self.emit_checked(OP_SET_GLOBAL, symbol.index),
        }
    }

    /// Compiles an identifier: the load of the symbol that it resolves to.
    pub fn compile_identifier(&mut self, v: &Identifier) -> (r: Result<(), CompileError>)
        requires
            old(self).wf(),
        ensures
            final(self).wf(),
            outcome(final(self)@, r) == compile_name(old(self)@, v.value@),
            final(self)@.scopes.len() == old(self)@.scopes.len(),
            old(self).tidy() ==> final(self).tidy() && final(self).extends(*old(self)),
    {
        let symbol = match self.symbol_table.resolve(v.value.as_str()) {
            None => {
                proof {
                    lemma_resolve_keeps_depth(old(self).symbol_table@, v.value@);
                }
                return Err(CompileError::UndefinedVariable(v.value.clone()));
            },
            Some(s) => s,
        };
        proof {
            lemma_resolve_keeps_depth(old(self).symbol_table@, v.value@);
        }
        self.load_symbol(&symbol)
    }

    /// Compiles an infix expression.
    pub fn compile_infix_expression(&mut self, expr: &InfixExpression) -> (r: Result<
        (),
        CompileError,
    >)
        requires
            old(self).wf(),
        ensures
            final(self).wf(),
            outcome(final(self)@, r) == compile_infix(old(self)@, *expr),
            r is Ok ==> final(self)@.scopes.len() == old(self)@.scopes.len(),
            old(self).tidy() ==> final(self).tidy(),
            old(self).tidy() && r is Ok ==> final(self).extends(*old(self)),
        decreases expr,
    {
        let left = match &expr.left {
            None => {
                return Err(CompileError::MissingLeft);
            },
            Some(e) => e,
        };
        let right = match &expr.right {
            None => {
                return Err(CompileError::MissingRight);
            },
            Some(e) => e,
        };
        let swapped = text_is(&expr.operator, "<");
        let first = if swapped {
            self.compile_expression(right)
        } else {
            self.compile_expression(left)
        };
        match first {
            Err(e) => {
                return Err(e);
            },
            Ok(()) => {},
        }
        let second = if swapped {
            self.compile_expression(left)
        } else {
            self.compile_expression(right)
        };
        match second {
            Err(e) => {
                return Err(e);
            },
            Ok(()) => {},
        }
        let op: Opcode = if text_is(&expr.operator, "+") {
            OP_ADD
        } else if text_is(&expr.operator, "-") {
            OP_SUB
        } else if text_is(&expr.operator, "*") {
            OP_MUL
        } else if text_is(&expr.operator, "/") {
            OP_DIV
        } else if text_is(&expr.operator, ">") || swapped {
            OP_GREATER_THAN
        } else if text_is(&expr.operator, "==") {
            OP_EQUAL
        } else if text_is(&expr.operator, "!=") {
            OP_NOT_EQUAL
        } else {
            return Err(CompileError::UnknownOperator(expr.operator.clone()));
        };
        self.emit_plain(op);
        Ok(())
    }

    /// Compiles a prefix expression.
    pub fn compile_prefix_expression(&mut self, expr: &PrefixExpression) -> (r: Result<
        (),
        CompileError,
    >)
        requires
            old(self).wf(),
        ensures
            final(self).wf(),
            outcome(final(self)@, r) == compile_prefix(old(self)@, *expr),
            r is Ok ==> final(self)@.scopes.len() == old(self)@.scopes.len(),
            old(self).tidy() ==> final(self).tidy(),
            old(self).tidy() && r is Ok ==> final(self).extends(*old(self)),
        decreases expr,
    {
        let right = match &expr.right {
            None => {
                return Err(CompileError::MissingOperand);
            },
            Some(e) => e,
        };
        match self.compile_expression(right) {
            Err(e) => {
                return Err(e);
            },
            Ok(()) => {},
        }
        if text_is(&expr.operator, "-") {
            self.emit_plain(OP_MINUS);
        } else if text_is(&expr.operator, "!") {
            self.emit_plain(OP_BANG);
        } else {
            return Err(CompileError::UnknownPrefixOperator(expr.operator.clone()));
        }
        Ok(())
    }

    /// Compiles an array literal: the elements, then ARRAY.
    pub fn compile_array_literal(&mut self, expr: &ArrayLiteral) -> (r: Result<(), CompileError>)
        requires
            old(self).wf(),
        ensures
            final(self).wf(),
            outcome(final(self)@, r) == compile_expression(
                old(self)@,
                AllExpressions::ArrayLiteral(*expr),
            ),
            r is Ok ==> final(self)@.scopes.len() == old(self)@.scopes.len(),
            old(self).tidy() ==> final(self).tidy(),
            old(self).tidy() && r is Ok ==> final(self).extends(*old(self)),
        decreases expr,
    {
        match self.compile_expression_list(&expr.elements) {
            Err(e) => Err(e),
            Ok(()) => self.emit_checked(OP_ARRAY, expr.elements.len()),
        }
    }

    /// Compiles a hash literal: the pairs in the order of the texts of their
    /// keys, of each pair the key and then the value, then HASH.
    pub fn compile_hash_literal(&mut self, expr: &HashLiteral) -> (r: Result<(), CompileError>)
        requires
            old(self).wf(),
        ensures
            final(self).wf(),
            outcome(final(self)@, r) == compile_expression(
                old(self)@,
                AllExpressions::HashLiteral(*expr),
            ),
            r is Ok ==> final(self)@.scopes.len() == old(self)@.scopes.len(),
            old(self).tidy() ==> final(self).tidy(),
            old(self).tidy() && r is Ok ==> final(self).extends(*old(self)),
        decreases expr,
    {
        let order = key_order(&expr.pairs);
        let ghost indices = emission_order(expr.pairs@);
        let mut i: usize = 0;
        while i < order.len()
            invariant
                i <= order@.len(),
                order@.len() == expr.pairs@.len(),
                indices == emission_order(expr.pairs@),
                as_indices(order@) == indices,
                forall|j: int| 0 <= j < order@.len() ==> order@[j] < expr.pairs@.len(),
                self.wf(),
                self@.scopes.len() == old(self)@.scopes.len(),
                (self@, None::<CompileFailure>) == compile_pairs(
                    old(self)@,
                    expr.pairs@,
                    indices,
                    i as nat,
                ),
                old(self).tidy() ==> self.tidy() && self.extends(*old(self)),
            decreases order@.len() - i,
        {
            let at: usize = order[i];
            let ghost before = *self;
            assert(indices[i as int] == at);
            match self.compile_expression(&expr.pairs[at].0) {
                Err(e) => {
                    proof {
                        lemma_compile_pairs_fails(
                            old(self)@,
                            expr.pairs@,
                            indices,
                            i as nat + 1,
                            indices.len(),
                        );
                    }
                    return Err(e);
                },
                Ok(()) => {},
            }
            let ghost keyed = *self;
            match self.compile_expression(&expr.pairs[at].1) {
                Err(e) => {
                    proof {
                        lemma_compile_pairs_fails(
                            old(self)@,
                            expr.pairs@,
                            indices,
                            i as nat + 1,
                            indices.len(),
                        );
                    }
                    return Err(e);
                },
                Ok(()) => {},
            }
            proof {
                if old(self).tidy() {
                    lemma_extends_transitive(before, keyed, *self);
                    lemma_extends_transitive(*old(self), before, *self);
                }
            }
            i += 1;
        }
        let ghost compiled = *self;
        let r = self.emit_checked(OP_HASH, expr.pairs.len());
        proof {
            if old(self).tidy() {
                lemma_extends_transitive(*old(self), compiled, *self);
            }
        }
        r
    }

    /// Compiles an index expression: the container, the index, then INDEX.
    pub fn compile_index_expression(&mut self, expr: &IndexExpression) -> (r: Result<
        (),
        CompileError,
    >)
        requires
            old(self).wf(),
        ensures
            final(self).wf(),
            outcome(final(self)@, r) == compile_expression(
                old(self)@,
                AllExpressions::IndexExpression(*expr),
            ),
            r is Ok ==> final(self)@.scopes.len() == old(self)@.scopes.len(),
            old(self).tidy() ==> final(self).tidy(),
            old(self).tidy() && r is Ok ==> final(self).extends(*old(self)),
        decreases expr,
    {
        match self.compile_expression(&expr.left) {
            Err(e) => {
                return Err(e);
            },
            Ok(()) => {},
        }
        match self.compile_expression(&expr.index) {
            Err(e) => {
                return Err(e);
            },
            Ok(()) => {},
        }
        self.emit_plain(OP_INDEX);
        Ok(())
    }

    /// Enters the scope of a function literal: binds the name of the
    /// function, if it is known, and defines the parameters.
    pub fn begin_function(&mut self, parameters: &Vec<Identifier>, name: Option<&str>)
        requires
            old(self).wf(),
        ensures
            final(self).wf(),
            final(self)@ == function_scope(
                old(self)@,
                parameters@,
                match name {
                    Some(n) => Some(n@),
                    None => None,
                },
            ),
            final(self).scopes@.len() == old(self).scopes@.len() + 1,
            final(self).scopes@.drop_last() == old(self).scopes@,
            old(self).tidy() ==> final(self).tidy(),
    {
        self.enter_scope();
        match name {
            None => {},
            Some(n) => {
                self.symbol_table.define_function_name(n);
            },
        }
        let ghost named = self@;
        let mut i: usize = 0;
        while i < parameters.len()
            invariant
                i <= parameters@.len(),
                self.wf(),
                self.scopes@.len() == old(self).scopes@.len() + 1,
                self.scopes@.drop_last() == old(self).scopes@,
                old(self).tidy() ==> self.tidy(),
                self@.symbols.num_definitions == i,
                self@ == define_parameters(named, parameters@, i as nat),
            decreases parameters@.len() - i,
        {
            self.symbol_table.define(parameters[i].value.as_str());
            i += 1;
        }
    }

    /// Ends a function: a POP that was emitted last becomes a RETURN_VALUE,
    /// and a function that does not end in RETURN_VALUE gets a RETURN.
    pub fn end_function(&mut self)
        requires
            old(self).wf(),
        ensures
            final(self).wf(),
            final(self)@ == with_return(old(self)@),
            final(self).same_outer_scopes(*old(self)),
            old(self).tidy() ==> final(self).tidy(),
    {
        if self.last_instruction_is(OP_POP) {
            let index: usize = self.scope_index;
            let last_pos: usize = self.scopes[index].last_instruction.position;
            let ghost before = self.scopes@[index as int];
            let ghost e = before.emitted@;
            proof {
                if old(self).tidy() {
                    assert(scope_tidy(before));
                    let n = e.len() as int;
                    lemma_assemble_split(e, n - 1);
                    lemma_encoding_shape(e[n - 1]);
                    assert(e.skip(n) =~= Seq::<Emitted>::empty());
                    assert(assemble(e.skip(n)) =~= Seq::<u8>::empty());
                }
            }
            self.replace_instruction(last_pos, make(OP_RETURN_VALUE, Vec::new().as_slice()));
            let ghost overwritten = self@;
            let ghost replaced = self.scopes@[index as int];
            self.scopes[index].last_instruction.opcode = OP_RETURN_VALUE;
            self.scopes[index].emitted = Ghost(
                if e.len() >= 1 {
                    e.update(e.len() - 1, (OP_RETURN_VALUE, Seq::empty()))
                } else {
                    e
                },
            );
            assert(self@.scopes =~= overwritten.with_scope(
                ScopeModel {
                    last: EmittedInstruction { opcode: OP_RETURN_VALUE, position: last_pos },
                    ..overwritten.scope()
                },
            ).scopes);
            proof {
                if old(self).tidy() {
                    let n = e.len() as int;
                    let new_e = e.update(n - 1, (OP_RETURN_VALUE, Seq::<usize>::empty()));
                    let after = self.scopes@[index as int];
                    assert(well_formed((OP_RETURN_VALUE, Seq::<usize>::empty())));
                    lemma_encoding_shape((OP_RETURN_VALUE, Seq::<usize>::empty()));
                    lemma_assemble_split(new_e, n - 1);
                    assert(new_e.take(n - 1) =~= e.take(n - 1));
                    assert(new_e.skip(n) =~= Seq::<Emitted>::empty());
                    assert(overwritten.scopes[index as int] == replaced@);
                    assert(old(self)@.scope() == before@);
                    assert(after.instructions@ == replaced.instructions@);
                    assert(after.instructions@ =~= assemble(new_e));
                    assert forall|i: int| 0 <= i < new_e.len() implies well_formed(
                        #[trigger] new_e[i],
                    ) by {
                        if i != n - 1 {
                            assert(new_e[i] == e[i]);
                        }
                    }
                    if n >= 2 {
                        assert(new_e.take(n - 2) =~= e.take(n - 2));
                    }
                    assert(scope_tidy(after));
                    assert(scope_in_order(before, old(self).constants@.len()));
                    assert(self.constants@.len() == self@.constants.len());
                    assert(old(self).constants@.len() == old(self)@.constants.len());
                assert(self.constants@.len() == self@.constants.len());
                assert(old(self).constants@.len() == old(self)@.constants.len());
                    assert forall|k: int| 0 <= k < after.emitted@.len() implies refers_into_pool(
                        #[trigger] after.emitted@[k],
                        self.constants@.len(),
                    ) by {
                        if k != n - 1 {
                            assert(after.emitted@[k] == e[k]);
                        }
                    }
                    assert forall|i: int| 0 <= i < self.scopes@.len() implies scope_in_order(
                        #[trigger] self.scopes@[i],
                        self.constants@.len(),
                    ) by {
                        if i != index {
                            assert(self.scopes@[i] == old(self).scopes@[i]);
                        }
                    }
                }
            }
        }
        if !self.last_instruction_is(OP_RETURN_VALUE) {
            self.emit_plain(OP_RETURN);
        }
    }

    /// Emits the closure of a compiled function: the loads of the symbols
    /// that it captured, the function as a new constant, and CLOSURE.
    pub fn emit_closure_of(
        &mut self,
        function: CompiledFunctionObj,
        free_symbols: &Vec<Symbol>,
    ) -> (r: Result<(), CompileError>)
        requires
            old(self).wf(),
        ensures
            final(self).wf(),
            final(self)@.scopes.len() == old(self)@.scopes.len(),
            outcome(final(self)@, r) == closure_of(
                old(self)@,
                function@,
                symbol_views(free_symbols@),
            ),
            old(self).tidy() ==> final(self).tidy() && final(self).extends(*old(self)),
    {
        let ghost free = symbol_views(free_symbols@);
        proof {
            lemma_extends_reflexive(*self);
        }
        let mut k: usize = 0;
        while k < free_symbols.len()
            invariant
                k <= free_symbols@.len(),
                free == symbol_views(free_symbols@),
                self.wf(),
                self@.scopes.len() == old(self)@.scopes.len(),
                old(self).tidy() ==> self.tidy() && self.extends(*old(self)),
                (self@, None::<CompileFailure>) == load_symbols(old(self)@, free, k as nat),
            decreases free_symbols@.len() - k,
        {
            let ghost before = *self;
            let loaded = self.load_symbol(&free_symbols[k]);
            proof {
                if old(self).tidy() {
                    lemma_extends_transitive(*old(self), before, *self);
                }
            }
            match loaded {
                Err(e) => {
                    proof {
                        lemma_load_symbols_fails(old(self)@, free, k as nat + 1, free.len());
                    }
                    return Err(e);
                },
                Ok(()) => {},
            }
            k += 1;
        }
        let constant_index = self.add_constant(AllObjects::CompiledFunction(function));
        let count: usize = free_symbols.len();
        let ghost loaded = *self;
        proof {
            if old(self).tidy() {
                assert(loaded.tidy());
                assert(loaded.extends(*old(self)));
            }
        }
        if constant_index >= 65536 {
            return Err(
                CompileError::OperandOutOfRange { opcode: OP_CLOSURE, operand: constant_index },
            );
        }
        if count >= 256 {
            return Err(CompileError::OperandOutOfRange { opcode: OP_CLOSURE, operand: count });
        }
        let mut operands: Vec<usize> = Vec::new();
        operands.push(constant_index);
        operands.push(count);
        assert(operands@ =~= seq![constant_index, count]);
        self.emit(OP_CLOSURE, operands.as_slice());
        proof {
            if old(self).tidy() {
                lemma_extends_active(loaded, *self);
                lemma_extends_transitive(*old(self), loaded, *self);
            }
        }
        Ok(())
    }

    /// Compiles a function literal in a scope of its own and emits the
    /// closure of the compiled function. `name` is the name that the
    /// function is bound to, if it is known.
    pub fn compile_function_literals(&mut self, expr: &FunctionLiteral, name: Option<&str>) -> (r:
        Result<(), CompileError>)
        requires
            old(self).wf(),
        ensures
            final(self).wf(),
            outcome(final(self)@, r) == compile_function(
                old(self)@,
                *expr,
                match name {
                    Some(n) => Some(n@),
                    None => None,
                },
            ),
            r is Ok ==> final(self)@.scopes.len() == old(self)@.scopes.len(),
            old(self).tidy() ==> final(self).tidy(),
            old(self).tidy() && r is Ok ==> final(self).extends(*old(self)),
        decreases expr,
    {
        self.begin_function(&expr.parameters, name);
        let ghost begun = *self;
        match self.compile_statements(&expr.body.statements) {
            Err(e) => {
                return Err(e);
            },
            Ok(()) => {},
        }
        let ghost body = *self;
        self.end_function();
        let ghost ended = *self;
        let num_locals: usize = self.symbol_table.table.num_definitions;
        let mut free_symbols: Vec<Symbol> = Vec::new();
        std::mem::swap(&mut free_symbols, &mut self.symbol_table.free_symbols);
        let fn_instructions = self.leave_scope();
        let ghost left = *self;
        proof {
            if old(self).tidy() {
                assert(left.scopes@.len() == old(self).scopes@.len());
                assert forall|i: int| 0 <= i < left.scopes@.len() implies is_prefix(
                    old(self).scopes@[i].emitted@,
                    #[trigger] left.scopes@[i].emitted@,
                ) by {
                    assert(left.scopes@[i] == ended.scopes@.drop_last()[i]);
                    assert(ended.scopes@[i] == body.scopes@[i]);
                    assert(begun.scopes@.drop_last()[i] == old(self).scopes@[i]);
                    assert(is_prefix(begun.scopes@[i].emitted@, body.scopes@[i].emitted@));
                }
                assert(left.extends(*old(self)));
            }
        }
        let function = CompiledFunctionObj::new(fn_instructions, expr.parameters.len(), num_locals);
        let r = self.emit_closure_of(function, &free_symbols);
        proof {
            if old(self).tidy() {
                lemma_extends_transitive(*old(self), left, *self);
            }
        }
        r
    }

    /// Compiles the condition of a conditional and the jump over the
    /// consequence. Returns the position of the jump.
    pub fn compile_if_condition(&mut self, expr: &IfExpression) -> (r: Result<usize, CompileError>)
        requires
            old(self).wf(),
        ensures
            final(self).wf(),
            r is Ok ==> final(self)@.scopes.len() == old(self)@.scopes.len(),
            match expr.condition {
                None => r is Err && outcome(final(self)@, Err(r->Err_0)) == (
                    old(self)@,
                    Some(CompileFailure::MissingCondition),
                ),
                Some(condition) => {
                    let (tested, failure) = compile_expression(old(self)@, *condition);
                    if failure is Some {
                        r is Err && outcome(final(self)@, Err(r->Err_0)) == (tested, failure)
                    } else {
                        r is Ok && r->Ok_0 == tested.scope().instructions.len() && final(self)@
                            == tested.emit(OP_JUMP_NOT_TRUTHY, seq![9999usize])
                    }
                },
            },
            old(self).tidy() ==> final(self).tidy(),
            old(self).tidy() && r is Ok ==> final(self).extends(*old(self)) && jump_at_end(
                final(self).emitted(),
                r->Ok_0 as int,
            ) && final(self).emitted().len() > old(self).emitted().len() && final(
                self).emitted().last().0 == OP_JUMP_NOT_TRUTHY,
        decreases expr, 0nat,
    {
        let condition = match &expr.condition {
            None => {
                return Err(CompileError::MissingCondition);
            },
            Some(e) => e,
        };
        match self.compile_expression(condition) {
            Err(e) => {
                return Err(e);
            },
            Ok(()) => {},
        }
        let ghost tested = *self;
        let mut placeholder: Vec<usize> = Vec::new();
        placeholder.push(9999);
        assert(placeholder@ =~= seq![9999usize]);
        let position = self.emit(OP_JUMP_NOT_TRUTHY, placeholder.as_slice());
        proof {
            if old(self).tidy() {
                lemma_extends_active(tested, *self);
                lemma_extends_transitive(*old(self), tested, *self);
                assert(scope_tidy(tested.scopes@[tested.scopes@.len() - 1]));
                assert(self.emitted().take(self.emitted().len() - 1) =~= tested.emitted());
            }
        }
        Ok(position)
    }

    /// Compiles a block whose value stays on the stack: its statements,
    /// without a POP at its end.
    pub(crate) fn compile_branch(&mut self, block: &BlockStatement, Ghost(jump): Ghost<int>) -> (r: Result<
        (),
        CompileError,
    >)
        requires
            old(self).wf(),
        ensures
            final(self).wf(),
            r is Ok ==> final(self)@.scopes.len() == old(self)@.scopes.len(),
            ({
                let (compiled, failure) = compile_block(
                    old(self)@,
                    block.statements@,
                    block.statements@.len(),
                );
                outcome(final(self)@, r) == if failure is Some {
                    (compiled, failure)
                } else {
                    (without_last_pop(compiled), None)
                }
            }),
            old(self).tidy() ==> final(self).tidy(),
            old(self).tidy() && r is Ok && jump_at_end(old(self).emitted(), jump) ==> final(
                self).extends(*old(self)),
        decreases block, 0nat,
    {
        match self.compile_statements(&block.statements) {
            Err(e) => {
                return Err(e);
            },
            Ok(()) => {},
        }
        let ghost compiled = *self;
        self.remove_pop();
        proof {
            if old(self).tidy() && jump_at_end(old(self).emitted(), jump) {
                let base = old(self).emitted();
                let grown = compiled.emitted();
                let trimmed = self.emitted();
                assert(is_prefix(base, grown));
                if trimmed != grown {
                    if grown.len() == base.len() {
                        assert(grown[grown.len() - 1] == base[base.len() - 1]);
                    }
                }
                assert(is_prefix(base, trimmed));
                assert forall|i: int| 0 <= i < self.scopes@.len() implies is_prefix(
                    old(self).scopes@[i].emitted@,
                    #[trigger] self.scopes@[i].emitted@,
                ) by {
                    if i < self.scopes@.len() - 1 {
                        assert(self.scopes@[i] == compiled.scopes@[i]);
                        assert(is_prefix(
                            old(self).scopes@[i].emitted@,
                            compiled.scopes@[i].emitted@,
                        ));
                    }
                }
            }
        }
        Ok(())
    }

    /// Writes the current end of the instructions into the jump at
    /// `position`.
    pub(crate) fn land_jump(&mut self, position: usize, Ghost(index): Ghost<int>) -> (r: Result<
        (),
        CompileError,
    >)
        requires
            old(self).wf(),
        ensures
            final(self).wf(),
            final(self)@.scopes.len() == old(self)@.scopes.len(),
            outcome(final(self)@, r) == patched(
                old(self)@,
                position,
                old(self)@.scope().instructions.len() as usize,
            ),
            old(self).tidy() && 0 <= index < old(self).emitted().len() && offset_of(
                old(self).emitted(),
                index,
            ) == position && old(self).emitted()[index].0 != OP_CONSTANT ==> final(self).tidy()
                && final(self).same_outer_scopes(*old(self))
                && final(self).emitted().len() == old(self).emitted().len() && (forall|i: int|
                0 <= i < old(self).emitted().len() ==> #[trigger] final(self).emitted()[i].0
                    == old(self).emitted()[i].0 && (i != index ==> final(self).emitted()[i]
                    == old(self).emitted()[i])) && (r is Ok ==> final(self).emitted()[index] == (
                old(self).emitted()[index].0,
                seq![old(self)@.scope().instructions.len() as usize],
            )),
    {
        let target: usize = self.current_instructions().len();
        let r = self.change_operand(position, target);
        proof {
            let e = old(self).emitted();
            if old(self).tidy() && 0 <= index < e.len() && offset_of(e, index) == position
                && e[index].0 != OP_CONSTANT {
                assert(scope_tidy(old(self).scopes@[old(self).scopes@.len() - 1]));
                assert(is_boundary(e, position as int));
                assert forall|i: int| 0 <= i < e.len() && i != index implies offset_of(e, i)
                    != position by {
                    if i < index {
                        lemma_offsets_increasing(e, i, index);
                    } else {
                        lemma_offsets_increasing(e, index, i);
                    }
                }
            }
        }
        r
    }

    /// Compiles a conditional.
    pub fn compile_if_expression(&mut self, expr: &IfExpression) -> (r: Result<(), CompileError>)
        requires
            old(self).wf(),
        ensures
            final(self).wf(),
            outcome(final(self)@, r) == compile_if(old(self)@, *expr),
            r is Ok ==> final(self)@.scopes.len() == old(self)@.scopes.len(),
            old(self).tidy() ==> final(self).tidy(),
            old(self).tidy() && r is Ok ==> final(self).extends(*old(self)),
            old(self).tidy() && r is Ok ==> conditional_jumps(
                old(self).emitted(),
                final(self).emitted(),
            ),
        decreases expr, 1nat,
    {
        let jump_not_truthy_position = match self.compile_if_condition(expr) {
            Err(e) => {
                return Err(e);
            },
            Ok(position) => position,
        };
        let ghost tested = *self;
        let ghost skip = tested.emitted().len() - 1;
        match self.compile_branch(&expr.consequence, Ghost(jump_not_truthy_position as int)) {
            Err(e) => {
                return Err(e);
            },
            Ok(()) => {},
        }
        let ghost valued = *self;
        let mut placeholder: Vec<usize> = Vec::new();
        placeholder.push(9999);
        assert(placeholder@ =~= seq![9999usize]);
        let jump_position = self.emit(OP_JUMP, placeholder.as_slice());
        let ghost jumped = *self;
        let ghost leave = valued.emitted().len() as int;
        proof {
            if old(self).tidy() {
                assert(scope_tidy(valued.scopes@[valued.scopes@.len() - 1]));
                assert(jumped.emitted().take(leave) =~= valued.emitted());
                lemma_extends_active(valued, jumped);
                lemma_prefix_offset(tested.emitted(), valued.emitted(), skip);
                lemma_prefix_offset(valued.emitted(), jumped.emitted(), skip);
            }
        }
        match self.land_jump(jump_not_truthy_position, Ghost(skip)) {
            Err(e) => {
                return Err(e);
            },
            Ok(()) => {},
        }
        let ghost landed = *self;
        proof {
            if old(self).tidy() {
                assert(scope_tidy(jumped.scopes@[jumped.scopes@.len() - 1]));
                assert(scope_tidy(landed.scopes@[landed.scopes@.len() - 1]));
                lemma_same_opcodes_offset(jumped.emitted(), landed.emitted(), leave);
                assert(jump_at_end(landed.emitted(), jump_position as int));
            }
        }
        let alternative = match &expr.alternative {
            None => {
                self.emit_plain(OP_NULL);
                Ok(())
            },
            Some(block) => self.compile_branch(block, Ghost(jump_position as int)),
        };
        match alternative {
            Err(e) => {
                return Err(e);
            },
            Ok(()) => {},
        }
        let ghost finished = *self;
        proof {
            if old(self).tidy() {
                lemma_prefix_offset(landed.emitted(), finished.emitted(), leave);
            }
        }
        let r = self.land_jump(jump_position, Ghost(leave));
        proof {
            if old(self).tidy() && r is Ok {
                assert forall|i: int| 0 <= i < self.scopes@.len() implies is_prefix(
                    old(self).scopes@[i].emitted@,
                    #[trigger] self.scopes@[i].emitted@,
                ) by {
                    assert(is_prefix(old(self).scopes@[i].emitted@, tested.scopes@[i].emitted@));
                    assert(is_prefix(tested.scopes@[i].emitted@, valued.scopes@[i].emitted@));
                    assert(is_prefix(valued.scopes@[i].emitted@, jumped.scopes@[i].emitted@));
                    assert(is_prefix(landed.scopes@[i].emitted@, finished.scopes@[i].emitted@));
                    if i < self.scopes@.len() - 1 {
                        assert(landed.scopes@[i] == jumped.scopes@[i]);
                        assert(self.scopes@[i] == finished.scopes@[i]);
                    } else {
                        let e0 = old(self).emitted();
                        let e9 = self.emitted();
                        assert forall|k: int| 0 <= k < e0.len() implies #[trigger] e9[k]
                            == e0[k] by {
                            assert(tested.emitted()[k] == e0[k]);
                            assert(valued.emitted()[k] == tested.emitted()[k]);
                            assert(jumped.emitted()[k] == valued.emitted()[k]);
                            assert(landed.emitted()[k] == jumped.emitted()[k]);
                            assert(finished.emitted()[k] == landed.emitted()[k]);
                            assert(e9[k] == finished.emitted()[k]);
                        }
                    }
                }
                let top = self.scopes@.len() - 1;
                let e0 = old(self).emitted();
                let e9 = self.emitted();
                assert(is_prefix(e0, tested.emitted()));
                assert(is_prefix(landed.emitted(), finished.emitted()));
                assert(e9[skip] == finished.emitted()[skip]);
                assert(finished.emitted()[skip] == landed.emitted()[skip]);
                assert(e9[leave].0 == finished.emitted()[leave].0);
                assert(finished.emitted()[leave] == landed.emitted()[leave]);
                assert(landed.emitted()[leave] == jumped.emitted()[leave]);
                assert(scope_tidy(self.scopes@[top]));
                assert(scope_tidy(finished.scopes@[top]));
                assert(scope_tidy(jumped.scopes@[top]));
                assert(jumped.emitted().len() == leave + 1);
                assert(jumped.emitted().take(leave + 1) =~= jumped.emitted());
                assert forall|k: int| 0 <= k < leave + 1 implies jumped.emitted()[k].0
                    == #[trigger] e9.take(leave + 1)[k].0 by {
                    assert(landed.emitted()[k].0 == jumped.emitted()[k].0);
                    assert(finished.emitted()[k] == landed.emitted()[k]);
                    assert(e9[k].0 == finished.emitted()[k].0);
                }
                assert forall|k: int| 0 <= k < leave + 1 implies crate::code::well_formed(
                    #[trigger] e9.take(leave + 1)[k],
                ) by {
                    assert(e9.take(leave + 1)[k] == e9[k]);
                }
                crate::code::lemma_assemble_len_by_opcodes(jumped.emitted(), e9.take(leave + 1));
                crate::code::lemma_assemble_len_by_opcodes(finished.emitted(), e9);
                assert(e0.len() <= skip);
                assert(conditional_jumps(e0, e9));
            }
        }
        r
    }

    /// Compiles an integer literal: a new constant and its load.
    pub fn compile_integer_literal(&mut self, v: &IntegerLiteral) -> (r: Result<(), CompileError>)
        requires
            old(self).wf(),
        ensures
            final(self).wf(),
            outcome(final(self)@, r) == compile_expression(
                old(self)@,
                AllExpressions::IntegerLiteral(*v),
            ),
            final(self)@.scopes.len() == old(self)@.scopes.len(),
            old(self).tidy() ==> final(self).tidy() && final(self).extends(*old(self)),
    {
        let integer = AllObjects::Integer(Integer { value: v.value });
        let constant_index = self.add_constant(integer);
        self.emit_checked(OP_CONSTANT, constant_index)
    }

    /// Compiles a string literal: a new constant and its load.
    pub fn compile_string_literal(&mut self, v: &StringLiteral) -> (r: Result<(), CompileError>)
        requires
            old(self).wf(),
        ensures
            final(self).wf(),
            outcome(final(self)@, r) == compile_expression(
                old(self)@,
                AllExpressions::StringLiteral(*v),
            ),
            final(self)@.scopes.len() == old(self)@.scopes.len(),
            old(self).tidy() ==> final(self).tidy() && final(self).extends(*old(self)),
    {
        let string_obj = AllObjects::StringObj(StringObj::new(v.value.as_str()));
        let constant_index = self.add_constant(string_obj);
        self.emit_checked(OP_CONSTANT, constant_index)
    }

    /// Compiles a boolean literal: TRUE or FALSE.
    pub fn compile_boolean_literal(&mut self, v: &BooleanLiteral) -> (r: Result<(), CompileError>)
        requires
            old(self).wf(),
        ensures
            final(self).wf(),
            outcome(final(self)@, r) == compile_expression(
                old(self)@,
                AllExpressions::Boolean(*v),
            ),
            final(self)@.scopes.len() == old(self)@.scopes.len(),
            old(self).tidy() ==> final(self).tidy() && final(self).extends(*old(self)),
    {
        if v.value {
            self.emit_plain(OP_TRUE);
        } else {
            self.emit_plain(OP_FALSE);
        }
        Ok(())
    }

    /// Compiles a call: the callee, the arguments in order, then CALL.
    pub fn compile_call_expressions(&mut self, v: &CallExpression) -> (r: Result<
        (),
        CompileError,
    >)
        requires
            old(self).wf(),
        ensures
            final(self).wf(),
            outcome(final(self)@, r) == compile_expression(
                old(self)@,
                AllExpressions::CallExpression(*v),
            ),
            r is Ok ==> final(self)@.scopes.len() == old(self)@.scopes.len(),
            old(self).tidy() ==> final(self).tidy(),
            old(self).tidy() && r is Ok ==> final(self).extends(*old(self)),
        decreases v,
    {
        match self.compile_expression(&v.function) {
            Err(e) => {
                return Err(e);
            },
            Ok(()) => {},
        }
        match self.compile_expression_list(&v.arguments) {
            Err(e) => {
                return Err(e);
            },
            Ok(()) => {},
        }
        self.emit_checked(OP_CALL, v.arguments.len())
    }

    /// Compiles an assignment: the value, then ASSIGN_GLOBAL with the index
    /// of the symbol that the name resolves to.
    pub fn compile_assignment_expression(&mut self, v: &AssignmentExpression) -> (r: Result<
        (),
        CompileError,
    >)
        requires
            old(self).wf(),
        ensures
            final(self).wf(),
            outcome(final(self)@, r) == compile_expression(
                old(self)@,
                AllExpressions::Assignment(*v),
            ),
            r is Ok ==> final(self)@.scopes.len() == old(self)@.scopes.len(),
            old(self).tidy() ==> final(self).tidy(),
            old(self).tidy() && r is Ok ==> final(self).extends(*old(self)),
        decreases v,
    {
        match self.compile_expression(&v.value) {
            Err(e) => {
                return Err(e);
            },
            Ok(()) => {},
        }
        let ghost before = self.symbol_table@;
        let resolved = match self.symbol_table.resolve(v.ident.value.as_str()) {
            None => {
                proof {
                    lemma_resolve_keeps_depth(before, v.ident.value@);
                }
                return Err(CompileError::AssignToUndefined(v.ident.value.clone()));
            },
            Some(s) => s,
        };
        proof {
            lemma_resolve_keeps_depth(before, v.ident.value@);
        }
        self.emit_checked(OP_ASSIGN_GLOBAL, resolved.index)
    }
}

/// Resolving a name leaves the number of enclosing scopes as it is.
pub proof fn lemma_resolve_keeps_depth(t: crate::compiler::symbol_table::TableView, name: Seq<char>)
    ensures
        crate::compiler::symbol_table::table_depth(resolve_symbol(t, name).0)
            == crate::compiler::symbol_table::table_depth(t),
    decreases t,
{
    if !t.store.contains_key(name) {
        match t.outer {
            None => {},
            Some(outer) => {
                lemma_resolve_keeps_depth(*outer, name);
            },
        }
    }
}


/// Compiling pairs in an order depends on nothing but the pairs as they
/// come in that order.
proof fn lemma_compile_pairs_by_order(
    c: CompilerModel,
    first: Seq<(AllExpressions, AllExpressions)>,
    first_order: Seq<int>,
    second: Seq<(AllExpressions, AllExpressions)>,
    second_order: Seq<int>,
    k: nat,
)
    requires
        first_order.len() == second_order.len(),
        k <= first_order.len(),
        forall|x: int|
            0 <= x < first_order.len() ==> 0 <= #[trigger] first_order[x] < first.len() && 0
                <= second_order[x] < second.len() && first[first_order[x]]
                == second[second_order[x]],
    ensures
        compile_pairs(c, first, first_order, k) == compile_pairs(c, second, second_order, k),
    decreases k,
{
    if k > 0 {
        lemma_compile_pairs_by_order(c, first, first_order, second, second_order, (k - 1) as nat);
        assert(0 <= first_order[k - 1] < first.len());
    }
}

/// The instructions of a hash literal do not depend on the order in which
/// its pairs are given: two hash literals, of which the second holds the
/// pairs of the first rearranged by `perm`, compile to the same
/// instructions and constants from every state of the compiler, where no
/// two keys have the same text.
pub proof fn lemma_hash_literal_order_independent(
    c: CompilerModel,
    first: HashLiteral,
    second: HashLiteral,
    perm: Seq<int>,
)
    requires
        distinct_key_texts(first.pairs@),
        is_permutation(perm, first.pairs@.len()),
        second.pairs@.len() == first.pairs@.len(),
        forall|i: int| 0 <= i < second.pairs@.len() ==> second.pairs@[i] == first.pairs@[perm[i]],
    ensures
        compile_expression(c, AllExpressions::HashLiteral(first)) == compile_expression(
            c,
            AllExpressions::HashLiteral(second),
        ),
{
    let p = first.pairs@;
    let q = second.pairs@;
    let order_p = emission_order(p);
    let order_q = emission_order(q);
    lemma_ordered_pairs_of_rearranged(p, q, perm);
    lemma_sorted_indices(key_bytes(p), p.len());
    lemma_sorted_indices(key_bytes(q), q.len());
    assert forall|x: int| 0 <= x < order_p.len() implies 0 <= #[trigger] order_p[x] < p.len() && 0
        <= order_q[x] < q.len() && p[order_p[x]] == q[order_q[x]] by {
        assert(occurs(order_p, order_p[x]));
        assert(occurs(order_q, order_q[x]));
        assert(ordered_pairs(p)[x] == ordered_pairs(q)[x]);
    }
    lemma_compile_pairs_by_order(c, p, order_p, q, order_q, order_p.len());
}

} // verus!
