use monkey::ast::{
    AllExpressions, AllNodes, AllStatements, CallExpression, ExpressionStatement, Identifier,
    InfixExpression, IntegerLiteral, LetStatement, Program, StringLiteral,
};
use monkey::compiler::symbol_table::SymbolTable;
use monkey::compiler::Compiler;
use monkey::object::heap::Heap;
use monkey::repl::{
    execute_line_for_repl, execute_program, resume, write_parser_errors, Action, Line, Start,
    MONKEY_FACE, PROMPT,
};
use monkey::vm::VM;

fn number(value: i64) -> AllExpressions {
    AllExpressions::IntegerLiteral(IntegerLiteral { value })
}

fn name(value: &str) -> AllExpressions {
    AllExpressions::Identifier(Identifier { value: value.to_string() })
}

fn infix(operator: &str, left: AllExpressions, right: AllExpressions) -> AllExpressions {
    AllExpressions::InfixExpression(InfixExpression {
        operator: operator.to_string(),
        left: Some(Box::new(left)),
        right: Some(Box::new(right)),
    })
}

fn call(function: &str, arguments: Vec<AllExpressions>) -> AllExpressions {
    AllExpressions::CallExpression(CallExpression { function: Box::new(name(function)), arguments })
}

fn statement(expression: AllExpressions) -> AllStatements {
    AllStatements::Expression(ExpressionStatement { expression: Some(Box::new(expression)) })
}

fn define(variable: &str, value: AllExpressions) -> AllStatements {
    AllStatements::Let(LetStatement {
        name: Identifier { value: variable.to_string() },
        value: Box::new(value),
    })
}

fn program(statements: Vec<AllStatements>) -> AllNodes {
    AllNodes::Program(Program { statements })
}

/// Runs the machine to its end and returns what it printed, how long it
/// slept, and the report.
fn drive(vm: &mut VM) -> (String, u64, String) {
    let mut printed = String::new();
    let mut slept = 0;
    loop {
        assert!(vm.is_well_formed());
        match resume(vm) {
            Action::Print(text) => printed.push_str(&text),
            Action::Sleep(seconds) => slept += seconds,
            Action::Done(report) => return (printed, slept, report),
        }
    }
}

#[test]
fn parser_errors_are_listed_below_the_face() {
    let errors = vec!["no prefix parse function".to_string(), "expected )".to_string()];
    let expected = format!(
        "{}\nWoops! We ran into some monkey business here 🥴\nparser Errors:\n\t- no prefix parse function\n\t- expected )\n",
        MONKEY_FACE
    );
    assert_eq!(write_parser_errors(&errors), expected);
    assert!(write_parser_errors(&vec![]).ends_with("parser Errors:\n"));
    assert_eq!(PROMPT, ">> ");
}

#[test]
fn a_program_is_compiled_run_and_reported() {
    let source = program(vec![
        statement(call("print", vec![number(1), number(2)])),
        statement(call("sleep", vec![number(3)])),
        statement(infix("+", number(40), number(2))),
    ]);
    match execute_program(&source) {
        Start::Ready(mut vm) => {
            assert_eq!(drive(&mut vm), ("1 2".to_string(), 3, "42\n".to_string()));
        }
        Start::Failed(report) => panic!("{report}"),
    }
}

#[test]
fn failures_are_reported() {
    match execute_program(&program(vec![statement(name("missing"))])) {
        Start::Failed(report) => {
            assert_eq!(report, "Woops! Compilation failed:\n undefined variable missing\n")
        }
        Start::Ready(_) => panic!("expected a compile error"),
    }
    match execute_program(&program(vec![statement(infix("/", number(1), number(0)))])) {
        Start::Ready(mut vm) => {
            let (_, _, report) = drive(&mut vm);
            assert_eq!(report, "Woops! Executing bytecode failed:\n division by zero\n");
        }
        Start::Failed(report) => panic!("{report}"),
    }
    match execute_program(&program(vec![define("a", number(1))])) {
        Start::Ready(mut vm) => {
            let (_, _, report) = drive(&mut vm);
            assert_eq!(report, "Woops! Stack top is empty\n");
        }
        Start::Failed(report) => panic!("{report}"),
    }
}

#[test]
fn a_line_goes_on_from_the_lines_before_it() {
    let first = program(vec![define(
        "greeting",
        AllExpressions::StringLiteral(StringLiteral { value: "hello".to_string() }),
    )]);
    let (constants, globals, heap, symbols) =
        match execute_line_for_repl(&first, vec![], vec![], Heap::new(), SymbolTable::new()) {
            Line::Accepted { mut vm, constants, symbol_table } => {
                let (_, _, report) = drive(&mut vm);
                assert_eq!(report, "Woops! Stack top is empty\n");
                (constants, vm.globals, vm.heap, symbol_table)
            }
            Line::Rejected { report, .. } => panic!("{report}"),
        };
    assert_eq!(constants.len(), 1);
    assert_eq!(globals.len(), 1);
    assert!(symbols.is_well_formed());

    // a line that does not compile leaves the state to go on from
    let second = program(vec![statement(name("gretting"))]);
    let (constants, globals, heap, symbols) =
        match execute_line_for_repl(&second, constants, globals, heap, symbols) {
            Line::Rejected { report, constants, globals, heap, symbol_table } => {
                assert_eq!(report, "Woops! Compilation failed:\n undefined variable gretting\n");
                (constants, globals, heap, symbol_table)
            }
            Line::Accepted { .. } => panic!("expected a compile error"),
        };
    assert_eq!(constants.len(), 1);
    assert_eq!(globals.len(), 1);

    let third = program(vec![statement(infix(
        "+",
        name("greeting"),
        AllExpressions::StringLiteral(StringLiteral { value: " world".to_string() }),
    ))]);
    match execute_line_for_repl(&third, constants, globals, heap, symbols) {
        Line::Accepted { mut vm, constants, .. } => {
            let (_, _, report) = drive(&mut vm);
            assert_eq!(report, "hello world\n");
            assert_eq!(constants.len(), 2);
        }
        Line::Rejected { report, .. } => panic!("{report}"),
    }
}

#[test]
fn well_formedness_can_be_checked() {
    let compiler = Compiler::new();
    assert!(compiler.is_well_formed());
    let mut broken = Compiler::new();
    broken.scope_index = 3;
    assert!(!broken.is_well_formed());
    let mut nested = Compiler::new();
    nested.enter_scope();
    assert!(nested.is_well_formed());
    assert!(nested.symbol_table.encloses(1));
    assert!(!nested.symbol_table.encloses(2));
    nested.symbol_table = SymbolTable::new();
    assert!(!nested.is_well_formed());

    let mut table = SymbolTable::new();
    assert!(table.is_well_formed());
    let repeated = table.table.store[0].duplicate();
    table.table.store.push(repeated);
    assert!(!table.is_well_formed());
}
