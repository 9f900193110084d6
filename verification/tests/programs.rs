use monkey::ast::{
    AllExpressions, AllNodes, AllStatements, ArrayLiteral, AssignmentExpression, BlockStatement,
    BooleanLiteral, CallExpression, ExpressionStatement, FunctionLiteral, HashLiteral, Identifier,
    IfExpression, IndexExpression, InfixExpression, IntegerLiteral, LetStatement,
    PrefixExpression, Program, ReturnStatement, StringLiteral, WhileStatement,
};
use monkey::code::{
    disassemble, make, Instructions, OP_ADD, OP_ARRAY, OP_ASSIGN_GLOBAL, OP_BANG, OP_CALL,
    OP_CLOSURE, OP_CONSTANT, OP_CURRENT_CLOSURE, OP_DIV, OP_EQUAL, OP_FALSE, OP_GET_BUILTIN,
    OP_GET_FREE, OP_GET_GLOBAL, OP_GET_LOCAL, OP_GREATER_THAN, OP_HASH, OP_INDEX, OP_JUMP,
    OP_JUMP_NOT_TRUTHY, OP_MINUS, OP_MUL, OP_NOT_EQUAL, OP_NULL, OP_POP, OP_RETURN,
    OP_RETURN_VALUE, OP_SET_GLOBAL, OP_SET_LOCAL, OP_SUB, OP_TRUE,
};
use monkey::compiler::symbol_table::SymbolTable;
use monkey::compiler::{ByteCode, CompileError, Compiler};
use monkey::error::RuntimeError;
use monkey::object::builtins::Effect;
use monkey::object::heap::Heap;
use monkey::object::objects::{Builtin, CompiledFunctionObj, Integer};
use monkey::object::{AllObjects, ObjectType};
use monkey::vm::VM;

// ---------------------------------------------------------------------------
// A small reader of source text, so that the tests can state their programs
// as text.
// ---------------------------------------------------------------------------

#[derive(Clone, Debug, PartialEq)]
enum Token {
    Int(i64),
    Str(String),
    Ident(String),
    Sym(&'static str),
    End,
}

fn tokens(input: &str) -> Vec<Token> {
    let chars: Vec<char> = input.chars().collect();
    let mut out = Vec::new();
    let mut i = 0;
    while i < chars.len() {
        let c = chars[i];
        if c.is_whitespace() {
            i += 1;
        } else if c.is_ascii_digit() {
            let start = i;
            while i < chars.len() && chars[i].is_ascii_digit() {
                i += 1;
            }
            let text: String = chars[start..i].iter().collect();
            out.push(Token::Int(text.parse().unwrap()));
        } else if c.is_alphabetic() || c == '_' {
            let start = i;
            while i < chars.len() && (chars[i].is_alphanumeric() || chars[i] == '_') {
                i += 1;
            }
            out.push(Token::Ident(chars[start..i].iter().collect()));
        } else if c == '"' {
            let start = i + 1;
            i += 1;
            while i < chars.len() && chars[i] != '"' {
                i += 1;
            }
            out.push(Token::Str(chars[start..i].iter().collect()));
            i += 1;
        } else {
            let two: String = chars[i..(i + 2).min(chars.len())].iter().collect();
            if two == "==" {
                out.push(Token::Sym("=="));
                i += 2;
            } else if two == "!=" {
                out.push(Token::Sym("!="));
                i += 2;
            } else {
                let sym = match c {
                    '=' => "=",
                    '+' => "+",
                    '-' => "-",
                    '!' => "!",
                    '*' => "*",
                    '/' => "/",
                    '<' => "<",
                    '>' => ">",
                    ',' => ",",
                    ';' => ";",
                    ':' => ":",
                    '(' => "(",
                    ')' => ")",
                    '{' => "{",
                    '}' => "}",
                    '[' => "[",
                    ']' => "]",
                    other => panic!("unexpected character {other}"),
                };
                out.push(Token::Sym(sym));
                i += 1;
            }
        }
    }
    out.push(Token::End);
    out
}

struct Reader {
    tokens: Vec<Token>,
    at: usize,
}

const LOWEST: u8 = 1;
const EQUALS: u8 = 2;
const LESS_GREATER: u8 = 3;
const SUM: u8 = 4;
const PRODUCT: u8 = 5;
const PREFIX: u8 = 6;
const CALL: u8 = 7;
const INDEX: u8 = 8;

impl Reader {
    fn peek(&self) -> &Token {
        &self.tokens[self.at]
    }

    fn next(&mut self) -> Token {
        let t = self.tokens[self.at].clone();
        if self.at + 1 < self.tokens.len() {
            self.at += 1;
        }
        t
    }

    fn is_sym(&self, sym: &str) -> bool {
        matches!(self.peek(), Token::Sym(s) if *s == sym)
    }

    fn is_word(&self, word: &str) -> bool {
        matches!(self.peek(), Token::Ident(s) if s == word)
    }

    fn expect(&mut self, sym: &str) {
        assert!(self.is_sym(sym), "expected {sym}, found {:?}", self.peek());
        self.next();
    }

    fn skip_semicolons(&mut self) {
        while self.is_sym(";") {
            self.next();
        }
    }

    fn program(&mut self) -> Program {
        let mut statements = Vec::new();
        self.skip_semicolons();
        while *self.peek() != Token::End {
            statements.push(self.statement());
            self.skip_semicolons();
        }
        Program { statements }
    }

    fn block(&mut self) -> BlockStatement {
        self.expect("{");
        let mut statements = Vec::new();
        self.skip_semicolons();
        while !self.is_sym("}") {
            statements.push(self.statement());
            self.skip_semicolons();
        }
        self.expect("}");
        BlockStatement { statements }
    }

    fn statement(&mut self) -> AllStatements {
        if self.is_word("let") {
            self.next();
            let name = match self.next() {
                Token::Ident(n) => n,
                other => panic!("expected a name, found {other:?}"),
            };
            self.expect("=");
            let value = self.expression(LOWEST);
            AllStatements::Let(LetStatement {
                name: Identifier { value: name },
                value: Box::new(value),
            })
        } else if self.is_word("return") {
            self.next();
            let value = self.expression(LOWEST);
            AllStatements::Return(ReturnStatement { return_value: Box::new(value) })
        } else {
            let value = self.expression(LOWEST);
            AllStatements::Expression(ExpressionStatement { expression: Some(Box::new(value)) })
        }
    }

    fn precedence(&self) -> u8 {
        match self.peek() {
            Token::Sym("==") | Token::Sym("!=") => EQUALS,
            Token::Sym("<") | Token::Sym(">") => LESS_GREATER,
            Token::Sym("+") | Token::Sym("-") => SUM,
            Token::Sym("*") | Token::Sym("/") => PRODUCT,
            Token::Sym("(") => CALL,
            Token::Sym("[") => INDEX,
            _ => 0,
        }
    }

    fn list(&mut self, end: &str) -> Vec<AllExpressions> {
        let mut items = Vec::new();
        while !self.is_sym(end) {
            items.push(self.expression(LOWEST));
            if self.is_sym(",") {
                self.next();
            }
        }
        self.expect(end);
        items
    }

    fn prefix(&mut self) -> AllExpressions {
        match self.next() {
            Token::Int(value) => AllExpressions::IntegerLiteral(IntegerLiteral { value }),
            Token::Str(value) => AllExpressions::StringLiteral(StringLiteral { value }),
            Token::Ident(word) => match word.as_str() {
                "true" => AllExpressions::Boolean(BooleanLiteral { value: true }),
                "false" => AllExpressions::Boolean(BooleanLiteral { value: false }),
                "if" => {
                    self.expect("(");
                    let condition = self.expression(LOWEST);
                    self.expect(")");
                    let consequence = self.block();
                    let alternative = if self.is_word("else") {
                        self.next();
                        Some(self.block())
                    } else {
                        None
                    };
                    AllExpressions::IfExpression(IfExpression {
                        condition: Some(Box::new(condition)),
                        consequence,
                        alternative,
                    })
                }
                "fn" => {
                    self.expect("(");
                    let mut parameters = Vec::new();
                    while !self.is_sym(")") {
                        match self.next() {
                            Token::Ident(n) => parameters.push(Identifier { value: n }),
                            other => panic!("expected a parameter, found {other:?}"),
                        }
                        if self.is_sym(",") {
                            self.next();
                        }
                    }
                    self.expect(")");
                    let body = self.block();
                    AllExpressions::FunctionLiteral(FunctionLiteral { parameters, body })
                }
                _ => {
                    if self.is_sym("=") {
                        self.next();
                        let value = self.expression(LOWEST);
                        AllExpressions::Assignment(AssignmentExpression {
                            ident: Identifier { value: word },
                            value: Box::new(value),
                        })
                    } else {
                        AllExpressions::Identifier(Identifier { value: word })
                    }
                }
            },
            Token::Sym("!") => AllExpressions::PrefixExpression(PrefixExpression {
                operator: "!".to_string(),
                right: Some(Box::new(self.expression(PREFIX))),
            }),
            Token::Sym("-") => AllExpressions::PrefixExpression(PrefixExpression {
                operator: "-".to_string(),
                right: Some(Box::new(self.expression(PREFIX))),
            }),
            Token::Sym("(") => {
                let inner = self.expression(LOWEST);
                self.expect(")");
                inner
            }
            Token::Sym("[") => {
                AllExpressions::ArrayLiteral(ArrayLiteral { elements: self.list("]") })
            }
            Token::Sym("{") => {
                let mut pairs = Vec::new();
                while !self.is_sym("}") {
                    let key = self.expression(LOWEST);
                    self.expect(":");
                    let value = self.expression(LOWEST);
                    pairs.push((key, value));
                    if self.is_sym(",") {
                        self.next();
                    }
                }
                self.expect("}");
                AllExpressions::HashLiteral(HashLiteral { pairs })
            }
            other => panic!("no expression starts with {other:?}"),
        }
    }

    fn expression(&mut self, precedence: u8) -> AllExpressions {
        let mut left = self.prefix();
        while !self.is_sym(";") && precedence < self.precedence() {
            let level = self.precedence();
            match self.next() {
                Token::Sym("(") => {
                    left = AllExpressions::CallExpression(CallExpression {
                        function: Box::new(left),
                        arguments: self.list(")"),
                    });
                }
                Token::Sym("[") => {
                    let index = self.expression(LOWEST);
                    self.expect("]");
                    left = AllExpressions::IndexExpression(IndexExpression {
                        left: Box::new(left),
                        index: Box::new(index),
                    });
                }
                Token::Sym(operator) => {
                    let right = self.expression(level);
                    left = AllExpressions::InfixExpression(InfixExpression {
                        operator: operator.to_string(),
                        left: Some(Box::new(left)),
                        right: Some(Box::new(right)),
                    });
                }
                other => panic!("no operator: {other:?}"),
            }
        }
        left
    }
}

fn parse(input: &str) -> AllNodes {
    let mut reader = Reader { tokens: tokens(input), at: 0 };
    AllNodes::Program(reader.program())
}

// ---------------------------------------------------------------------------
// Expected values
// ---------------------------------------------------------------------------

#[derive(Clone, Debug, PartialEq, Eq)]
enum Literal {
    Int(i64),
    Bool(bool),
    Str(&'static str),
    Arr(Vec<Literal>),
    Pairs(Vec<(Literal, Literal)>),
    Null,
    Ins(Vec<Instructions>),
}

use Literal::{Arr, Bool, Ins, Int, Pairs, Str};

fn literal_text(l: &Literal) -> String {
    match l {
        Literal::Int(v) => v.to_string(),
        Literal::Bool(v) => v.to_string(),
        Literal::Str(v) => v.to_string(),
        Literal::Null => "null".to_string(),
        other => format!("{:?}", other),
    }
}

// input, expectedConstants, expectedInstructions
type CompilerTestCase<'a> = (&'a str, Vec<Literal>, Vec<Instructions>);

fn compile_program(input: &str) -> Result<ByteCode, CompileError> {
    let program = parse(input);
    let mut compiler = Compiler::new();
    compiler.compile(&program)?;
    Ok(compiler.byte_code())
}

fn run_compiler_tests(test_cases: Vec<CompilerTestCase>) {
    for tc in test_cases {
        let bytecode = match compile_program(tc.0) {
            Ok(b) => b,
            Err(e) => panic!("compiler error: {}", e.message()),
        };
        test_instructions(tc.2, &bytecode.instructions);
        test_constants(tc.1, &bytecode.constants);
    }
}

fn concat_instructions(s: Vec<Instructions>) -> Instructions {
    let mut out = Vec::new();
    for ins in s {
        out.extend_from_slice(&ins);
    }
    out
}

fn test_instructions(expected: Vec<Instructions>, actual: &Instructions) {
    let concatted = concat_instructions(expected);
    assert_eq!(
        concatted.len(),
        actual.len(),
        "want:\n{}got:\n{}",
        disassemble(&concatted),
        disassemble(actual)
    );

    for (i, ins) in concatted.into_iter().enumerate() {
        assert_eq!(actual[i], ins);
    }
}

fn test_constants(expected: Vec<Literal>, actual: &Vec<AllObjects>) {
    assert_eq!(expected.len(), actual.len());
    let heap = Heap::new();
    for (i, constant) in expected.into_iter().enumerate() {
        test_expected_object(constant, &actual[i], &heap);
    }
}

fn test_integer_object(expected: i64, actual: &AllObjects) {
    match actual {
        AllObjects::Integer(v) => assert_eq!(v.value, expected),
        other => panic!("expected an integer object, found {other:?}"),
    };
}

fn test_string_object(expected: &str, actual: &AllObjects) {
    match actual {
        AllObjects::StringObj(v) => assert_eq!(v.value, expected),
        other => panic!("expected a string object, found {other:?}"),
    }
}

fn test_boolean_object(expected: bool, actual: &AllObjects) {
    match actual {
        AllObjects::Boolean(v) => assert_eq!(v.value, expected),
        other => panic!("expected a boolean object, found {other:?}"),
    };
}

fn test_null_object(actual: &AllObjects) {
    match actual {
        AllObjects::Null(_) => {}
        other => panic!("expected a null object, found {other:?}"),
    }
}

fn test_array_literal(expected: Vec<Literal>, actual: &AllObjects, heap: &Heap) {
    let arr = match actual {
        AllObjects::ArrayObj(v) => v,
        other => panic!("expected an array object, found {other:?}"),
    };

    let elements = heap.array(arr.id).unwrap();
    assert_eq!(elements.len(), expected.len());

    for (i, expected_el) in expected.into_iter().enumerate() {
        let Some(actual_el) = elements.get(i) else {
            panic!("element at {i} should exist");
        };
        test_expected_object(expected_el, actual_el, heap);
    }
}

fn test_hash_literal(expected: Vec<(Literal, Literal)>, actual: &AllObjects, heap: &Heap) {
    let map_obj = match actual {
        AllObjects::HashMap(v) => v,
        other => panic!("expected a hash literal, found {other:?}"),
    };

    let map = heap.hash(map_obj.id).unwrap();
    let mut actual_keys: Vec<String> = map
        .iter()
        .map(|(key, _)| heap.inspect(key).unwrap())
        .collect();
    actual_keys.sort();

    let mut expected_keys: Vec<String> = expected.iter().map(|(k, _)| literal_text(k)).collect();
    expected_keys.sort();

    assert_eq!(actual_keys, expected_keys);

    for (key, actual_value) in map.iter() {
        let text = heap.inspect(key).unwrap();
        let (_, expected_value) = expected
            .iter()
            .find(|(k, _)| literal_text(k) == text)
            .unwrap(); // checked previously
        test_expected_object(expected_value.clone(), actual_value, heap);
    }
}

fn test_fn_instructions(expected: Vec<Instructions>, actual: &AllObjects) {
    let actual_ins = match actual {
        AllObjects::CompiledFunction(v) => v,
        other => panic!("expected fn instructions, found {other:?}"),
    };
    test_instructions(expected, &actual_ins.instructions);
}

fn test_expected_object(expected: Literal, actual: &AllObjects, heap: &Heap) {
    match expected {
        Literal::Int(v) => test_integer_object(v, actual),
        Literal::Bool(v) => test_boolean_object(v, actual),
        Literal::Str(v) => test_string_object(v, actual),
        Literal::Arr(v) => test_array_literal(v, actual, heap),
        Literal::Pairs(v) => test_hash_literal(v, actual, heap),
        Literal::Null => test_null_object(actual),
        Literal::Ins(v) => test_fn_instructions(v, actual),
    }
}

/// Runs the machine to its end; what the program prints is collected, and
/// nobody sleeps.
fn run_to_end(vm: &mut VM) -> Result<String, RuntimeError> {
    let mut printed = String::new();
    loop {
        vm.run()?;
        match vm.take_effect() {
            Some(Effect::Print(text)) => printed.push_str(&text),
            Some(Effect::Sleep(_)) => {}
            None => return Ok(printed),
        }
    }
}

fn run_program(input: &str) -> (VM, Result<String, RuntimeError>) {
    let bytecode = match compile_program(input) {
        Ok(b) => b,
        Err(e) => panic!("input: {}, compiler error:  {}", input, e.message()),
    };
    let mut vm = VM::new(bytecode);
    let outcome = run_to_end(&mut vm);
    (vm, outcome)
}

fn expect_result(input: &str, expected: Literal) {
    let (vm, outcome) = run_program(input);
    if let Err(e) = outcome {
        panic!("input: {}, vm error:  {}", input, e.message());
    }
    let stack_elem = vm.result();
    assert!(stack_elem.is_some(), "input: {input}: no result");
    test_expected_object(expected, stack_elem.unwrap(), &vm.heap);
}

fn expect_failure(input: &str) -> RuntimeError {
    let (_, outcome) = run_program(input);
    match outcome {
        Err(e) => e,
        Ok(_) => panic!("expected the program to fail: {input}"),
    }
}

// ---------------------------------------------------------------------------
// The compiler
// ---------------------------------------------------------------------------

#[test]
fn test_integer_arithmetic() {
    let test_cases = vec![
        (
            "1; 2",
            vec![Int(1), Int(2)],
            vec![
                make(OP_CONSTANT, &[0]),
                make(OP_POP, &[]),
                make(OP_CONSTANT, &[1]),
                make(OP_POP, &[]),
            ],
        ),
        (
            "11 + 25",
            vec![Int(11), Int(25)],
            vec![
                make(OP_CONSTANT, &[0]),
                make(OP_CONSTANT, &[1]),
                make(OP_ADD, &[]),
                make(OP_POP, &[]),
            ],
        ),
        (
            "13 - 18",
            vec![Int(13), Int(18)],
            vec![
                make(OP_CONSTANT, &[0]),
                make(OP_CONSTANT, &[1]),
                make(OP_SUB, &[]),
                make(OP_POP, &[]),
            ],
        ),
        (
            "7 * 8",
            vec![Int(7), Int(8)],
            vec![
                make(OP_CONSTANT, &[0]),
                make(OP_CONSTANT, &[1]),
                make(OP_MUL, &[]),
                make(OP_POP, &[]),
            ],
        ),
        (
            "2 / 1",
            vec![Int(2), Int(1)],
            vec![
                make(OP_CONSTANT, &[0]),
                make(OP_CONSTANT, &[1]),
                make(OP_DIV, &[]),
                make(OP_POP, &[]),
            ],
        ),
        (
            "-81",
            vec![Int(81)],
            vec![
                make(OP_CONSTANT, &[0]),
                make(OP_MINUS, &[]),
                make(OP_POP, &[]),
            ],
        ),
    ];

    run_compiler_tests(test_cases);
}

#[test]
fn test_boolean_expressions() {
    let test_cases: Vec<CompilerTestCase> = vec![
        ("true", vec![], vec![make(OP_TRUE, &[]), make(OP_POP, &[])]),
        (
            "false",
            vec![],
            vec![make(OP_FALSE, &[]), make(OP_POP, &[])],
        ),
        (
            "1 > 2",
            vec![Int(1), Int(2)],
            vec![
                make(OP_CONSTANT, &[0]),
                make(OP_CONSTANT, &[1]),
                make(OP_GREATER_THAN, &[]),
                make(OP_POP, &[]),
            ],
        ),
        (
            "1 < 2",
            vec![Int(2), Int(1)],
            vec![
                make(OP_CONSTANT, &[0]),
                make(OP_CONSTANT, &[1]),
                make(OP_GREATER_THAN, &[]),
                make(OP_POP, &[]),
            ],
        ),
        (
            "1 == 2",
            vec![Int(1), Int(2)],
            vec![
                make(OP_CONSTANT, &[0]),
                make(OP_CONSTANT, &[1]),
                make(OP_EQUAL, &[]),
                make(OP_POP, &[]),
            ],
        ),
        (
            "1 != 2",
            vec![Int(1), Int(2)],
            vec![
                make(OP_CONSTANT, &[0]),
                make(OP_CONSTANT, &[1]),
                make(OP_NOT_EQUAL, &[]),
                make(OP_POP, &[]),
            ],
        ),
        (
            "true == false",
            vec![],
            vec![
                make(OP_TRUE, &[]),
                make(OP_FALSE, &[]),
                make(OP_EQUAL, &[]),
                make(OP_POP, &[]),
            ],
        ),
        (
            "true != false",
            vec![],
            vec![
                make(OP_TRUE, &[]),
                make(OP_FALSE, &[]),
                make(OP_NOT_EQUAL, &[]),
                make(OP_POP, &[]),
            ],
        ),
        (
            "!true",
            vec![],
            vec![make(OP_TRUE, &[]), make(OP_BANG, &[]), make(OP_POP, &[])],
        ),
    ];
    run_compiler_tests(test_cases);
}

#[test]
fn test_conditionals() {
    let test_cases: Vec<CompilerTestCase> = vec![
        (
            "if (true) { 10; }; 3333;",
            vec![Int(10), Int(3333)],
            vec![
                make(OP_TRUE, &[]),              // 0000
                make(OP_JUMP_NOT_TRUTHY, &[10]), // 0001
                make(OP_CONSTANT, &[0]),         // 0004
                make(OP_JUMP, &[11]),            // 0007
                make(OP_NULL, &[]),              // 0010
                make(OP_POP, &[]),               // 0011
                make(OP_CONSTANT, &[1]),         // 0012
                make(OP_POP, &[]),               // 0015
            ],
        ),
        (
            "if (true) { 10; } else { 20 }; 3333;",
            vec![Int(10), Int(20), Int(3333)],
            vec![
                make(OP_TRUE, &[]),              // 0000
                make(OP_JUMP_NOT_TRUTHY, &[10]), // 0001
                make(OP_CONSTANT, &[0]),         // 0004
                make(OP_JUMP, &[13]),            // 0007
                make(OP_CONSTANT, &[1]),         // 0010
                make(OP_POP, &[]),               // 0013
                make(OP_CONSTANT, &[2]),         // 0014
                make(OP_POP, &[]),               // 0017
            ],
        ),
    ];
    run_compiler_tests(test_cases);
}

#[test]
fn test_global_let_statements() {
    let test_cases: Vec<CompilerTestCase> = vec![
        (
            "let one = 1;
                let two = 2;",
            vec![Int(1), Int(2)],
            vec![
                make(OP_CONSTANT, &[0]),
                make(OP_SET_GLOBAL, &[0]),
                make(OP_CONSTANT, &[1]),
                make(OP_SET_GLOBAL, &[1]),
            ],
        ),
        (
            "let one = 1;
                one;",
            vec![Int(1)],
            vec![
                make(OP_CONSTANT, &[0]),
                make(OP_SET_GLOBAL, &[0]),
                make(OP_GET_GLOBAL, &[0]),
                make(OP_POP, &[]),
            ],
        ),
        (
            "let one = 1;
                let two = one;
                two;",
            vec![Int(1)],
            vec![
                make(OP_CONSTANT, &[0]),
                make(OP_SET_GLOBAL, &[0]),
                make(OP_GET_GLOBAL, &[0]),
                make(OP_SET_GLOBAL, &[1]),
                make(OP_GET_GLOBAL, &[1]),
                make(OP_POP, &[]),
            ],
        ),
    ];
    run_compiler_tests(test_cases);
}

#[test]
fn test_string_expressions() {
    let test_cases: Vec<CompilerTestCase> = vec![
        (
            r#" "monkey" "#,
            vec![Str("monkey")],
            vec![make(OP_CONSTANT, &[0]), make(OP_POP, &[])],
        ),
        (
            r#" "mon" + "key" "#,
            vec![Str("mon"), Str("key")],
            vec![
                make(OP_CONSTANT, &[0]),
                make(OP_CONSTANT, &[1]),
                make(OP_ADD, &[]),
                make(OP_POP, &[]),
            ],
        ),
    ];

    run_compiler_tests(test_cases);
}

#[test]
fn test_array_literals() {
    let test_cases: Vec<CompilerTestCase> = vec![
        ("[]", vec![], vec![make(OP_ARRAY, &[0]), make(OP_POP, &[])]),
        (
            "[1, 2, 3]",
            vec![Int(1), Int(2), Int(3)],
            vec![
                make(OP_CONSTANT, &[0]),
                make(OP_CONSTANT, &[1]),
                make(OP_CONSTANT, &[2]),
                make(OP_ARRAY, &[3]),
                make(OP_POP, &[]),
            ],
        ),
        (
            "[1 + 2, 3 - 4, 5 * 6]",
            vec![Int(1), Int(2), Int(3), Int(4), Int(5), Int(6)],
            vec![
                make(OP_CONSTANT, &[0]),
                make(OP_CONSTANT, &[1]),
                make(OP_ADD, &[]),
                make(OP_CONSTANT, &[2]),
                make(OP_CONSTANT, &[3]),
                make(OP_SUB, &[]),
                make(OP_CONSTANT, &[4]),
                make(OP_CONSTANT, &[5]),
                make(OP_MUL, &[]),
                make(OP_ARRAY, &[3]),
                make(OP_POP, &[]),
            ],
        ),
    ];

    run_compiler_tests(test_cases);
}

#[test]
fn test_hash_literals() {
    let test_cases: Vec<CompilerTestCase> = vec![
        ("{}", vec![], vec![make(OP_HASH, &[0]), make(OP_POP, &[])]),
        (
            "{1: 2, 3: 4, 5: 6}",
            vec![Int(1), Int(2), Int(3), Int(4), Int(5), Int(6)],
            vec![
                make(OP_CONSTANT, &[0]),
                make(OP_CONSTANT, &[1]),
                make(OP_CONSTANT, &[2]),
                make(OP_CONSTANT, &[3]),
                make(OP_CONSTANT, &[4]),
                make(OP_CONSTANT, &[5]),
                make(OP_HASH, &[3]),
                make(OP_POP, &[]),
            ],
        ),
        (
            "{1: 2 + 3, 4: 5 * 6}",
            vec![Int(1), Int(2), Int(3), Int(4), Int(5), Int(6)],
            vec![
                make(OP_CONSTANT, &[0]),
                make(OP_CONSTANT, &[1]),
                make(OP_CONSTANT, &[2]),
                make(OP_ADD, &[]),
                make(OP_CONSTANT, &[3]),
                make(OP_CONSTANT, &[4]),
                make(OP_CONSTANT, &[5]),
                make(OP_MUL, &[]),
                make(OP_HASH, &[2]),
                make(OP_POP, &[]),
            ],
        ),
    ];
    run_compiler_tests(test_cases);
}

#[test]
fn test_index_expressions() {
    let test_cases: Vec<CompilerTestCase> = vec![
        (
            "[1, 2, 3][1 + 1]",
            vec![Int(1), Int(2), Int(3), Int(1), Int(1)],
            vec![
                make(OP_CONSTANT, &[0]),
                make(OP_CONSTANT, &[1]),
                make(OP_CONSTANT, &[2]),
                make(OP_ARRAY, &[3]),
                make(OP_CONSTANT, &[3]),
                make(OP_CONSTANT, &[4]),
                make(OP_ADD, &[]),
                make(OP_INDEX, &[]),
                make(OP_POP, &[]),
            ],
        ),
        (
            "{1: 2}[2 - 1]",
            vec![Int(1), Int(2), Int(2), Int(1)],
            vec![
                make(OP_CONSTANT, &[0]),
                make(OP_CONSTANT, &[1]),
                make(OP_HASH, &[1]),
                make(OP_CONSTANT, &[2]),
                make(OP_CONSTANT, &[3]),
                make(OP_SUB, &[]),
                make(OP_INDEX, &[]),
                make(OP_POP, &[]),
            ],
        ),
    ];
    run_compiler_tests(test_cases);
}

#[test]
fn test_function_literals() {
    let test_cases: Vec<CompilerTestCase> = vec![
        (
            "fn() { return 5 + 10 }",
            vec![
                Int(5),
                Int(10),
                Ins(vec![
                    make(OP_CONSTANT, &[0]),
                    make(OP_CONSTANT, &[1]),
                    make(OP_ADD, &[]),
                    make(OP_RETURN_VALUE, &[]),
                ]),
            ],
            vec![make(OP_CLOSURE, &[2, 0]), make(OP_POP, &[])],
        ),
        (
            "fn() { 5 + 10 }",
            vec![
                Int(5),
                Int(10),
                Ins(vec![
                    make(OP_CONSTANT, &[0]),
                    make(OP_CONSTANT, &[1]),
                    make(OP_ADD, &[]),
                    make(OP_RETURN_VALUE, &[]),
                ]),
            ],
            vec![make(OP_CLOSURE, &[2, 0]), make(OP_POP, &[])],
        ),
        (
            "fn() { }",
            vec![Ins(vec![make(OP_RETURN, &[])])],
            vec![make(OP_CLOSURE, &[0, 0]), make(OP_POP, &[])],
        ),
    ];
    run_compiler_tests(test_cases);
}

#[test]
fn test_compiler_scopes() {
    let mut compiler = Compiler::new();
    assert_eq!(compiler.scope_index, 0);

    compiler.emit(OP_MUL, &[]);
    assert_eq!(compiler.scopes[0].instructions.len(), 1);
    assert_eq!(compiler.scopes[0].last_instruction.opcode, OP_MUL);

    compiler.enter_scope();
    assert_eq!(compiler.scope_index, 1);
    assert!(compiler.symbol_table.outer.is_some());

    compiler.emit(OP_SUB, &[]);
    assert_eq!(compiler.scopes[1].instructions.len(), 1);
    assert_eq!(compiler.scopes[1].last_instruction.opcode, OP_SUB);

    compiler.leave_scope();
    assert_eq!(compiler.scopes.len(), 1);
    assert_eq!(compiler.scope_index, 0);
    assert!(compiler.symbol_table.outer.is_none());

    compiler.emit(OP_ADD, &[]);
    assert_eq!(compiler.scopes[0].instructions.len(), 2);
    assert_eq!(compiler.scopes[0].last_instruction.opcode, OP_ADD);
    assert_eq!(compiler.scopes[0].previous_instruction.opcode, OP_MUL);
}

#[test]
fn test_function_calls() {
    let test_cases: Vec<CompilerTestCase> = vec![
        (
            "fn() { 24 }()",
            vec![
                Int(24),
                Ins(vec![make(OP_CONSTANT, &[0]), make(OP_RETURN_VALUE, &[])]),
            ],
            vec![
                make(OP_CLOSURE, &[1, 0]),
                make(OP_CALL, &[0]),
                make(OP_POP, &[]),
            ],
        ),
        (
            "let noArg = fn() { 24 }; noArg()",
            vec![
                Int(24),
                Ins(vec![make(OP_CONSTANT, &[0]), make(OP_RETURN_VALUE, &[])]),
            ],
            vec![
                make(OP_CLOSURE, &[1, 0]),
                make(OP_SET_GLOBAL, &[0]),
                make(OP_GET_GLOBAL, &[0]),
                make(OP_CALL, &[0]),
                make(OP_POP, &[]),
            ],
        ),
    ];
    run_compiler_tests(test_cases);
}

#[test]
fn test_let_statement_scopes() {
    let test_cases: Vec<CompilerTestCase> = vec![
        (
            "let num = 55;
        fn() { num }",
            vec![
                Int(55),
                Ins(vec![make(OP_GET_GLOBAL, &[0]), make(OP_RETURN_VALUE, &[])]),
            ],
            vec![
                make(OP_CONSTANT, &[0]),
                make(OP_SET_GLOBAL, &[0]),
                make(OP_CLOSURE, &[1, 0]),
                make(OP_POP, &[]),
            ],
        ),
        (
            "fn() {
                    let num = 55;
                    num
                }",
            vec![
                Int(55),
                Ins(vec![
                    make(OP_CONSTANT, &[0]),
                    make(OP_SET_LOCAL, &[0]),
                    make(OP_GET_LOCAL, &[0]),
                    make(OP_RETURN_VALUE, &[]),
                ]),
            ],
            vec![make(OP_CLOSURE, &[1, 0]), make(OP_POP, &[])],
        ),
        (
            "fn() {
                    let a = 55;
                    let b = 77;
                    a+b
                }",
            vec![
                Int(55),
                Int(77),
                Ins(vec![
                    make(OP_CONSTANT, &[0]),
                    make(OP_SET_LOCAL, &[0]),
                    make(OP_CONSTANT, &[1]),
                    make(OP_SET_LOCAL, &[1]),
                    make(OP_GET_LOCAL, &[0]),
                    make(OP_GET_LOCAL, &[1]),
                    make(OP_ADD, &[]),
                    make(OP_RETURN_VALUE, &[]),
                ]),
            ],
            vec![make(OP_CLOSURE, &[2, 0]), make(OP_POP, &[])],
        ),
    ];
    run_compiler_tests(test_cases);
}

#[test]
fn test_global_assignments() {
    let test_cases: Vec<CompilerTestCase> = vec![
        (
            "let x = 10;
            x = 20;",
            vec![Int(10), Int(20)],
            vec![
                make(OP_CONSTANT, &[0]),
                make(OP_SET_GLOBAL, &[0]),
                make(OP_CONSTANT, &[1]),
                make(OP_ASSIGN_GLOBAL, &[0]),
                make(OP_POP, &[]),
            ],
        ),
        (
            "let x = 10;
                 fn() {
                    x = 30 + 50;
                 }",
            vec![
                Int(10),
                Int(30),
                Int(50),
                Ins(vec![
                    make(OP_CONSTANT, &[1]),
                    make(OP_CONSTANT, &[2]),
                    make(OP_ADD, &[]),
                    make(OP_ASSIGN_GLOBAL, &[0]),
                    make(OP_RETURN_VALUE, &[]),
                ]),
            ],
            vec![
                make(OP_CONSTANT, &[0]),
                make(OP_SET_GLOBAL, &[0]),
                make(OP_CLOSURE, &[3, 0]),
                make(OP_POP, &[]),
            ],
        ),
    ];
    run_compiler_tests(test_cases);
}

#[test]
fn test_builtins() {
    let test_cases: Vec<CompilerTestCase> = vec![
        (
            "
        len([]);
        push([], 1);",
            vec![Int(1)],
            vec![
                make(OP_GET_BUILTIN, &[1]),
                make(OP_ARRAY, &[0]),
                make(OP_CALL, &[1]),
                make(OP_POP, &[]),
                make(OP_GET_BUILTIN, &[3]),
                make(OP_ARRAY, &[0]),
                make(OP_CONSTANT, &[0]),
                make(OP_CALL, &[2]),
                make(OP_POP, &[]),
            ],
        ),
        (
            "fn() { len([]) }",
            vec![Ins(vec![
                make(OP_GET_BUILTIN, &[1]),
                make(OP_ARRAY, &[0]),
                make(OP_CALL, &[1]),
                make(OP_RETURN_VALUE, &[]),
            ])],
            vec![make(OP_CLOSURE, &[0, 0]), make(OP_POP, &[])],
        ),
    ];
    run_compiler_tests(test_cases);
}

#[test]
fn test_closures() {
    let test_cases: Vec<CompilerTestCase> = vec![
        (
            "fn(a) { fn(b) { a + b } }",
            vec![
                Ins(vec![
                    make(OP_GET_FREE, &[0]),
                    make(OP_GET_LOCAL, &[0]),
                    make(OP_ADD, &[]),
                    make(OP_RETURN_VALUE, &[]),
                ]),
                Ins(vec![
                    make(OP_GET_LOCAL, &[0]),
                    make(OP_CLOSURE, &[0, 1]),
                    make(OP_RETURN_VALUE, &[]),
                ]),
            ],
            vec![make(OP_CLOSURE, &[1, 0]), make(OP_POP, &[])],
        ),
        (
            "fn(a) { fn(b) { fn(c) { a + b + c } } }",
            vec![
                Ins(vec![
                    make(OP_GET_FREE, &[0]),
                    make(OP_GET_FREE, &[1]),
                    make(OP_ADD, &[]),
                    make(OP_GET_LOCAL, &[0]),
                    make(OP_ADD, &[]),
                    make(OP_RETURN_VALUE, &[]),
                ]),
                Ins(vec![
                    make(OP_GET_FREE, &[0]),
                    make(OP_GET_LOCAL, &[0]),
                    make(OP_CLOSURE, &[0, 2]),
                    make(OP_RETURN_VALUE, &[]),
                ]),
                Ins(vec![
                    make(OP_GET_LOCAL, &[0]),
                    make(OP_CLOSURE, &[1, 1]),
                    make(OP_RETURN_VALUE, &[]),
                ]),
            ],
            vec![make(OP_CLOSURE, &[2, 0]), make(OP_POP, &[])],
        ),
        (
            "let global = 55;
                fn() {
                    let a = 66;
                    fn() {
                        let b = 77;
                        fn() {
                            let c = 88;
                            global + a + b + c;
                        }
                    }
                }",
            vec![
                Int(55),
                Int(66),
                Int(77),
                Int(88),
                Ins(vec![
                    make(OP_CONSTANT, &[3]),
                    make(OP_SET_LOCAL, &[0]),
                    make(OP_GET_GLOBAL, &[0]),
                    make(OP_GET_FREE, &[0]),
                    make(OP_ADD, &[]),
                    make(OP_GET_FREE, &[1]),
                    make(OP_ADD, &[]),
                    make(OP_GET_LOCAL, &[0]),
                    make(OP_ADD, &[]),
                    make(OP_RETURN_VALUE, &[]),
                ]),
                Ins(vec![
                    make(OP_CONSTANT, &[2]),
                    make(OP_SET_LOCAL, &[0]),
                    make(OP_GET_FREE, &[0]),
                    make(OP_GET_LOCAL, &[0]),
                    make(OP_CLOSURE, &[4, 2]),
                    make(OP_RETURN_VALUE, &[]),
                ]),
                Ins(vec![
                    make(OP_CONSTANT, &[1]),
                    make(OP_SET_LOCAL, &[0]),
                    make(OP_GET_LOCAL, &[0]),
                    make(OP_CLOSURE, &[5, 1]),
                    make(OP_RETURN_VALUE, &[]),
                ]),
            ],
            vec![
                make(OP_CONSTANT, &[0]),
                make(OP_SET_GLOBAL, &[0]),
                make(OP_CLOSURE, &[6, 0]),
                make(OP_POP, &[]),
            ],
        ),
    ];
    run_compiler_tests(test_cases);
}

// ---------------------------------------------------------------------------
// The virtual machine
// ---------------------------------------------------------------------------

#[test]
fn test_vm_works() {
    // input, expected
    let test_cases = vec![
        ("11", Int(11)),
        ("13; 27", Int(27)),
        ("13 + 29", Int(42)),
        ("1 + 2 + 4", Int(7)),
        ("1 - 2", Int(-1)),
        ("3 * 4", Int(12)),
        ("4 / 2", Int(2)),
        ("50 / 2 * 2 + 10 - 5", Int(55)),
        ("5 + 5 + 5 + 5 - 10", Int(10)),
        ("2 * 2 * 2 * 2 * 2", Int(32)),
        ("5 * 2 + 10", Int(20)),
        ("5 + 2 * 10", Int(25)),
        ("5 * (2 + 10)", Int(60)),
        ("true", Bool(true)),
        ("false", Bool(false)),
        ("1 < 2", Bool(true)),
        ("1 > 2", Bool(false)),
        ("1 < 1", Bool(false)),
        ("1 > 1", Bool(false)),
        ("1 == 1", Bool(true)),
        ("1 != 1", Bool(false)),
        ("1 == 2", Bool(false)),
        ("1 != 2", Bool(true)),
        ("true == true", Bool(true)),
        ("false == false", Bool(true)),
        ("true == false", Bool(false)),
        ("true != false", Bool(true)),
        ("false != true", Bool(true)),
        ("(1 < 2) == true", Bool(true)),
        ("(1 < 2) == false", Bool(false)),
        ("(1 > 2) == true", Bool(false)),
        ("(1 > 2) == false", Bool(true)),
        ("-5", Int(-5)),
        ("-10", Int(-10)),
        ("-50 + 100 + -50", Int(0)),
        ("(5 + 10 * 2 + 15 / 3) * 2 + -10", Int(50)),
        ("!true", Bool(false)),
        ("!false", Bool(true)),
        ("!5", Bool(false)),
        ("!!true", Bool(true)),
        ("!!false", Bool(false)),
        ("!!5", Bool(true)),
        ("if(true) { 10; }", Int(10)),
        ("if (true) { 10 } else { 20 }", Int(10)),
        ("if (false) { 10 } else { 20 } ", Int(20)),
        ("if (1) { 10 }", Int(10)),
        ("if (1 < 2) { 10 }", Int(10)),
        ("if (1 < 2) { 10 } else { 20 }", Int(10)),
        ("if (1 > 2) { 10 } else { 20 }", Int(20)),
        ("if (1 > 2) { 10 }", Literal::Null),
        ("if (false) { 10 }", Literal::Null),
        ("!(if (false) { 5; })", Bool(true)),
        ("if ((if (false) { 10 })) { 10 } else { 20 }", Int(20)),
        ("let one = 1; one", Int(1)),
        ("let one = 1; let two = 2; one + two", Int(3)),
        ("let one = 1; let two = one + one; one + two", Int(3)),
        (r#" "monkey" "#, Str("monkey")),
        (r#" "mon" + "key" "#, Str("monkey")),
        (r#" "mon" + "key" + "banana" "#, Str("monkeybanana")),
        ("[]", Arr(vec![])),
        ("[1, 2, 3]", Arr(vec![Int(1), Int(2), Int(3)])),
        (
            "[1 + 2, 3 - 4, \"foo\", 5 * 6, true]",
            Arr(vec![Int(3), Int(-1), Str("foo"), Int(30), Bool(true)]),
        ),
        ("{}", Pairs(Vec::new())),
        (
            "{1: 2, 3: 4, 5: 6}",
            Pairs(vec![(Int(1), Int(2)), (Int(3), Int(4)), (Int(5), Int(6))]),
        ),
        (
            "{1: 2 + 3, 4: 5 * 6,true: \"foo\"}",
            Pairs(vec![
                (Int(1), Int(5)),
                (Int(4), Int(30)),
                (Bool(true), Str("foo")),
            ]),
        ),
        ("[1, 2, 3][1]", Int(2)),
        ("[1, 2, 3][0 + 2]", Int(3)),
        ("[[1, 1, 1]][0][0]", Int(1)),
        ("{1: 1, 2: 2}[1]", Int(1)),
        ("{1: 1, 2: 2}[2]", Int(2)),
        ("{1: 1}[0]", Literal::Null),
        ("{}[0]", Literal::Null),
        (
            "let fivePlusTen = fn() { 5 + 10; };
                 let result = fivePlusTen() + 20; result;",
            Int(35),
        ),
        (
            "let one = fn() { 1; };
                let two = fn() { 2; };
                one() + two()",
            Int(3),
        ),
        (
            "let a = fn() { 1 };
                 let b = fn() { a() + 1 };
                 let c = fn() { b() + 1 };
                 c();",
            Int(3),
        ),
        (
            "let earlyExit = fn() { return 99; 100; };
            earlyExit();",
            Int(99),
        ),
        (
            "let earlyExit = fn() { return 99; return 100; };
            earlyExit();",
            Int(99),
        ),
        (
            "let noReturn = fn() { };
            noReturn();",
            Literal::Null,
        ),
        (
            "let noReturn = fn() { };
                let noReturnTwo = fn() { noReturn(); };
                noReturnTwo();",
            Literal::Null,
        ),
        (
            "
            let returnsOne = fn() { 1; };
            let returnsOneReturner = fn() { returnsOne; };
            returnsOneReturner()();",
            Int(1),
        ),
        (
            "let one = fn() { let one = 1; one };
            one();",
            Int(1),
        ),
        (
            "let oneAndTwo = fn() { let one = 1; let two = 2; one + two; };
            oneAndTwo();",
            Int(3),
        ),
        (
            "let oneAndTwo = fn() { let one = 1; let two = 2; one + two; };
            let threeAndFour = fn() { let three = 3; let four = 4; three + four; };
            oneAndTwo() + threeAndFour();",
            Int(10),
        ),
        (
            "let firstFoobar = fn() { let foobar = 50; foobar; };
            let secondFoobar = fn() { let foobar = 100; foobar; };
            firstFoobar() + secondFoobar();",
            Int(150),
        ),
        (
            "let globalSeed = 50;
                let minusOne = fn() {
                    let num = 1;
                    globalSeed - num;
                }
                let minusTwo = fn() {
                    let num = 2;
                    globalSeed - num;
                }
                minusOne() + minusTwo();",
            Int(97),
        ),
        (
            "let returnsOneReturner = fn() {
                    let returnsOne = fn() { 1; };
                    returnsOne;
                };
                returnsOneReturner()();",
            Int(1),
        ),
        (
            "let x = 10;
                 x = 20;
                 x;",
            Int(20),
        ),
        (
            "let x = 10;
                 fn() {
                    x = 30 + 50;
                    x;
                 }()",
            Int(80),
        ),
        (
            "let identity = fn(a) { a; };
                identity(4);",
            Int(4),
        ),
        (
            "let sum = fn(a, b) { a + b; };
                sum(1, 2);",
            Int(3),
        ),
        (
            "let calc = fn(a, b) {
                    let c = a + b;
                    let d = 10;
                    d - c;
                };
                calc(1, 2);",
            Int(7),
        ),
        (
            "let sum = fn(a, b) {
                    let c = a + b;
                    c; 
                };
                sum(1, 2) + sum(3, 4);",
            Int(10),
        ),
        (
            "let sum = fn(a, b) {
                   let c = a + b;
                   c; 
                };
                let outer = fn() {
                    sum(1, 2) + sum(3, 4);
                };
                outer();",
            Int(10),
        ),
        (
            "let globalNum = 10;
                 let sum = fn(a, b) {
                    let c = a + b;
                    c + globalNum;
                 };
                let outer = fn() {
                   sum(1, 2) + sum(3, 4) + globalNum;
                };
                outer() + globalNum;",
            Int(50),
        ),
    ];

    for tc in test_cases {
        expect_result(tc.0, tc.1);
    }
}

#[test]
fn test_vm_fails() {
    let test_cases = vec![
        (
            "fn() { 1; }(1);",
            "wrong number of arguments: want=0, got=1",
        ),
        (
            "fn(a) { a; }();",
            "wrong number of arguments: want=1, got=0",
        ),
        (
            "fn(a, b) { a + b; }(1);",
            "wrong number of arguments: want=2, got=1",
        ),
    ];

    for tc in test_cases {
        let program = parse(tc.0);
        let mut comp = Compiler::new();
        if let Err(e) = comp.compile(&program) {
            panic!("input: {}, compiler error:  {}", tc.0, e.message());
        }
        let mut vm = VM::new(comp.byte_code());
        if let Err(e) = vm.run() {
            assert_eq!(e.message(), tc.1);
        } else {
            panic!("expected the program to fail with the given error.")
        }
    }
}

#[test]
fn arithmetic_follows_precedence() {
    expect_result("1 + 2 * 3", Int(7));
}

#[test]
fn globals_are_read_back() {
    expect_result("let a = 10; let b = 20; a + b;", Int(30));
}

#[test]
fn a_function_calls_itself_by_its_name() {
    expect_result(
        "let fact = fn(n) { if (n < 2) { 1 } else { n * fact(n - 1) } };
         fact(5);",
        Int(120),
    );
    // the same inside another function, where the name is a local
    expect_result(
        "let outer = fn() {
             let fact = fn(n) { if (n < 2) { 1 } else { n * fact(n - 1) } };
             fact(6)
         };
         outer();",
        Int(720),
    );
}

#[test]
fn a_function_that_calls_itself_loads_its_own_closure() {
    let bytecode = compile_program("let f = fn(n) { f(n) };").unwrap();
    test_constants(
        vec![Ins(vec![
            make(OP_CURRENT_CLOSURE, &[]),
            make(OP_GET_LOCAL, &[0]),
            make(OP_CALL, &[1]),
            make(OP_RETURN_VALUE, &[]),
        ])],
        &bytecode.constants,
    );
    test_instructions(
        vec![make(OP_CLOSURE, &[0, 0]), make(OP_SET_GLOBAL, &[0])],
        &bytecode.instructions,
    );
    // a parameter of the same name shadows the function
    let shadowed = compile_program("let f = fn(f) { f };").unwrap();
    test_constants(
        vec![Ins(vec![make(OP_GET_LOCAL, &[0]), make(OP_RETURN_VALUE, &[])])],
        &shadowed.constants,
    );
}

#[test]
fn closures_capture_free_variables() {
    expect_result(
        "let newAdder = fn(a) { fn(b) { a + b } }; let addTwo = newAdder(2); addTwo(3);",
        Int(5),
    );
    expect_result(
        "let newAdderOuter = fn(a, b) {
            let c = a + b;
            fn(d) { let e = d + c; fn(f) { e + f; }; };
         };
         let newAdderInner = newAdderOuter(1, 2);
         let adder = newAdderInner(3);
         adder(8);",
        Int(14),
    );
    expect_result(
        "let countDown = fn(x) { if (x == 0) { return 0; } else { countDown(x - 1); } };
         let wrapper = fn() { countDown(1); };
         wrapper();",
        Int(0),
    );
}

#[test]
fn a_captured_array_is_shared_with_the_closure() {
    expect_result(
        "let makeCounter = fn() { let c = [0]; fn() { push(c, 1); len(c) } };
         let count = makeCounter();
         count(); count(); count();",
        Int(4),
    );
    expect_result(
        "let a = [1]; let f = fn() { let g = fn() { push(a, 2) }; g(); a }; len(f())",
        Int(2),
    );
}

#[test]
fn recursion_goes_as_deep_as_the_frames_allow() {
    expect_result(
        "let fibonacci = fn(x) {
            if (x == 0) { return 0; } else {
                if (x == 1) { return 1; } else { fibonacci(x - 1) + fibonacci(x - 2); }
            }
         };
         fibonacci(15);",
        Int(610),
    );
    expect_result(
        "let down = fn(n) { if (n == 0) { 0 } else { down(n - 1) } }; down(1000);",
        Int(0),
    );
    assert_eq!(
        expect_failure("let down = fn(n) { if (n == 0) { 0 } else { down(n - 1) } }; down(1023);"),
        RuntimeError::FrameOverflow
    );
}

#[test]
fn insert_changes_the_hash_that_a_global_refers_to() {
    expect_result(
        r#"let m = {"k": 1, "m": 2}; insert(m, "k", 9); m["k"] + m["m"];"#,
        Int(11),
    );
}

#[test]
fn push_changes_the_array_that_a_global_refers_to() {
    expect_result("let a = [1,2,3]; push(a, 4); len(a);", Int(4));
}

#[test]
fn a_call_with_too_few_arguments_fails() {
    let e = expect_failure("fn(a,b){a+b}(1);");
    assert_eq!(e, RuntimeError::WrongArgumentCount { want: 2, got: 1 });
    assert_eq!(e.message(), "wrong number of arguments: want=2, got=1");
}

#[test]
fn a_program_without_a_pop_has_no_result() {
    let (vm, outcome) = run_program("let a = 1;");
    assert!(outcome.is_ok());
    assert!(vm.result().is_none());
    let (vm, outcome) = run_program("");
    assert!(outcome.is_ok());
    assert!(vm.result().is_none());
}

#[test]
fn the_result_is_the_value_of_the_last_expression_statement() {
    expect_result("1; 2; 3", Int(3));
    expect_result("let f = fn() { 1; 2 }; f(); 7;", Int(7));
    expect_result("let f = fn() { 1; 2 }; f();", Int(2));
    expect_result("if (false) { 10 }", Literal::Null);
    expect_result("-50 + 100 + -50", Int(0));
}

#[test]
fn hash_literals_compile_in_the_order_of_their_key_texts() {
    let first = compile_program(r#"{"b": 1, "a": 2, "c": 3}"#).unwrap();
    let second = compile_program(r#"{"c": 3, "b": 1, "a": 2}"#).unwrap();
    let third = compile_program(r#"{"a": 2, "c": 3, "b": 1}"#).unwrap();
    assert_eq!(first.instructions, second.instructions);
    assert_eq!(first.instructions, third.instructions);
    for bytecode in [&first, &second, &third] {
        test_constants(
            vec![Str("a"), Int(2), Str("b"), Int(1), Str("c"), Int(3)],
            &bytecode.constants,
        );
    }
    // the text decides, byte by byte: "10" comes before "9"
    let numbers = compile_program("{9: 1, 10: 2, 1 + 1: 3}").unwrap();
    test_constants(
        vec![Int(1), Int(1), Int(3), Int(10), Int(2), Int(9), Int(1)],
        &numbers.constants,
    );
}

#[test]
fn integers_wrap_and_division_by_zero_fails() {
    expect_result("9223372036854775807 + 1", Int(i64::MIN));
    expect_result("-9223372036854775807 - 2", Int(i64::MAX));
    expect_result("9223372036854775807 * 2", Int(-2));
    expect_result("(-9223372036854775807 - 1) / -1", Int(i64::MIN));
    expect_result("-(-9223372036854775807 - 1)", Int(i64::MIN));
    expect_result("7 / 2", Int(3));
    expect_result("-7 / 2", Int(-3));
    expect_result("7 / -2", Int(-3));
    let e = expect_failure("1 / 0");
    assert_eq!(e, RuntimeError::DivisionByZero);
    assert_eq!(e.message(), "division by zero");
}

#[test]
fn type_errors_are_reported() {
    let e = expect_failure("1 + true");
    assert_eq!(e, RuntimeError::UnsupportedArithmetic);
    assert_eq!(
        e.message(),
        "arithmetic operations are only supported between strings or integers"
    );
    let e = expect_failure(r#""a" - "b""#);
    assert_eq!(e, RuntimeError::IncorrectStringOperation);
    assert_eq!(e.message(), "incorrect operation on strings");
    let e = expect_failure("1 == true");
    assert_eq!(
        e,
        RuntimeError::OperandTypesMismatch { left: ObjectType::Integer, right: ObjectType::Boolean }
    );
    assert_eq!(e.message(), "left INTEGER and right BOOLEAN operand types doesn't match");
    let e = expect_failure(r#""a" > "b""#);
    assert_eq!(e.message(), "left STRING and right STRING operand types doesn't match");
    let e = expect_failure("-true");
    assert_eq!(e, RuntimeError::NotAnInteger { found: ObjectType::Boolean });
    assert_eq!(e.message(), "expected an INTEGER, found BOOLEAN");
    let e = expect_failure("1(2)");
    assert_eq!(e, RuntimeError::NotCallable { found: ObjectType::Integer });
    assert_eq!(e.message(), "expected a function, found INTEGER");
}

#[test]
fn booleans_compare_by_value() {
    expect_result("true > false", Bool(true));
    expect_result("false > true", Bool(false));
    expect_result("true > true", Bool(false));
    expect_result("false < true", Bool(true));
    expect_result("!(if (false) { 1 })", Bool(true));
    expect_result(r#"!"""#, Bool(false));
}

#[test]
fn indexing_checks_the_index() {
    assert_eq!(expect_failure("[1, 2, 3][3]"), RuntimeError::IndexOutOfBounds);
    assert_eq!(expect_failure("[1, 2, 3][99]").message(), "index out of bounds");
    assert_eq!(expect_failure("[1][-1]"), RuntimeError::IndexNegative);
    assert_eq!(expect_failure("[1][-1]").message(), "index should be a positive integer");
    assert_eq!(expect_failure("[1][true]"), RuntimeError::IndexNotInteger);
    assert_eq!(expect_failure("[1][true]").message(), "index should be an integer");
    assert_eq!(expect_failure("1[0]"), RuntimeError::NotIndexable);
    assert_eq!(
        expect_failure(r#""abc"[0]"#).message(),
        "indexing is only supported for arrays and hash-maps"
    );
    expect_result("[1, 2, 3][2]", Int(3));
    expect_result(r#"{"a": 1}["b"]"#, Literal::Null);
}

#[test]
fn hash_keys_are_found_by_equality() {
    expect_result(r#"{1: "int", "1": "str", true: "bool"}[1]"#, Str("int"));
    expect_result(r#"{1: "int", "1": "str", true: "bool"}["1"]"#, Str("str"));
    expect_result(r#"{1: "int", "1": "str", true: "bool"}[true]"#, Str("bool"));
    expect_result(r#"{[1, 2]: "pair"}[[1, 2]]"#, Str("pair"));
    expect_result(r#"{[1, 2]: "pair"}[[1, "2"]]"#, Literal::Null);
    expect_result(r#"{[1, 2]: "pair"}[[1, 2, 3]]"#, Literal::Null);
    expect_result(r#"{{1: 2}: "map"}[{1: 2}]"#, Str("map"));
    expect_result(r#"{len: "builtin"}[len]"#, Str("builtin"));
    expect_result(r#"{fn(a) { a }: "function"}[fn(b) { b }]"#, Str("function"));
    expect_result(r#"{fn(a) { a }: "function"}[fn(b) { 1 }]"#, Literal::Null);
    // of two pairs whose keys are equal, the one that is compiled first gives
    // the value: the text "(0 + 1)" comes before the text "1"
    expect_result(r#"{1: "first", 0 + 1: "second"}[1]"#, Str("second"));
    expect_result(r#"{2: "first", 1 + 1: "second", 3 - 1: "third"}[2]"#, Str("second"));
    expect_result(r#"len({1: "first", 0 + 1: "second"})"#, Int(1));
}

#[test]
fn builtins_work_on_strings_arrays_and_hashes() {
    expect_result(r#"len("hello")"#, Int(5));
    expect_result(r#"len("")"#, Int(0));
    expect_result(r#"len("héllo")"#, Int(6));
    expect_result("len([1, 2, 3])", Int(3));
    expect_result("len({1: 2, 3: 4})", Int(2));
    expect_result("let a = [1]; push(a, 2)", Literal::Null);
    expect_result("let a = [1]; push(a, 2); a", Arr(vec![Int(1), Int(2)]));
    expect_result("let a = [1, 2]; pop(a)", Int(2));
    expect_result("let a = [1, 2]; pop(a); a", Arr(vec![Int(1)]));
    expect_result("pop([])", Literal::Null);
    expect_result("is_null(if (false) { 1 })", Bool(true));
    expect_result("is_null(0)", Bool(false));
    expect_result(r#"let m = {}; insert(m, "a", 1)"#, Literal::Null);
    expect_result(r#"let m = {"a": 1}; insert(m, "a", 2)"#, Int(1));
    expect_result(r#"let m = {"a": 1}; insert(m, "a", 2); m["a"]"#, Int(2));
    expect_result(r#"let m = {"a": 1}; delete(m, "a")"#, Int(1));
    expect_result(r#"let m = {"a": 1}; delete(m, "b")"#, Literal::Null);
    expect_result(r#"let m = {"a": 1}; delete(m, "a"); len(m)"#, Int(0));
    expect_result("sleep(0)", Literal::Null);
    // two names for one array
    expect_result("let a = [1]; let b = a; push(b, 2); len(a)", Int(2));
    expect_result("let a = [1]; let f = fn(x) { push(x, 2) }; f(a); a[1]", Int(2));
}

#[test]
fn builtins_check_their_arguments() {
    let e = expect_failure("len(1)");
    assert_eq!(
        e,
        RuntimeError::ArgumentNotSupported { builtin: Builtin::Len, found: ObjectType::Integer }
    );
    assert_eq!(e.message(), "argument to `len` not supported, got INTEGER");
    assert_eq!(
        expect_failure("push(1, 2)").message(),
        "argument to `push` not supported, got INTEGER"
    );
    assert_eq!(
        expect_failure(r#"pop("a")"#).message(),
        "argument to `pop` not supported, got STRING"
    );
    assert_eq!(
        expect_failure("insert([], 1, 2)").message(),
        "argument to `insert` not supported, got ARRAY"
    );
    assert_eq!(
        expect_failure("delete(true, 1)").message(),
        "argument to `delete` not supported, got BOOLEAN"
    );
    assert_eq!(
        expect_failure("sleep({})").message(),
        "argument to `sleep` not supported, got HASH_MAP"
    );
    let e = expect_failure("sleep(-1)");
    assert_eq!(e, RuntimeError::InvalidSleepDuration);
    assert_eq!(e.message(), "sleep only takes a positive integer value");
    assert_eq!(
        expect_failure("len()"),
        RuntimeError::WrongArgumentCount { want: 1, got: 0 }
    );
    assert_eq!(
        expect_failure("len([], [])").message(),
        "wrong number of arguments: want=1, got=2"
    );
    assert_eq!(
        expect_failure("insert({}, 1)"),
        RuntimeError::WrongArgumentCount { want: 3, got: 2 }
    );
}

#[test]
fn print_and_sleep_are_handed_to_the_host() {
    let (vm, outcome) = run_program(r#"print("a", 1, true, [1, "x"], {"k": 2}); print(); print("\tb\n"); 5"#);
    assert_eq!(outcome.unwrap(), "a 1 true [1, x] { k:2 }\n\tb\n");
    test_integer_object(5, vm.result().unwrap());

    let bytecode = compile_program("sleep(3); print(1); 2").unwrap();
    let mut vm = VM::new(bytecode);
    assert!(vm.run().is_ok());
    assert!(!vm.halted());
    assert!(matches!(vm.take_effect(), Some(Effect::Sleep(3))));
    assert!(vm.take_effect().is_none());
    assert!(vm.run().is_ok());
    match vm.take_effect() {
        Some(Effect::Print(text)) => assert_eq!(text, "1"),
        other => panic!("expected a print, found {other:?}"),
    }
    assert!(vm.run().is_ok());
    assert!(vm.halted());
    assert!(vm.take_effect().is_none());
    test_integer_object(2, vm.result().unwrap());
}

#[test]
fn values_print_as_text() {
    let inspect = |input: &str| -> String {
        let (vm, outcome) = run_program(input);
        assert!(outcome.is_ok());
        vm.heap.inspect(vm.result().unwrap()).unwrap()
    };
    assert_eq!(inspect("-12"), "-12");
    assert_eq!(inspect("true"), "true");
    assert_eq!(inspect("if (false) { 1 }"), "null");
    assert_eq!(inspect(r#""a\nb\tc\\nd""#), "a\nb\tc\\\nd");
    assert_eq!(inspect("[]"), "[]");
    assert_eq!(inspect(r#"[1, "two", [3, true]]"#), "[1, two, [3, true]]");
    assert_eq!(inspect("{}"), "{  }");
    assert_eq!(inspect(r#"{"a": [1]}"#), "{ a:[1] }");
    assert_eq!(inspect(r#"let m = {}; insert(m, 2, 3); insert(m, 1, 4); m"#), "{ 2:3, 1:4 }");
    assert_eq!(inspect("fn(a) { a }"), "Closure[fn(){}]");
    assert_eq!(inspect("len"), "len");
    let function = AllObjects::CompiledFunction(CompiledFunctionObj::new(vec![], 0, 0));
    assert_eq!(Heap::new().inspect(&function).unwrap(), "fn(){}");
}

#[test]
fn deeply_nested_keys_are_compared() {
    let nest = "let f = fn(n, a) { if (n < 1) { a } else { f(n - 1, [a]) } };";
    expect_result(&format!("{nest} let k = f(70, []); {{k: 1}}[k]"), Int(1));
    expect_result(&format!("{nest} let k = f(70, []); let j = f(70, []); {{k: 1}}[j]"), Int(1));
    expect_result(
        &format!("{nest} let k = f(70, []); let j = f(69, []); {{k: 1}}[j]"),
        Literal::Null,
    );
    expect_result(
        &format!("{nest} let m = {{}}; insert(m, f(200, [1]), 5); insert(m, f(200, [1]), 6)"),
        Int(5),
    );
    expect_result(
        &format!("{nest} let m = {{}}; insert(m, f(200, [1]), 5); delete(m, f(200, [1])); len(m)"),
        Int(0),
    );
    let (vm, outcome) = run_program(&format!("{nest} f(100, [7])"));
    assert!(outcome.is_ok());
    let text = vm.heap.inspect(vm.result().unwrap()).unwrap();
    assert_eq!(text, format!("{}7{}", "[".repeat(101), "]".repeat(101)));
}

#[test]
fn values_that_contain_themselves_are_not_followed_forever() {
    let (vm, outcome) = run_program("let a = [1]; push(a, a); a");
    assert!(outcome.is_ok());
    let result = vm.result().unwrap();
    assert_eq!(
        vm.heap.inspect(result),
        Err(RuntimeError::NestingTooDeep)
    );
    assert_eq!(
        expect_failure("let a = [1]; push(a, a); print(a)"),
        RuntimeError::NestingTooDeep
    );
    assert_eq!(
        expect_failure("let a = [1]; push(a, a); let b = [1]; push(b, b); {a: 1}[b]").message(),
        "an array or hash-map contains itself"
    );
    // a value of another object is no handle of the heap
    let dangling = AllObjects::ArrayObj(monkey::object::objects::ArrayObj { id: 3 });
    assert_eq!(
        Heap::new().inspect(&dangling),
        Err(RuntimeError::InvalidHandle)
    );
}

#[test]
fn the_stacks_are_bounded() {
    let e = expect_failure("let f = fn() { f() }; f();");
    assert_eq!(e, RuntimeError::FrameOverflow);
    assert_eq!(e.message(), "frame stack overflow");

    // 2049 loads overflow the operand stack
    let mut instructions = Vec::new();
    for _ in 0..2049 {
        instructions.extend_from_slice(&make(OP_TRUE, &[]));
    }
    let mut vm = VM::new(ByteCode { instructions, constants: vec![] });
    let e = vm.run().unwrap_err();
    assert_eq!(e, RuntimeError::StackOverflow);
    assert_eq!(e.message(), "stack overflow");
}

#[test]
fn malformed_bytecode_fails_without_a_panic() {
    let run = |instructions: Vec<u8>, constants: Vec<AllObjects>| -> Result<(), RuntimeError> {
        VM::new(ByteCode { instructions, constants }).run()
    };
    assert_eq!(run(vec![OP_POP], vec![]), Err(RuntimeError::StackEmpty));
    assert_eq!(run(vec![OP_POP], vec![]).unwrap_err().message(), "stack is empty");
    assert_eq!(run(vec![OP_ADD], vec![]), Err(RuntimeError::StackEmpty));
    assert_eq!(run(vec![OP_CONSTANT, 0], vec![]), Err(RuntimeError::TruncatedInstruction));
    assert_eq!(
        run(make(OP_CONSTANT, &[7]), vec![]),
        Err(RuntimeError::ConstantNotFound { index: 7 })
    );
    assert_eq!(
        run(make(OP_CONSTANT, &[7]), vec![]).unwrap_err().message(),
        "constant at the index 7 not found"
    );
    assert_eq!(
        run(make(OP_GET_GLOBAL, &[2]), vec![]),
        Err(RuntimeError::GlobalNotFound { index: 2 })
    );
    assert_eq!(
        run(make(OP_GET_GLOBAL, &[2]), vec![]).unwrap_err().message(),
        "variable at index 2 not found"
    );
    let mut assign = make(OP_TRUE, &[]);
    assign.extend_from_slice(&make(OP_ASSIGN_GLOBAL, &[0]));
    assert_eq!(run(assign, vec![]), Err(RuntimeError::GlobalNotFound { index: 0 }));
    assert_eq!(
        run(make(OP_GET_LOCAL, &[0]), vec![]),
        Err(RuntimeError::LocalNotFound { index: 0 })
    );
    let mut set_local = make(OP_TRUE, &[]);
    set_local.extend_from_slice(&make(OP_SET_LOCAL, &[1]));
    assert_eq!(run(set_local, vec![]), Err(RuntimeError::LocalNotFound { index: 1 }));
    assert_eq!(
        run(make(OP_GET_FREE, &[0]), vec![]),
        Err(RuntimeError::FreeNotFound { index: 0 })
    );
    assert_eq!(
        run(make(OP_GET_BUILTIN, &[0]), vec![]),
        Err(RuntimeError::BuiltinNotFound { index: 0 })
    );
    assert_eq!(
        run(make(OP_GET_BUILTIN, &[9]), vec![]).unwrap_err().message(),
        "builtin function with index 9 not found"
    );
    assert_eq!(
        run(
            make(OP_CLOSURE, &[0, 0]),
            vec![AllObjects::Integer(Integer { value: 1 })]
        ),
        Err(RuntimeError::NotAFunction { found: ObjectType::Integer })
    );
    assert_eq!(run(make(OP_RETURN, &[]), vec![]), Err(RuntimeError::ReturnOutsideFunction));
    let mut ret = make(OP_TRUE, &[]);
    ret.extend_from_slice(&make(OP_RETURN_VALUE, &[]));
    assert_eq!(run(ret, vec![]), Err(RuntimeError::ReturnOutsideFunction));
    assert_eq!(run(make(OP_ARRAY, &[2]), vec![]), Err(RuntimeError::StackEmpty));
    assert_eq!(run(make(OP_HASH, &[1]), vec![]), Err(RuntimeError::StackEmpty));
    assert_eq!(run(make(OP_CALL, &[0]), vec![]), Err(RuntimeError::StackEmpty));
    // a byte that is no opcode is skipped
    assert_eq!(run(vec![0, 200, OP_TRUE, OP_POP], vec![]), Ok(()));
}

#[test]
fn jumps_continue_at_their_target() {
    // 0000 TRUE, 0001 JUMP 6, 0004 FALSE, 0005 POP, 0006 POP
    let mut instructions = make(OP_TRUE, &[]);
    instructions.extend_from_slice(&make(OP_JUMP, &[6]));
    instructions.extend_from_slice(&make(OP_FALSE, &[]));
    instructions.extend_from_slice(&make(OP_POP, &[]));
    instructions.extend_from_slice(&make(OP_POP, &[]));
    let mut vm = VM::new(ByteCode { instructions, constants: vec![] });
    assert!(vm.run().is_ok());
    test_boolean_object(true, vm.result().unwrap());

    // a jump to the start is possible, and the machine can be stepped
    let mut vm = VM::new(ByteCode { instructions: make(OP_JUMP, &[0]), constants: vec![] });
    for _ in 0..10 {
        assert!(vm.step().is_ok());
        assert_eq!(vm.current_frame().ip, 0);
    }
}

#[test]
fn set_global_extends_the_globals() {
    let mut instructions = make(OP_TRUE, &[]);
    instructions.extend_from_slice(&make(OP_SET_GLOBAL, &[3]));
    let mut vm = VM::new(ByteCode { instructions, constants: vec![] });
    assert!(vm.run().is_ok());
    assert_eq!(vm.globals.len(), 4);
    test_null_object(&vm.globals[0]);
    test_null_object(&vm.globals[2]);
    test_boolean_object(true, &vm.globals[3]);
}

#[test]
fn a_later_line_goes_on_from_the_state_of_an_earlier_one() {
    let mut compiler = Compiler::new();
    compiler.compile(&parse("let a = [1, 2]; let inc = fn(x) { x + 1 };")).unwrap();
    let constants: Vec<AllObjects> = compiler.constants.iter().map(|c| c.duplicate()).collect();
    let mut symbols = SymbolTable::new();
    std::mem::swap(&mut symbols, &mut compiler.symbol_table);
    let mut vm = VM::new(compiler.byte_code());
    assert!(vm.run().is_ok());

    let mut compiler = Compiler::new_with_state(symbols, constants);
    compiler.compile(&parse("push(a, inc(2)); a")).unwrap();
    assert_eq!(compiler.constants.len(), 5);
    let mut vm = VM::new_with_global_store(compiler.byte_code(), vm.globals, vm.heap);
    assert!(vm.run().is_ok());
    test_array_literal(vec![Int(1), Int(2), Int(3)], vm.result().unwrap(), &vm.heap);
}

#[test]
fn a_failing_instruction_leaves_the_machine_as_it_was() {
    // 0000 TRUE, 0001 CONSTANT 0, 0004 ADD, 0005 POP
    let mut instructions = make(OP_TRUE, &[]);
    instructions.extend_from_slice(&make(OP_CONSTANT, &[0]));
    instructions.extend_from_slice(&make(OP_ADD, &[]));
    instructions.extend_from_slice(&make(OP_POP, &[]));
    let constants = vec![AllObjects::Integer(Integer { value: 5 })];
    let mut vm = VM::new(ByteCode { instructions, constants });
    assert_eq!(vm.run(), Err(RuntimeError::UnsupportedArithmetic));
    assert_eq!(vm.current_frame().ip, 4);
    assert_eq!(vm.stack.len(), 2);
    test_boolean_object(true, &vm.stack[0]);
    test_integer_object(5, &vm.stack[1]);
    assert!(vm.result().is_none());
    // running again fails in the same way
    assert_eq!(vm.step(), Err(RuntimeError::UnsupportedArithmetic));
    assert_eq!(vm.stack.len(), 2);

    // a builtin function that fails has not touched its arguments
    let (vm, outcome) = run_program("let a = [1]; insert(a, 1, 2); 3");
    assert_eq!(
        outcome,
        Err(RuntimeError::ArgumentNotSupported { builtin: Builtin::Insert, found: ObjectType::Array })
    );
    assert_eq!(vm.stack.len(), 4);
    test_array_literal(vec![Int(1)], &vm.globals[0], &vm.heap);
}

#[test]
fn globals_stay_as_they_were_when_an_instruction_fails() {
    let bytecode = compile_program("let a = 1; let b = [a]; let c = b[5]; let d = 4;").unwrap();
    let mut vm = VM::new(bytecode);
    assert_eq!(vm.run(), Err(RuntimeError::IndexOutOfBounds));
    assert_eq!(vm.globals.len(), 2);
    test_integer_object(1, &vm.globals[0]);
    test_array_literal(vec![Int(1)], &vm.globals[1], &vm.heap);
}

// ---------------------------------------------------------------------------
// Compile errors
// ---------------------------------------------------------------------------

fn compile_failure(node: AllNodes) -> String {
    let mut compiler = Compiler::new();
    match compiler.compile(&node) {
        Err(e) => e.message(),
        Ok(()) => panic!("expected a compile error"),
    }
}

fn number(value: i64) -> Box<AllExpressions> {
    Box::new(AllExpressions::IntegerLiteral(IntegerLiteral { value }))
}

#[test]
fn compile_errors_are_reported() {
    assert_eq!(compile_failure(parse("a")), "undefined variable a");
    assert_eq!(compile_failure(parse("fn() { b }")), "undefined variable b");
    assert_eq!(compile_failure(parse("x = 1")), "variable with name x, not found");
    assert_eq!(
        compile_failure(AllNodes::Expressions(AllExpressions::InfixExpression(InfixExpression {
            operator: "%".to_string(),
            left: Some(number(1)),
            right: Some(number(2)),
        }))),
        "unknown arithmetic operator: %"
    );
    assert_eq!(
        compile_failure(AllNodes::Expressions(AllExpressions::InfixExpression(InfixExpression {
            operator: "+".to_string(),
            left: None,
            right: Some(number(2)),
        }))),
        "infix expression should contain a left expression"
    );
    assert_eq!(
        compile_failure(AllNodes::Expressions(AllExpressions::InfixExpression(InfixExpression {
            operator: "+".to_string(),
            left: Some(number(1)),
            right: None,
        }))),
        "infix expression should contain a right expression"
    );
    assert_eq!(
        compile_failure(AllNodes::Expressions(AllExpressions::PrefixExpression(
            PrefixExpression { operator: "~".to_string(), right: Some(number(1)) }
        ))),
        "unknown prefix expression: ~"
    );
    assert_eq!(
        compile_failure(AllNodes::Expressions(AllExpressions::PrefixExpression(
            PrefixExpression { operator: "-".to_string(), right: None }
        ))),
        "prefix expression should contain a right expression"
    );
    assert_eq!(
        compile_failure(AllNodes::Expressions(AllExpressions::IfExpression(IfExpression {
            condition: None,
            consequence: BlockStatement { statements: vec![] },
            alternative: None,
        }))),
        "if expression should contain a condition"
    );
    assert_eq!(
        compile_failure(AllNodes::Statements(AllStatements::Expression(ExpressionStatement {
            expression: None,
        }))),
        "expression statement should contain an expression"
    );
    assert_eq!(
        compile_failure(AllNodes::Statements(AllStatements::While(WhileStatement {
            condition: number(1),
            body: BlockStatement { statements: vec![] },
        }))),
        "while statements are not implemented"
    );
}

#[test]
fn operands_that_do_not_fit_are_compile_errors() {
    let mut elements = Vec::new();
    for _ in 0..65536 {
        elements.push(AllExpressions::Boolean(BooleanLiteral { value: true }));
    }
    assert_eq!(
        compile_failure(AllNodes::Expressions(AllExpressions::ArrayLiteral(ArrayLiteral {
            elements
        }))),
        "operand 65536 is too large for opcode 19"
    );
    let mut arguments = Vec::new();
    for _ in 0..256 {
        arguments.push(AllExpressions::Boolean(BooleanLiteral { value: true }));
    }
    let call = AllExpressions::CallExpression(CallExpression {
        function: Box::new(AllExpressions::Identifier(Identifier { value: "len".to_string() })),
        arguments,
    });
    assert_eq!(
        compile_failure(AllNodes::Expressions(call)),
        "operand 256 is too large for opcode 22"
    );
    // constants that were added stay in the pool when the compilation fails
    let mut compiler = Compiler::new();
    assert!(compiler.compile(&parse("1; 2; nothing")).is_err());
    assert_eq!(compiler.constants.len(), 2);
    // a jump over more than 65535 bytes cannot be patched
    let mut statements = String::from("if (true) { ");
    for _ in 0..22000 {
        statements.push_str("1; ");
    }
    statements.push_str("}");
    let mut compiler = Compiler::new();
    match compiler.compile(&parse(&statements)) {
        Err(CompileError::OperandOutOfRange { opcode, operand }) => {
            assert_eq!(opcode, OP_JUMP_NOT_TRUTHY);
            assert!(operand > 65535);
        }
        other => panic!("expected an operand that does not fit, found {other:?}"),
    }
}

#[test]
fn assignment_emits_the_index_of_the_resolved_symbol() {
    let bytecode = compile_program("let a = 1; let b = 2; b = 3").unwrap();
    test_instructions(
        vec![
            make(OP_CONSTANT, &[0]),
            make(OP_SET_GLOBAL, &[0]),
            make(OP_CONSTANT, &[1]),
            make(OP_SET_GLOBAL, &[1]),
            make(OP_CONSTANT, &[2]),
            make(OP_ASSIGN_GLOBAL, &[1]),
            make(OP_POP, &[]),
        ],
        &bytecode.instructions,
    );
    expect_result("let a = 1; a = 2", Literal::Null);
}

#[test]
fn the_listing_of_a_compiled_program_has_one_line_per_instruction() {
    let bytecode = compile_program("if (true) { 10 }; 3333;").unwrap();
    let listing = disassemble(&bytecode.instructions);
    assert_eq!(
        listing,
        "0000 OpTrue
0001 OpJumpNotTruthy 10
0004 OpConstant 0
0007 OpJump 11
0010 OpNull
0011 OpPop
0012 OpConstant 1
0015 OpPop
"
    );
    assert_eq!(listing.lines().count(), 8);
}

#[test]
fn every_load_of_a_constant_names_a_constant_of_the_pool() {
    let bytecode = compile_program(
        "let a = 1; let f = fn(x) { fn(y) { x + y + a + 2 } }; if (a == 1) { \"s\" } else { f(3) }",
    )
    .unwrap();
    let mut streams = vec![bytecode.instructions.clone()];
    for constant in &bytecode.constants {
        if let AllObjects::CompiledFunction(f) = constant {
            streams.push(f.instructions.clone());
        }
    }
    let mut loads = 0;
    for stream in streams {
        let mut at = 0;
        while at < stream.len() {
            let def = monkey::code::lookup(stream[at]).unwrap();
            let (operands, read) = monkey::code::read_operands(&def, &stream[at + 1..]);
            if stream[at] == OP_CONSTANT || stream[at] == OP_CLOSURE {
                assert!(operands[0] < bytecode.constants.len());
                loads += 1;
            }
            at += 1 + read;
        }
        assert_eq!(at, stream.len());
    }
    assert_eq!(loads, 7);
}

#[test]
fn nodes_print_as_text() {
    let text = |input: &str| -> String {
        match parse(input) {
            AllNodes::Program(p) => p.statements.iter().map(|s| s.text()).collect(),
            _ => unreachable!(),
        }
    };
    assert_eq!(text("1 + 2 * 3"), "(1 + (2 * 3))");
    assert_eq!(text("-a"), "(-a)");
    assert_eq!(text("let x = [1, true, \"s\"];"), "let x = [1, true, s];");
    assert_eq!(text("return {1: 2, a: b};"), "return {1:2, a:b};");
    assert_eq!(text("f(1, g(2))[0]"), "(f(1, g(2))[0])");
    assert_eq!(text("if (a) { b } else { c }"), "ifa belse c");
    assert_eq!(text("fn(a, b) { a; b }"), "fn(a, b) ab");
    assert_eq!(text("x = 1"), "x = 1");
}
