//! The syntax tree that the compiler consumes, and the text of its nodes.
use crate::text::{push_signed_decimal, signed_decimal};
use vstd::prelude::*;
use vstd::string::StringExecFns;

verus! {

/// A name.
#[derive(Debug)]
pub struct Identifier {
    pub value: String,
}

/// An integer literal.
#[derive(Debug)]
pub struct IntegerLiteral {
    pub value: i64,
}

/// A string literal.
#[derive(Debug)]
pub struct StringLiteral {
    pub value: String,
}

/// `true` or `false`.
#[derive(Debug)]
pub struct BooleanLiteral {
    pub value: bool,
}

/// An operator in front of an operand.
#[derive(Debug)]
pub struct PrefixExpression {
    pub operator: String,
    pub right: Option<Box<AllExpressions>>,
}

/// An operator between two operands.
#[derive(Debug)]
pub struct InfixExpression {
    pub operator: String,
    pub left: Option<Box<AllExpressions>>,
    pub right: Option<Box<AllExpressions>>,
}

/// A conditional with an optional alternative.
#[derive(Debug)]
pub struct IfExpression {
    pub condition: Option<Box<AllExpressions>>,
    pub consequence: BlockStatement,
    pub alternative: Option<BlockStatement>,
}

/// An array literal.
#[derive(Debug)]
pub struct ArrayLiteral {
    pub elements: Vec<AllExpressions>,
}

/// A hash literal: keys with their values, in any order.
#[derive(Debug)]
pub struct HashLiteral {
    pub pairs: Vec<(AllExpressions, AllExpressions)>,
}

/// An index into an array or a hash map.
#[derive(Debug)]
pub struct IndexExpression {
    pub left: Box<AllExpressions>,
    pub index: Box<AllExpressions>,
}

/// A function literal.
#[derive(Debug)]
pub struct FunctionLiteral {
    pub parameters: Vec<Identifier>,
    pub body: BlockStatement,
}

/// A call of a function with arguments.
#[derive(Debug)]
pub struct CallExpression {
    pub function: Box<AllExpressions>,
    pub arguments: Vec<AllExpressions>,
}

/// An assignment to a variable.
#[derive(Debug)]
pub struct AssignmentExpression {
    pub ident: Identifier,
    pub value: Box<AllExpressions>,
}

/// The expressions.
#[derive(Debug)]
pub enum AllExpressions {
    IntegerLiteral(IntegerLiteral),
    Boolean(BooleanLiteral),
    StringLiteral(StringLiteral),
    Identifier(Identifier),
    PrefixExpression(PrefixExpression),
    InfixExpression(InfixExpression),
    IfExpression(IfExpression),
    ArrayLiteral(ArrayLiteral),
    HashLiteral(HashLiteral),
    IndexExpression(IndexExpression),
    FunctionLiteral(FunctionLiteral),
    CallExpression(CallExpression),
    Assignment(AssignmentExpression),
}

/// The definition of a variable.
#[derive(Debug)]
pub struct LetStatement {
    pub name: Identifier,
    pub value: Box<AllExpressions>,
}

/// A sequence of statements.
#[derive(Debug)]
pub struct BlockStatement {
    pub statements: Vec<AllStatements>,
}

/// An expression that stands as a statement.
#[derive(Debug)]
pub struct ExpressionStatement {
    pub expression: Option<Box<AllExpressions>>,
}

/// A return from a function.
#[derive(Debug)]
pub struct ReturnStatement {
    pub return_value: Box<AllExpressions>,
}

/// A loop.
#[derive(Debug)]
pub struct WhileStatement {
    pub condition: Box<AllExpressions>,
    pub body: BlockStatement,
}

/// The statements.
#[derive(Debug)]
pub enum AllStatements {
    Let(LetStatement),
    Block(BlockStatement),
    Expression(ExpressionStatement),
    Return(ReturnStatement),
    While(WhileStatement),
}

/// A program: its statements in order.
#[derive(Debug)]
pub struct Program {
    pub statements: Vec<AllStatements>,
}

/// Any node of the tree.
#[derive(Debug)]
pub enum AllNodes {
    Program(Program),
    Statements(AllStatements),
    Expressions(AllExpressions),
}

/// The text of an expression that may be missing.
pub open spec fn optional_text(e: Option<Box<AllExpressions>>) -> Seq<char>
    decreases e, 0nat,
{
    match e {
        None => Seq::empty(),
        Some(inner) => expression_text(*inner),
    }
}

/// The text of an expression. Operators with their operands stand in
/// parentheses; the elements of lists are separated by a comma and a space.
pub open spec fn expression_text(e: AllExpressions) -> Seq<char>
    decreases e, 0nat,
{
    match e {
        AllExpressions::IntegerLiteral(v) => signed_decimal(v.value as int),
        AllExpressions::Boolean(v) => if v.value {
            "true"@
        } else {
            "false"@
        },
        AllExpressions::StringLiteral(v) => v.value@,
        AllExpressions::Identifier(v) => v.value@,
        AllExpressions::PrefixExpression(v) => "("@ + v.operator@ + optional_text(v.right) + ")"@,
        AllExpressions::InfixExpression(v) => "("@ + optional_text(v.left) + " "@ + v.operator@
            + " "@ + optional_text(v.right) + ")"@,
        AllExpressions::IfExpression(v) => "if"@ + optional_text(v.condition) + " "@
            + statements_text(v.consequence.statements@, v.consequence.statements@.len()) + (
        match v.alternative {
            None => Seq::empty(),
            Some(block) => "else "@ + statements_text(block.statements@, block.statements@.len()),
        }),
        AllExpressions::ArrayLiteral(v) => "["@ + expressions_text(v.elements@, v.elements@.len())
            + "]"@,
        AllExpressions::HashLiteral(v) => "{"@ + pairs_text(v.pairs@, v.pairs@.len()) + "}"@,
        AllExpressions::IndexExpression(v) => "("@ + expression_text(*v.left) + "["@
            + expression_text(*v.index) + "])"@,
        AllExpressions::FunctionLiteral(v) => "fn("@ + names_text(
            v.parameters@,
            v.parameters@.len(),
        ) + ") "@ + statements_text(v.body.statements@, v.body.statements@.len()),
        AllExpressions::CallExpression(v) => expression_text(*v.function) + "("@
            + expressions_text(v.arguments@, v.arguments@.len()) + ")"@,
        AllExpressions::Assignment(v) => v.ident.value@ + " = "@ + expression_text(*v.value),
    }
}

/// The texts of the first `k` expressions, separated by a comma and a space.
pub open spec fn expressions_text(list: Seq<AllExpressions>, k: nat) -> Seq<char>
    decreases list, k,
{
    if k == 0 || k > list.len() {
        Seq::empty()
    } else if k == 1 {
        expression_text(list[0])
    } else {
        expressions_text(list, (k - 1) as nat) + ", "@ + expression_text(list[k - 1])
    }
}

/// The texts of the first `k` pairs, each as key, colon and value, separated
/// by a comma and a space.
pub open spec fn pairs_text(list: Seq<(AllExpressions, AllExpressions)>, k: nat) -> Seq<char>
    decreases list, k,
{
    if k == 0 || k > list.len() {
        Seq::empty()
    } else if k == 1 {
        expression_text(list[0].0) + ":"@ + expression_text(list[0].1)
    } else {
        pairs_text(list, (k - 1) as nat) + ", "@ + expression_text(list[k - 1].0) + ":"@
            + expression_text(list[k - 1].1)
    }
}

/// The first `k` names, separated by a comma and a space.
pub open spec fn names_text(list: Seq<Identifier>, k: nat) -> Seq<char>
    decreases k,
{
    if k == 0 || k > list.len() {
        Seq::empty()
    } else if k == 1 {
        list[0].value@
    } else {
        names_text(list, (k - 1) as nat) + ", "@ + list[k - 1].value@
    }
}

/// The text of a statement.
pub open spec fn statement_text(s: AllStatements) -> Seq<char>
    decreases s, 0nat,
{
    match s {
        AllStatements::Let(v) => "let "@ + v.name.value@ + " = "@ + expression_text(*v.value)
            + ";"@,
        AllStatements::Block(v) => statements_text(v.statements@, v.statements@.len()),
        AllStatements::Expression(v) => optional_text(v.expression),
        AllStatements::Return(v) => "return "@ + expression_text(*v.return_value) + ";"@,
        AllStatements::While(v) => "while"@ + expression_text(*v.condition) + " "@
            + statements_text(v.body.statements@, v.body.statements@.len()),
    }
}

/// The texts of the first `k` statements, one after the other.
pub open spec fn statements_text(list: Seq<AllStatements>, k: nat) -> Seq<char>
    decreases list, k,
{
    if k == 0 || k > list.len() {
        Seq::empty()
    } else {
        statements_text(list, (k - 1) as nat) + statement_text(list[k - 1])
    }
}

impl AllExpressions {
    /// The text of the expression.
    pub fn text(&self) -> (s: String)
        ensures
            s@ == expression_text(*self),
        decreases self,
    {
        let mut out = String::new();
        match self {
            AllExpressions::IntegerLiteral(v) => {
                push_signed_decimal(&mut out, v.value);
            },
            AllExpressions::Boolean(v) => {
                if v.value {
                    out.append("true");
                } else {
                    out.append("false");
                }
            },
            AllExpressions::StringLiteral(v) => {
                out.append(v.value.as_str());
            },
            AllExpressions::Identifier(v) => {
                out.append(v.value.as_str());
            },
            AllExpressions::PrefixExpression(v) => {
                out.append("(");
                out.append(v.operator.as_str());
                assert(out@ =~= "("@ + v.operator@);
                match &v.right {
                    None => {},
                    Some(inner) => {
                        out.append(inner.text().as_str());
                    },
                }
                assert(out@ =~= "("@ + v.operator@ + optional_text(v.right));
                out.append(")");
                assert(out@ =~= "("@ + v.operator@ + optional_text(v.right) + ")"@);
            },
            AllExpressions::InfixExpression(v) => {
                out.append("(");
                match &v.left {
                    None => {},
                    Some(inner) => {
                        out.append(inner.text().as_str());
                    },
                }
                assert(out@ =~= "("@ + optional_text(v.left));
                out.append(" ");
                out.append(v.operator.as_str());
                out.append(" ");
                assert(out@ =~= "("@ + optional_text(v.left) + " "@ + v.operator@ + " "@);
                match &v.right {
                    None => {},
                    Some(inner) => {
                        out.append(inner.text().as_str());
                    },
                }
                assert(out@ =~= "("@ + optional_text(v.left) + " "@ + v.operator@ + " "@
                    + optional_text(v.right));
                out.append(")");
            },
            AllExpressions::IfExpression(v) => {
                out.append("if");
                match &v.condition {
                    None => {},
                    Some(inner) => {
                        out.append(inner.text().as_str());
                    },
                }
                assert(out@ =~= "if"@ + optional_text(v.condition));
                out.append(" ");
                out.append(block_text(&v.consequence).as_str());
                assert(out@ =~= "if"@ + optional_text(v.condition) + " "@ + statements_text(
                    v.consequence.statements@,
                    v.consequence.statements@.len(),
                ));
                match &v.alternative {
                    None => {},
                    Some(block) => {
                        out.append("else ");
                        out.append(block_text(block).as_str());
                    },
                }
            },
            AllExpressions::ArrayLiteral(v) => {
                out.append("[");
                out.append(list_text(&v.elements).as_str());
                out.append("]");
            },
            AllExpressions::HashLiteral(v) => {
                out.append("{");
                let mut i: usize = 0;
                let ghost start = out@;
                while i < v.pairs.len()
                    invariant
                        i <= v.pairs@.len(),
                        start == "{"@,
                        out@ == start + pairs_text(v.pairs@, i as nat),
                        decreases_to!(self => v.pairs@),
                    decreases v.pairs@.len() - i,
                {
                    if i > 0 {
                        out.append(", ");
                    }
                    out.append(v.pairs[i].0.text().as_str());
                    out.append(":");
                    out.append(v.pairs[i].1.text().as_str());
                    i += 1;
                    assert(out@ =~= start + pairs_text(v.pairs@, i as nat));
                }
                out.append("}");
            },
            AllExpressions::IndexExpression(v) => {
                out.append("(");
                out.append(v.left.text().as_str());
                out.append("[");
                out.append(v.index.text().as_str());
                out.append("])");
            },
            AllExpressions::FunctionLiteral(v) => {
                out.append("fn(");
                let mut i: usize = 0;
                let ghost start = out@;
                while i < v.parameters.len()
                    invariant
                        i <= v.parameters@.len(),
                        start == "fn("@,
                        out@ == start + names_text(v.parameters@, i as nat),
                    decreases v.parameters@.len() - i,
                {
                    if i > 0 {
                        out.append(", ");
                    }
                    out.append(v.parameters[i].value.as_str());
                    i += 1;
                    assert(out@ =~= start + names_text(v.parameters@, i as nat));
                }
                out.append(") ");
                out.append(block_text(&v.body).as_str());
            },
            AllExpressions::CallExpression(v) => {
                out.append(v.function.text().as_str());
                out.append("(");
                out.append(list_text(&v.arguments).as_str());
                out.append(")");
            },
            AllExpressions::Assignment(v) => {
                out.append(v.ident.value.as_str());
                out.append(" = ");
                out.append(v.value.text().as_str());
            },
        }
        assert(out@ =~= expression_text(*self));
        out
    }
}

/// The texts of the expressions, separated by a comma and a space.
pub fn list_text(list: &Vec<AllExpressions>) -> (s: String)
    ensures
        s@ == expressions_text(list@, list@.len()),
    decreases list,
{
    let mut out = String::new();
    let mut i: usize = 0;
    while i < list.len()
        invariant
            i <= list@.len(),
            out@ == expressions_text(list@, i as nat),
        decreases list@.len() - i,
    {
        if i > 0 {
            out.append(", ");
        }
        out.append(list[i].text().as_str());
        i += 1;
        assert(out@ =~= expressions_text(list@, i as nat));
    }
    out
}

/// The texts of the statements of a block, one after the other.
pub fn block_text(block: &BlockStatement) -> (s: String)
    ensures
        s@ == statements_text(block.statements@, block.statements@.len()),
    decreases block,
{
    let mut out = String::new();
    let mut i: usize = 0;
    while i < block.statements.len()
        invariant
            i <= block.statements@.len(),
            out@ == statements_text(block.statements@, i as nat),
        decreases block.statements@.len() - i,
    {
        out.append(block.statements[i].text().as_str());
        i += 1;
        assert(out@ =~= statements_text(block.statements@, i as nat));
    }
    out
}

impl AllStatements {
    /// The text of the statement.
    pub fn text(&self) -> (s: String)
        ensures
            s@ == statement_text(*self),
        decreases self,
    {
        let mut out = String::new();
        match self {
            AllStatements::Let(v) => {
                out.append("let ");
                out.append(v.name.value.as_str());
                out.append(" = ");
                out.append(v.value.text().as_str());
                out.append(";");
            },
            AllStatements::Block(v) => {
                out.append(block_text(v).as_str());
            },
            AllStatements::Expression(v) => {
                match &v.expression {
                    None => {},
                    Some(inner) => {
                        out.append(inner.text().as_str());
                    },
                }
            },
            AllStatements::Return(v) => {
                out.append("return ");
                out.append(v.return_value.text().as_str());
                out.append(";");
            },
            AllStatements::While(v) => {
                out.append("while");
                out.append(v.condition.text().as_str());
                out.append(" ");
                out.append(block_text(&v.body).as_str());
            },
        }
        assert(out@ =~= statement_text(*self));
        out
    }
}

} // verus!
