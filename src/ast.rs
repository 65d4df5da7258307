//! The syntax tree: statements, expressions and operator precedence.
use vstd::prelude::*;
use crate::text::{chars_of, same_chars};
use crate::token::Token;
use std::rc::Rc;

verus! {

broadcast use vstd::std_specs::vec::axiom_vec_index_decreases;

/// A statement; a sequence of them forms a block.
#[derive(Debug, PartialEq)]
pub enum Statement {
    Let { name: String, value: Expr },
    Define { func_name: String, func: Expr },
    Return { value: Expr },
    Expression(Expr),
}

/// An expression tree.
#[derive(Debug, PartialEq)]
pub enum Expr {
    String(String),
    Variable(String),
    Boolean(bool),
    Integer(i64),
    Prefix { prefix: Prefix, value: Box<Expr> },
    Infix { left: Box<Expr>, operator: Operator, right: Box<Expr> },
    If { condition: Box<Expr>, consequence: Vec<Statement>, alternative: Vec<Statement> },
    While { condition: Box<Expr>, instruction: Vec<Statement> },
    Function { parameters: Vec<String>, body: Rc<Vec<Statement>> },
    Call { function: Box<Expr>, arguments: Vec<Expr> },
    Builtin { function_name: String, arguments: Vec<Expr> },
}

/// A unary prefix operator.
#[derive(Debug, Clone, Copy, PartialEq, Eq, Structural)]
pub enum Prefix {
    Bang,
    Minus,
}

/// Binding power of an operator, from weakest to strongest.
#[derive(Debug, Clone, Copy, PartialEq, Eq, Structural, PartialOrd)]
pub enum Precedence {
    Lowest,
    Equals,
    LessGreater,
    Sum,
    Product,
    Prefix,
}

/// A binary infix operator.
#[derive(Debug, Clone, Copy, PartialEq, Eq, Structural)]
pub enum Operator {
    Plus,
    Minus,
    Multiply,
    Divide,
    Modulo,
    GreaterThan,
    GreaterThanEqual,
    LessThan,
    LessThanEqual,
    Equals,
    NotEquals,
}

impl Precedence {
    /// The position of a precedence in the order from weakest to strongest.
    pub open spec fn rank(self) -> nat {
        match self {
            Precedence::Lowest => 0,
            Precedence::Equals => 1,
            Precedence::LessGreater => 2,
            Precedence::Sum => 3,
            Precedence::Product => 4,
            Precedence::Prefix => 5,
        }
    }

    /// Returns the position of this precedence in the order.
    pub fn level(&self) -> (r: u8)
        ensures
            r as nat == self.rank(),
    {
        match self {
            Precedence::Lowest => 0,
            Precedence::Equals => 1,
            Precedence::LessGreater => 2,
            Precedence::Sum => 3,
            Precedence::Product => 4,
            Precedence::Prefix => 5,
        }
    }
}

/// The binding power of a token in infix position.
pub open spec fn token_precedence(t: Token) -> Precedence {
    match t {
        Token::PLUS | Token::MINUS => Precedence::Sum,
        Token::SLASH | Token::ASTERISK | Token::MOD => Precedence::Product,
        Token::LEQ | Token::LE | Token::GEQ | Token::GR => Precedence::LessGreater,
        Token::EQ | Token::NEQ => Precedence::Equals,
        _ => Precedence::Lowest,
    }
}

/// The infix operator that a token stands for, if any.
pub open spec fn token_operator(t: Token) -> Option<Operator> {
    match t {
        Token::PLUS => Some(Operator::Plus),
        Token::MINUS => Some(Operator::Minus),
        Token::SLASH => Some(Operator::Divide),
        Token::MOD => Some(Operator::Modulo),
        Token::ASTERISK => Some(Operator::Multiply),
        Token::LEQ => Some(Operator::LessThanEqual),
        Token::LE => Some(Operator::LessThan),
        Token::GEQ => Some(Operator::GreaterThanEqual),
        Token::GR => Some(Operator::GreaterThan),
        Token::EQ => Some(Operator::Equals),
        Token::NEQ => Some(Operator::NotEquals),
        _ => None,
    }
}

/// Whether a name is one of the builtin functions `len`, `quwuit` and `dprint`.
pub open spec fn builtin_name(w: Seq<char>) -> bool {
    ||| w == seq!['l', 'e', 'n']
    ||| w == seq!['q', 'u', 'w', 'u', 'i', 't']
    ||| w == seq!['d', 'p', 'r', 'i', 'n', 't']
}

/// Whether a name is one of the builtin functions.
pub fn is_builtin(func_name: &str) -> (r: bool)
    ensures
        r == builtin_name(func_name@),
{
    let w = chars_of(func_name);
    same_chars(w.as_slice(), &['l', 'e', 'n'])
        || same_chars(w.as_slice(), &['q', 'u', 'w', 'u', 'i', 't'])
        || same_chars(w.as_slice(), &['d', 'p', 'r', 'i', 'n', 't'])
}

/// The mathematical value of an expression: names as character sequences,
/// lists as sequences.
pub ghost enum ExprV {
    Str(Seq<char>),
    Var(Seq<char>),
    Bool(bool),
    Int(i64),
    Prefix(Prefix, Box<ExprV>),
    Infix(Box<ExprV>, Operator, Box<ExprV>),
    If(Box<ExprV>, Seq<StmtV>, Seq<StmtV>),
    While(Box<ExprV>, Seq<StmtV>),
    Function(Seq<Seq<char>>, Seq<StmtV>),
    Call(Box<ExprV>, Seq<ExprV>),
    Builtin(Seq<char>, Seq<ExprV>),
}

/// The mathematical value of a statement.
pub ghost enum StmtV {
    Let(Seq<char>, ExprV),
    Define(Seq<char>, ExprV),
    Return(ExprV),
    Expression(ExprV),
}

pub open spec fn names_view(ns: Seq<String>) -> Seq<Seq<char>> {
    ns.map_values(|n: String| n@)
}

pub open spec fn expr_view(e: Expr) -> ExprV
    decreases e,
{
    match e {
        Expr::String(s) => ExprV::Str(s@),
        Expr::Variable(s) => ExprV::Var(s@),
        Expr::Boolean(b) => ExprV::Bool(b),
        Expr::Integer(v) => ExprV::Int(v),
        Expr::Prefix { prefix, value } => ExprV::Prefix(prefix, Box::new(expr_view(*value))),
        Expr::Infix { left, operator, right } => ExprV::Infix(
            Box::new(expr_view(*left)),
            operator,
            Box::new(expr_view(*right)),
        ),
        Expr::If { condition, consequence, alternative } => ExprV::If(
            Box::new(expr_view(*condition)),
            block_view(consequence),
            block_view(alternative),
        ),
        Expr::While { condition, instruction } => ExprV::While(
            Box::new(expr_view(*condition)),
            block_view(instruction),
        ),
        Expr::Function { parameters, body } => ExprV::Function(
            names_view(parameters@),
            block_view(*body),
        ),
        Expr::Call { function, arguments } => ExprV::Call(
            Box::new(expr_view(*function)),
            exprs_view(arguments),
        ),
        Expr::Builtin { function_name, arguments } => ExprV::Builtin(
            function_name@,
            exprs_view(arguments),
        ),
    }
}

pub open spec fn exprs_view(v: Vec<Expr>) -> Seq<ExprV>
    decreases v,
{
    Seq::new(
        v@.len(),
        |i: int|
            if 0 <= i < v@.len() {
                expr_view(v[i])
            } else {
                ExprV::Bool(false)
            },
    )
}

pub open spec fn block_view(v: Vec<Statement>) -> Seq<StmtV>
    decreases v,
{
    Seq::new(
        v@.len(),
        |i: int|
            if 0 <= i < v@.len() {
                stmt_view(v[i])
            } else {
                StmtV::Expression(ExprV::Bool(false))
            },
    )
}

pub open spec fn stmt_view(st: Statement) -> StmtV
    decreases st,
{
    match st {
        Statement::Let { name, value } => StmtV::Let(name@, expr_view(value)),
        Statement::Define { func_name, func } => StmtV::Define(func_name@, expr_view(func)),
        Statement::Return { value } => StmtV::Return(expr_view(value)),
        Statement::Expression(e) => StmtV::Expression(expr_view(e)),
    }
}

/// Relies on `Rc::clone`: the new pointer shares the value of the old one.
#[verifier::external_body]
pub(crate) fn share(b: &Rc<Vec<Statement>>) -> (r: Rc<Vec<Statement>>)
    ensures
        r == *b,
{
    Rc::clone(b)
}

/// A copy of a list of names.
pub fn copy_names(names: &Vec<String>) -> (r: Vec<String>)
    ensures
        r@.len() == names@.len(),
        forall|i: int| 0 <= i < names@.len() ==> #[trigger] r@[i]@ == names@[i]@,
{
    let mut out: Vec<String> = Vec::new();
    let mut i: usize = 0;
    while i < names.len()
        invariant
            i <= names@.len(),
            out@.len() == i,
            forall|j: int| 0 <= j < i ==> #[trigger] out@[j]@ == names@[j]@,
        decreases names@.len() - i,
    {
        out.push(names[i].clone());
        i = i + 1;
    }
    out
}

impl Token {
    /// The binding power of this token when it stands between two operands.
    pub fn priority(&self) -> (r: Precedence)
        ensures
            r == token_precedence(*self),
    {
        match self {
            Token::PLUS => Precedence::Sum,
            Token::MINUS => Precedence::Sum,
            Token::SLASH => Precedence::Product,
            Token::ASTERISK => Precedence::Product,
            Token::MOD => Precedence::Product,
            Token::LEQ => Precedence::LessGreater,
            Token::LE => Precedence::LessGreater,
            Token::GEQ => Precedence::LessGreater,
            Token::GR => Precedence::LessGreater,
            Token::EQ => Precedence::Equals,
            Token::NEQ => Precedence::Equals,
            _ => Precedence::Lowest,
        }
    }
}

} // verus!
