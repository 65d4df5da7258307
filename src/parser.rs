//! The parser: recursive descent for statements, precedence climbing for
//! expressions. It takes tokens from the end of a stack as the scanner
//! leaves it, the end marker at the bottom.
use vstd::prelude::*;
use crate::ast::{builtin_name, block_view, expr_view, exprs_view, names_view, stmt_view, ExprV, StmtV, is_builtin, token_operator, token_precedence, Expr, Operator, Precedence, Prefix, Statement};
use crate::token::Token;
use std::rc::Rc;

verus! {

/// What the parser looked for where it failed.
#[derive(Debug, PartialEq)]
pub enum Expected {
    /// This very token.
    Token(Token),
    /// A variable or function name.
    Identifier,
    /// The start of an expression.
    Expression,
    /// An infix operator.
    Operator,
}

/// Why parsing failed.
#[derive(Debug, PartialEq)]
pub enum ParseError {
    /// The next token is not one that may stand there.
    UnexpectedToken { expected: Expected, found: Token },
    /// The tokens ran out, even the end marker.
    EmptyInput,
}

/// A number for each kind of token, the same for tokens of one kind.
pub open spec fn kind_of(t: Token) -> nat {
    match t {
        Token::ILLEGAL(_) => 0,
        Token::EOF => 1,
        Token::IDENT(_) => 2,
        Token::ASSIGN => 3,
        Token::PLUS => 4,
        Token::MINUS => 5,
        Token::ASTERISK => 6,
        Token::SLASH => 7,
        Token::MOD => 8,
        Token::EQ => 9,
        Token::LEQ => 10,
        Token::LE => 11,
        Token::GEQ => 12,
        Token::GR => 13,
        Token::NEQ => 14,
        Token::COMMA => 15,
        Token::SEMICOLON => 16,
        Token::LPAR => 17,
        Token::RPAR => 18,
        Token::LBRA => 19,
        Token::RBRA => 20,
        Token::BANG => 21,
        Token::FUNCTION => 22,
        Token::LET => 23,
        Token::RETURN => 24,
        Token::IF => 25,
        Token::ELIF => 26,
        Token::ELSE => 27,
        Token::WHILE => 28,
        Token::INT(_) => 29,
        Token::STRING(_) => 30,
        Token::TRUE => 31,
        Token::FALSE => 32,
    }
}

/// A token that carries no value.
pub open spec fn is_plain(t: Token) -> bool {
    !(t is ILLEGAL || t is IDENT || t is INT || t is STRING)
}

/// The tokens left are what was there before, less some taken from the top.
pub open spec fn pops(before: Seq<Token>, after: Seq<Token>) -> bool {
    &&& after.len() <= before.len()
    &&& forall|i: int| 0 <= i < after.len() ==> #[trigger] after[i] == before[i]
}

/// The stack of a binding statement `owo name = literal;` that ends a text:
/// its tokens read from the bottom, the end marker first.
pub open spec fn binding_stack(s: Seq<Token>) -> bool {
    &&& s.len() == 6
    &&& s[0] == Token::EOF
    &&& s[1] == Token::SEMICOLON
    &&& (s[2] is INT || s[2] is TRUE || s[2] is FALSE || s[2] is STRING)
    &&& s[3] == Token::ASSIGN
    &&& s[4] is IDENT
    &&& s[5] == Token::LET
}

/// The stack below its `k` bottom tokens, that is, with the top taken off
/// down to `k` tokens.
pub open spec fn rest(s: Seq<Token>, k: int) -> Seq<Token> {
    s.subrange(0, k)
}

/// Taking a token that must be `want`: the count of tokens left.
pub open spec fn sp_expect(s: Seq<Token>, want: Token) -> Result<int, ParseError> {
    if s.len() == 0 {
        Err(ParseError::EmptyInput)
    } else if s.last() == want {
        Ok(s.len() - 1)
    } else {
        Err(ParseError::UnexpectedToken { expected: Expected::Token(want), found: s.last() })
    }
}

/// A block: statements up to the end marker or a closing brace, which is
/// left in place; with the count of tokens left.
pub open spec fn sp_block(s: Seq<Token>) -> Result<(Seq<StmtV>, int), ParseError>
    decreases s.len(), 5nat,
{
    sp_stmts(s, Seq::empty())
}

/// The statements of a block after those in `acc`.
pub open spec fn sp_stmts(s: Seq<Token>, acc: Seq<StmtV>) -> Result<(Seq<StmtV>, int), ParseError>
    decreases s.len(), 4nat,
{
    if s.len() == 0 {
        Err(ParseError::EmptyInput)
    } else if s.last() == Token::EOF || s.last() == Token::RBRA {
        Ok((acc, s.len() as int))
    } else {
        match sp_statement(s) {
            Err(e) => Err(e),
            Ok((st, k)) => if 0 <= k <= s.len() {
                match sp_expect(rest(s, k), Token::SEMICOLON) {
                    Err(e) => Err(e),
                    Ok(k2) => if 0 <= k2 < s.len() {
                        sp_stmts(rest(s, k2), acc.push(st))
                    } else {
                        Err(ParseError::EmptyInput)
                    },
                }
            } else {
                Err(ParseError::EmptyInput)
            },
        }
    }
}

/// One statement, without its terminator.
pub open spec fn sp_statement(s: Seq<Token>) -> Result<(StmtV, int), ParseError>
    decreases s.len(), 3nat,
{
    if s.len() == 0 {
        Err(ParseError::EmptyInput)
    } else if s.last() == Token::LET {
        sp_let(s)
    } else if s.last() == Token::FUNCTION {
        sp_function(s)
    } else if s.last() == Token::RETURN {
        sp_return(s)
    } else {
        match sp_expr(s, Precedence::Lowest) {
            Err(e) => Err(e),
            Ok((e, k)) => Ok((StmtV::Expression(e), k)),
        }
    }
}

/// `owo name = expression`.
pub open spec fn sp_let(s: Seq<Token>) -> Result<(StmtV, int), ParseError>
    decreases s.len(), 1nat,
{
    match sp_expect(s, Token::LET) {
        Err(e) => Err(e),
        Ok(k1) => if k1 <= 0 {
            Err(ParseError::EmptyInput)
        } else {
            match s[k1 - 1] {
                Token::IDENT(name) => match sp_expect(rest(s, k1 - 1), Token::ASSIGN) {
                    Err(e) => Err(e),
                    Ok(k3) => if 0 <= k3 < s.len() {
                        match sp_expr(rest(s, k3), Precedence::Lowest) {
                            Err(e) => Err(e),
                            Ok((v, k4)) => Ok((StmtV::Let(name@, v), k4)),
                        }
                    } else {
                        Err(ParseError::EmptyInput)
                    },
                },
                t => Err(ParseError::UnexpectedToken { expected: Expected::Identifier, found: t }),
            }
        },
    }
}

/// `sugoi expression`.
pub open spec fn sp_return(s: Seq<Token>) -> Result<(StmtV, int), ParseError>
    decreases s.len(), 1nat,
{
    match sp_expect(s, Token::RETURN) {
        Err(e) => Err(e),
        Ok(k1) => if 0 <= k1 < s.len() {
            match sp_expr(rest(s, k1), Precedence::Lowest) {
                Err(e) => Err(e),
                Ok((v, k2)) => Ok((StmtV::Return(v), k2)),
            }
        } else {
            Err(ParseError::EmptyInput)
        },
    }
}

/// A parameter list after its opening parenthesis, up to and with the
/// closing one; the names after those in `acc`.
pub open spec fn sp_params(s: Seq<Token>, acc: Seq<Seq<char>>) -> Result<(Seq<Seq<char>>, int), ParseError>
    decreases s.len(),
{
    if s.len() == 0 {
        Err(ParseError::EmptyInput)
    } else {
        match s.last() {
            Token::RPAR => Ok((acc, s.len() - 1)),
            Token::IDENT(v) => if s.len() < 2 {
                Err(ParseError::EmptyInput)
            } else {
                match s[s.len() - 2] {
                    Token::RPAR => Ok((acc.push(v@), s.len() - 2)),
                    Token::COMMA => sp_params(rest(s, s.len() - 2), acc.push(v@)),
                    t => Err(
                        ParseError::UnexpectedToken { expected: Expected::Token(Token::COMMA), found: t },
                    ),
                }
            },
            t => Err(ParseError::UnexpectedToken { expected: Expected::Token(Token::RPAR), found: t }),
        }
    }
}

/// `uwu name(parameters) { body }`.
pub open spec fn sp_function(s: Seq<Token>) -> Result<(StmtV, int), ParseError>
    decreases s.len(), 1nat,
{
    match sp_expect(s, Token::FUNCTION) {
        Err(e) => Err(e),
        Ok(k1) => if k1 <= 0 {
            Err(ParseError::EmptyInput)
        } else {
            match s[k1 - 1] {
                Token::IDENT(name) => match sp_expect(rest(s, k1 - 1), Token::LPAR) {
                    Err(e) => Err(e),
                    Ok(k3) => match sp_params(rest(s, k3), Seq::empty()) {
                        Err(e) => Err(e),
                        Ok((ps, k4)) => if 0 <= k4 <= s.len() {
                            match sp_expect(rest(s, k4), Token::LBRA) {
                                Err(e) => Err(e),
                                Ok(k5) => if 0 <= k5 < s.len() {
                                    match sp_block(rest(s, k5)) {
                                        Err(e) => Err(e),
                                        Ok((body, k6)) => if 0 <= k6 <= s.len() {
                                            match sp_expect(rest(s, k6), Token::RBRA) {
                                                Err(e) => Err(e),
                                                Ok(k7) => Ok(
                                                    (
                                                        StmtV::Define(
                                                            name@,
                                                            ExprV::Function(ps, body),
                                                        ),
                                                        k7,
                                                    ),
                                                ),
                                            }
                                        } else {
                                            Err(ParseError::EmptyInput)
                                        },
                                    }
                                } else {
                                    Err(ParseError::EmptyInput)
                                },
                            }
                        } else {
                            Err(ParseError::EmptyInput)
                        },
                    },
                },
                t => Err(ParseError::UnexpectedToken { expected: Expected::Identifier, found: t }),
            }
        },
    }
}

/// `{ block }`.
pub open spec fn sp_brace_block(s: Seq<Token>) -> Result<(Seq<StmtV>, int), ParseError>
    decreases s.len(), 0nat,
{
    match sp_expect(s, Token::LBRA) {
        Err(e) => Err(e),
        Ok(k1) => if 0 <= k1 < s.len() {
            match sp_block(rest(s, k1)) {
                Err(e) => Err(e),
                Ok((b, k2)) => if 0 <= k2 <= s.len() {
                    match sp_expect(rest(s, k2), Token::RBRA) {
                        Err(e) => Err(e),
                        Ok(k3) => Ok((b, k3)),
                    }
                } else {
                    Err(ParseError::EmptyInput)
                },
            }
        } else {
            Err(ParseError::EmptyInput)
        },
    }
}

/// `( condition ) { block }`.
pub open spec fn sp_guarded(s: Seq<Token>) -> Result<(ExprV, Seq<StmtV>, int), ParseError>
    decreases s.len(), 0nat,
{
    match sp_expect(s, Token::LPAR) {
        Err(e) => Err(e),
        Ok(k1) => if 0 <= k1 < s.len() {
            match sp_expr(rest(s, k1), Precedence::Lowest) {
                Err(e) => Err(e),
                Ok((c, k2)) => if 0 <= k2 <= s.len() {
                    match sp_expect(rest(s, k2), Token::RPAR) {
                        Err(e) => Err(e),
                        Ok(k3) => if 0 <= k3 < s.len() {
                            match sp_brace_block(rest(s, k3)) {
                                Err(e) => Err(e),
                                Ok((b, k4)) => Ok((c, b, k4)),
                            }
                        } else {
                            Err(ParseError::EmptyInput)
                        },
                    }
                } else {
                    Err(ParseError::EmptyInput)
                },
            }
        } else {
            Err(ParseError::EmptyInput)
        },
    }
}

/// An argument list after its opening parenthesis, up to and with the
/// closing one.
pub open spec fn sp_args(s: Seq<Token>) -> Result<(Seq<ExprV>, int), ParseError>
    decreases s.len(), 3nat,
{
    if s.len() > 0 && s.last() == Token::RPAR {
        Ok((Seq::empty(), s.len() - 1))
    } else {
        sp_args_from(s, Seq::empty())
    }
}

/// The arguments after those in `acc`.
pub open spec fn sp_args_from(s: Seq<Token>, acc: Seq<ExprV>) -> Result<(Seq<ExprV>, int), ParseError>
    decreases s.len(), 2nat,
{
    if s.len() == 0 {
        Err(ParseError::EmptyInput)
    } else {
        match sp_expr(s, Precedence::Lowest) {
            Err(e) => Err(e),
            Ok((a, k1)) => if k1 <= 0 || k1 > s.len() {
                Err(ParseError::EmptyInput)
            } else {
                match s[k1 - 1] {
                    Token::RPAR => Ok((acc.push(a), k1 - 1)),
                    Token::COMMA => if k1 - 1 < s.len() {
                        sp_args_from(rest(s, k1 - 1), acc.push(a))
                    } else {
                        Err(ParseError::EmptyInput)
                    },
                    t => Err(
                        ParseError::UnexpectedToken { expected: Expected::Token(Token::RPAR), found: t },
                    ),
                }
            },
        }
    }
}

/// An expression whose operators bind tighter than `prec`.
pub open spec fn sp_expr(s: Seq<Token>, prec: Precedence) -> Result<(ExprV, int), ParseError>
    decreases s.len(), 1nat,
{
    match sp_primary(s) {
        Err(e) => Err(e),
        Ok((e, k)) => if 0 <= k < s.len() {
            sp_climb(rest(s, k), prec, e)
        } else {
            Ok((e, k))
        },
    }
}

/// Folds operators that bind tighter than `prec` onto `left`, left to right.
pub open spec fn sp_climb(s: Seq<Token>, prec: Precedence, left: ExprV) -> Result<(ExprV, int), ParseError>
    decreases s.len(), 1nat,
{
    if s.len() > 0 && prec.rank() < token_precedence(s.last()).rank() {
        match sp_infix(s, left) {
            Err(e) => Err(e),
            Ok((e2, k2)) => if 0 <= k2 < s.len() {
                sp_climb(rest(s, k2), prec, e2)
            } else {
                Ok((e2, k2))
            },
        }
    } else {
        Ok((left, s.len() as int))
    }
}

/// An operator and the operand to its right.
pub open spec fn sp_infix(s: Seq<Token>, left: ExprV) -> Result<(ExprV, int), ParseError>
    decreases s.len(), 0nat,
{
    if s.len() == 0 {
        Err(ParseError::EmptyInput)
    } else {
        match token_operator(s.last()) {
            None => Err(ParseError::UnexpectedToken { expected: Expected::Operator, found: s.last() }),
            Some(op) => match sp_expr(rest(s, s.len() - 1), token_precedence(s.last())) {
                Err(e) => Err(e),
                Ok((r, k)) => Ok((ExprV::Infix(Box::new(left), op, Box::new(r)), k)),
            },
        }
    }
}

/// A literal, a name, a call, a prefix expression, a conditional or a loop.
pub open spec fn sp_primary(s: Seq<Token>) -> Result<(ExprV, int), ParseError>
    decreases s.len(), 0nat,
{
    if s.len() == 0 {
        Err(ParseError::EmptyInput)
    } else {
        let n = s.len() - 1;
        match s.last() {
            Token::INT(v) => Ok((ExprV::Int(v), n)),
            Token::TRUE => Ok((ExprV::Bool(true), n)),
            Token::FALSE => Ok((ExprV::Bool(false), n)),
            Token::STRING(x) => Ok((ExprV::Str(x@), n)),
            Token::IDENT(x) => if n > 0 && s[n - 1] == Token::LPAR {
                match sp_args(rest(s, n - 1)) {
                    Err(e) => Err(e),
                    Ok((args, k)) => Ok(
                        (
                            if builtin_name(x@) {
                                ExprV::Builtin(x@, args)
                            } else {
                                ExprV::Call(Box::new(ExprV::Var(x@)), args)
                            },
                            k,
                        ),
                    ),
                }
            } else {
                Ok((ExprV::Var(x@), n))
            },
            Token::BANG => match sp_expr(rest(s, n), Precedence::Prefix) {
                Err(e) => Err(e),
                Ok((v, k)) => Ok((ExprV::Prefix(Prefix::Bang, Box::new(v)), k)),
            },
            Token::MINUS => match sp_expr(rest(s, n), Precedence::Prefix) {
                Err(e) => Err(e),
                Ok((v, k)) => Ok((ExprV::Prefix(Prefix::Minus, Box::new(v)), k)),
            },
            Token::IF => match sp_guarded(rest(s, n)) {
                Err(e) => Err(e),
                Ok((c, b1, k1)) => if 0 < k1 <= s.len() && s[k1 - 1] == Token::ELSE {
                    match sp_brace_block(rest(s, k1 - 1)) {
                        Err(e) => Err(e),
                        Ok((b2, k2)) => Ok((ExprV::If(Box::new(c), b1, b2), k2)),
                    }
                } else {
                    Ok((ExprV::If(Box::new(c), b1, Seq::empty()), k1))
                },
            },
            Token::WHILE => match sp_guarded(rest(s, n)) {
                Err(e) => Err(e),
                Ok((c, b, k1)) => Ok((ExprV::While(Box::new(c), b), k1)),
            },
            t => Err(ParseError::UnexpectedToken { expected: Expected::Expression, found: t }),
        }
    }
}

fn kind(t: &Token) -> (r: u8)
    ensures
        r as nat == kind_of(*t),
{
    match t {
        Token::ILLEGAL(_) => 0,
        Token::EOF => 1,
        Token::IDENT(_) => 2,
        Token::ASSIGN => 3,
        Token::PLUS => 4,
        Token::MINUS => 5,
        Token::ASTERISK => 6,
        Token::SLASH => 7,
        Token::MOD => 8,
        Token::EQ => 9,
        Token::LEQ => 10,
        Token::LE => 11,
        Token::GEQ => 12,
        Token::GR => 13,
        Token::NEQ => 14,
        Token::COMMA => 15,
        Token::SEMICOLON => 16,
        Token::LPAR => 17,
        Token::RPAR => 18,
        Token::LBRA => 19,
        Token::RBRA => 20,
        Token::BANG => 21,
        Token::FUNCTION => 22,
        Token::LET => 23,
        Token::RETURN => 24,
        Token::IF => 25,
        Token::ELIF => 26,
        Token::ELSE => 27,
        Token::WHILE => 28,
        Token::INT(_) => 29,
        Token::STRING(_) => 30,
        Token::TRUE => 31,
        Token::FALSE => 32,
    }
}

/// Whether the next token is `want`, a token that carries no value.
fn next_is(input: &Vec<Token>, want: &Token) -> (r: bool)
    requires
        is_plain(*want),
    ensures
        r == (input@.len() > 0 && input@.last() == *want),
{
    match input.last() {
        Some(t) => kind(t) == kind(want),
        None => false,
    }
}

/// Takes the next token off the stack.
fn take(input: &mut Vec<Token>) -> (r: Option<Token>)
    ensures
        pops(old(input)@, final(input)@),
        old(input)@.len() > 0 ==> r == Some(old(input)@.last()) && final(input)@
            == old(input)@.drop_last(),
        old(input)@.len() == 0 ==> r is None && final(input)@ == old(input)@,
        final(input)@.len() == (if old(input)@.len() > 0 {
            old(input)@.len() - 1
        } else {
            0
        }),
{
    input.pop()
}

/// A parsed expression agrees with the model: the same tree and the same
/// count of tokens left, or the same error.
pub open spec fn expr_agrees(r: Result<Expr, ParseError>, m: Result<(ExprV, int), ParseError>, after: Seq<Token>) -> bool {
    match m {
        Ok((v, k)) => r is Ok && expr_view(r->Ok_0) == v && after.len() == k,
        Err(e) => r == Err::<Expr, ParseError>(e),
    }
}

pub open spec fn stmt_agrees(r: Result<Statement, ParseError>, m: Result<(StmtV, int), ParseError>, after: Seq<Token>) -> bool {
    match m {
        Ok((v, k)) => r is Ok && stmt_view(r->Ok_0) == v && after.len() == k,
        Err(e) => r == Err::<Statement, ParseError>(e),
    }
}

pub open spec fn block_agrees(r: Result<Vec<Statement>, ParseError>, m: Result<(Seq<StmtV>, int), ParseError>, after: Seq<Token>) -> bool {
    match m {
        Ok((v, k)) => r is Ok && block_view(r->Ok_0) == v && after.len() == k,
        Err(e) => r == Err::<Vec<Statement>, ParseError>(e),
    }
}

pub open spec fn args_agree(r: Result<Vec<Expr>, ParseError>, m: Result<(Seq<ExprV>, int), ParseError>, after: Seq<Token>) -> bool {
    match m {
        Ok((v, k)) => r is Ok && exprs_view(r->Ok_0) == v && after.len() == k,
        Err(e) => r == Err::<Vec<Expr>, ParseError>(e),
    }
}

pub open spec fn guarded_agrees(r: Result<(Expr, Vec<Statement>), ParseError>, m: Result<(ExprV, Seq<StmtV>, int), ParseError>, after: Seq<Token>) -> bool {
    match m {
        Ok((c, b, k)) => r is Ok && expr_view(r->Ok_0.0) == c && block_view(r->Ok_0.1) == b
            && after.len() == k,
        Err(e) => r == Err::<(Expr, Vec<Statement>), ParseError>(e),
    }
}

/// What is left after taking tokens off the top is the stack cut down to
/// its length.
proof fn lemma_rest(s: Seq<Token>, t: Seq<Token>)
    requires
        pops(s, t),
    ensures
        t == rest(s, t.len() as int),
{
    assert(t =~= rest(s, t.len() as int));
}

/// Takes the next token, which must be `want`, a token that carries no value.
fn expect(input: &mut Vec<Token>, want: Token) -> (r: Result<(), ParseError>)
    requires
        is_plain(want),
    ensures
        pops(old(input)@, final(input)@),
        final(input)@.len() == (if old(input)@.len() > 0 {
            old(input)@.len() - 1
        } else {
            0
        }),
        match sp_expect(old(input)@, want) {
            Ok(k) => r is Ok && final(input)@.len() == k,
            Err(e) => r == Err::<(), ParseError>(e),
        },
{
    match take(input) {
        Some(t) => {
            if kind(&t) == kind(&want) {
                Ok(())
            } else {
                Err(ParseError::UnexpectedToken { expected: Expected::Token(want), found: t })
            }
        },
        None => Err(ParseError::EmptyInput),
    }
}

/// Parses statements until the end marker or a closing brace, which is
/// left in place.
pub fn parse(input: &mut Vec<Token>) -> (r: Result<Vec<Statement>, ParseError>)
    ensures
        pops(old(input)@, final(input)@),
        block_agrees(r, sp_block(old(input)@), final(input)@),
    decreases old(input)@.len(), 5nat,
{
    let mut statements: Vec<Statement> = Vec::new();
    let ghost start = input@;
    proof {
        assert(block_view(statements) =~= Seq::<StmtV>::empty());
    }
    loop
        invariant
            pops(start, input@),
            start == old(input)@,
            sp_block(start) == sp_stmts(input@, block_view(statements)),
        decreases input@.len(),
    {
        let ghost before = input@;
        let ghost acc = block_view(statements);
        let stop = match input.last() {
            None => {
                return Err(ParseError::EmptyInput);
            },
            Some(Token::EOF) => true,
            Some(Token::RBRA) => true,
            Some(_) => false,
        };
        if stop {
            return Ok(statements);
        }
        let parsed = parse_statement(input);
        let st = parsed?;
        proof {
            lemma_rest(before, input@);
        }
        let ghost mid = input@;
        let checked = expect(input, Token::SEMICOLON);
        checked?;
        proof {
            lemma_rest(before, input@);
            assert(rest(before, input@.len() as int) == input@);
        }
        let ghost stv = stmt_view(st);
        statements.push(st);
        proof {
            assert(block_view(statements) =~= acc.push(stv));
        }
    }
}

/// Parses one statement, without its terminator.
fn parse_statement(input: &mut Vec<Token>) -> (r: Result<Statement, ParseError>)
    ensures
        pops(old(input)@, final(input)@),
        stmt_agrees(r, sp_statement(old(input)@), final(input)@),
        r is Ok ==> final(input)@.len() < old(input)@.len(),
    decreases old(input)@.len(), 3nat,
{
    let is_let = next_is(input, &Token::LET);
    let is_function = next_is(input, &Token::FUNCTION);
    let is_return = next_is(input, &Token::RETURN);
    if input.len() == 0 {
        Err(ParseError::EmptyInput)
    } else if is_let {
        parse_let(input)
    } else if is_function {
        parse_function(input)
    } else if is_return {
        parse_return(input)
    } else {
        let parsed = parse_expression(input, Precedence::Lowest);
        let e = parsed?;
        Ok(Statement::Expression(e))
    }
}

/// Parses `owo name = expression`.
fn parse_let(input: &mut Vec<Token>) -> (r: Result<Statement, ParseError>)
    ensures
        pops(old(input)@, final(input)@),
        stmt_agrees(r, sp_let(old(input)@), final(input)@),
        r is Ok ==> final(input)@.len() < old(input)@.len(),
    decreases old(input)@.len(), 1nat,
{
    let ghost s = input@;
    let checked = expect(input, Token::LET);
    checked?;
    let name = match take(input) {
        Some(Token::IDENT(var)) => var,
        Some(t) => {
            return Err(ParseError::UnexpectedToken { expected: Expected::Identifier, found: t });
        },
        None => {
            return Err(ParseError::EmptyInput);
        },
    };
    proof {
        lemma_rest(s, input@);
    }
    let checked = expect(input, Token::ASSIGN);
    checked?;
    proof {
        lemma_rest(s, input@);
    }
    let parsed = parse_expression(input, Precedence::Lowest);
    let value = parsed?;
    Ok(Statement::Let { name, value })
}

/// Parses `sugoi expression`.
fn parse_return(input: &mut Vec<Token>) -> (r: Result<Statement, ParseError>)
    ensures
        pops(old(input)@, final(input)@),
        stmt_agrees(r, sp_return(old(input)@), final(input)@),
        r is Ok ==> final(input)@.len() < old(input)@.len(),
    decreases old(input)@.len(), 1nat,
{
    let ghost s = input@;
    let checked = expect(input, Token::RETURN);
    checked?;
    proof {
        lemma_rest(s, input@);
    }
    let parsed = parse_expression(input, Precedence::Lowest);
    let value = parsed?;
    Ok(Statement::Return { value })
}

/// Parses a parameter list after its opening parenthesis, up to and with
/// the closing one.
fn parse_parameters(input: &mut Vec<Token>) -> (r: Result<Vec<String>, ParseError>)
    ensures
        pops(old(input)@, final(input)@),
        match sp_params(old(input)@, Seq::empty()) {
            Ok((v, k)) => r is Ok && names_view(r->Ok_0@) == v && final(input)@.len() == k,
            Err(e) => r == Err::<Vec<String>, ParseError>(e),
        },
        r is Ok ==> final(input)@.len() < old(input)@.len(),
{
    let mut parameters: Vec<String> = Vec::new();
    let ghost start = input@;
    proof {
        assert(names_view(parameters@) =~= Seq::<Seq<char>>::empty());
    }
    loop
        invariant
            pops(start, input@),
            start == old(input)@,
            sp_params(start, Seq::empty()) == sp_params(input@, names_view(parameters@)),
        decreases input@.len(),
    {
        let ghost before = input@;
        let ghost acc = names_view(parameters@);
        match take(input) {
            Some(Token::RPAR) => {
                return Ok(parameters);
            },
            Some(Token::IDENT(var)) => {
                let ghost v = var@;
                parameters.push(var);
                proof {
                    assert(names_view(parameters@) =~= acc.push(v));
                }
                match take(input) {
                    Some(Token::RPAR) => {
                        return Ok(parameters);
                    },
                    Some(Token::COMMA) => {
                        proof {
                            lemma_rest(before, input@);
                        }
                    },
                    Some(t) => {
                        return Err(
                            ParseError::UnexpectedToken {
                                expected: Expected::Token(Token::COMMA),
                                found: t,
                            },
                        );
                    },
                    None => {
                        return Err(ParseError::EmptyInput);
                    },
                }
            },
            Some(t) => {
                return Err(
                    ParseError::UnexpectedToken { expected: Expected::Token(Token::RPAR), found: t },
                );
            },
            None => {
                return Err(ParseError::EmptyInput);
            },
        }
    }
}

/// Parses `uwu name(parameters) { body }` into a binding of a function literal.
fn parse_function(input: &mut Vec<Token>) -> (r: Result<Statement, ParseError>)
    ensures
        pops(old(input)@, final(input)@),
        stmt_agrees(r, sp_function(old(input)@), final(input)@),
        r is Ok ==> final(input)@.len() < old(input)@.len(),
    decreases old(input)@.len(), 1nat,
{
    let ghost s = input@;
    let checked = expect(input, Token::FUNCTION);
    checked?;
    let func_name = match take(input) {
        Some(Token::IDENT(name)) => name,
        Some(t) => {
            return Err(ParseError::UnexpectedToken { expected: Expected::Identifier, found: t });
        },
        None => {
            return Err(ParseError::EmptyInput);
        },
    };
    proof {
        lemma_rest(s, input@);
    }
    let checked = expect(input, Token::LPAR);
    checked?;
    proof {
        lemma_rest(s, input@);
    }
    let parsed = parse_parameters(input);
    let parameters = parsed?;
    proof {
        lemma_rest(s, input@);
    }
    let checked = expect(input, Token::LBRA);
    checked?;
    proof {
        lemma_rest(s, input@);
    }
    let parsed = parse(input);
    let body = parsed?;
    proof {
        lemma_rest(s, input@);
    }
    let checked = expect(input, Token::RBRA);
    checked?;
    let f = Expr::Function { parameters, body: Rc::new(body) };
    proof {
        assert(expr_view(f) == ExprV::Function(names_view(f->parameters@), block_view(*f->body)));
    }
    Ok(Statement::Define { func_name, func: f })
}

/// Parses a comma-separated argument list whose opening parenthesis was
/// taken, up to and with the closing one.
fn parse_arguments(input: &mut Vec<Token>) -> (r: Result<Vec<Expr>, ParseError>)
    ensures
        pops(old(input)@, final(input)@),
        args_agree(r, sp_args(old(input)@), final(input)@),
        r is Ok ==> final(input)@.len() < old(input)@.len(),
    decreases old(input)@.len(), 3nat,
{
    let mut args: Vec<Expr> = Vec::new();
    let ghost start = input@;
    proof {
        assert(exprs_view(args) =~= Seq::<ExprV>::empty());
    }
    if next_is(input, &Token::RPAR) {
        input.pop();
        return Ok(args);
    }
    loop
        invariant
            pops(start, input@),
            start == old(input)@,
            input@.len() <= start.len(),
            sp_args(start) == sp_args_from(input@, exprs_view(args)),
        decreases input@.len(),
    {
        let ghost before = input@;
        let ghost acc = exprs_view(args);
        if input.len() == 0 {
            return Err(ParseError::EmptyInput);
        }
        let parsed = parse_expression(input, Precedence::Lowest);
        let a = parsed?;
        proof {
            lemma_rest(before, input@);
        }
        let ghost av = expr_view(a);
        args.push(a);
        proof {
            assert(exprs_view(args) =~= acc.push(av));
        }
        match take(input) {
            Some(Token::RPAR) => {
                return Ok(args);
            },
            Some(Token::COMMA) => {
                proof {
                    lemma_rest(before, input@);
                }
            },
            Some(t) => {
                return Err(
                    ParseError::UnexpectedToken { expected: Expected::Token(Token::RPAR), found: t },
                );
            },
            None => {
                return Err(ParseError::EmptyInput);
            },
        }
    }
}

/// Parses `( condition ) { block }`, the part that `nuzzles` and `nyaa` share.
fn parse_guarded_block(input: &mut Vec<Token>) -> (r: Result<(Expr, Vec<Statement>), ParseError>)
    ensures
        pops(old(input)@, final(input)@),
        guarded_agrees(r, sp_guarded(old(input)@), final(input)@),
        r is Ok ==> final(input)@.len() < old(input)@.len(),
    decreases old(input)@.len(), 0nat,
{
    let ghost s = input@;
    let checked = expect(input, Token::LPAR);
    checked?;
    proof {
        lemma_rest(s, input@);
    }
    let parsed = parse_expression(input, Precedence::Lowest);
    let condition = parsed?;
    proof {
        lemma_rest(s, input@);
    }
    let checked = expect(input, Token::RPAR);
    checked?;
    proof {
        lemma_rest(s, input@);
    }
    let parsed = parse_block(input);
    let block = parsed?;
    Ok((condition, block))
}

/// Parses `{ block }`.
fn parse_block(input: &mut Vec<Token>) -> (r: Result<Vec<Statement>, ParseError>)
    ensures
        pops(old(input)@, final(input)@),
        block_agrees(r, sp_brace_block(old(input)@), final(input)@),
        r is Ok ==> final(input)@.len() < old(input)@.len(),
    decreases old(input)@.len(), 0nat,
{
    let ghost s = input@;
    let checked = expect(input, Token::LBRA);
    checked?;
    proof {
        lemma_rest(s, input@);
    }
    let parsed = parse(input);
    let block = parsed?;
    proof {
        lemma_rest(s, input@);
    }
    let checked = expect(input, Token::RBRA);
    checked?;
    Ok(block)
}

/// Parses an expression whose operators bind tighter than `precedence`.
fn parse_expression(input: &mut Vec<Token>, precedence: Precedence) -> (r: Result<Expr, ParseError>)
    ensures
        pops(old(input)@, final(input)@),
        expr_agrees(r, sp_expr(old(input)@, precedence), final(input)@),
        r is Ok ==> final(input)@.len() < old(input)@.len(),
    decreases old(input)@.len(), 1nat,
{
    let ghost s = input@;
    let first = match take(input) {
        Some(t) => t,
        None => {
            return Err(ParseError::EmptyInput);
        },
    };
    proof {
        lemma_rest(s, input@);
    }
    let mut left_expr = match first {
        Token::INT(value) => Expr::Integer(value),
        Token::TRUE => Expr::Boolean(true),
        Token::FALSE => Expr::Boolean(false),
        Token::STRING(value) => Expr::String(value),
        Token::IDENT(value) => {
            let ghost n = s.len() - 1;
            if next_is(input, &Token::LPAR) {
                input.pop();
                proof {
                    lemma_rest(s, input@);
                }
                assert(input@ == rest(s, n - 1));
                let parsed = parse_arguments(input);
                let args = parsed?;
                if is_builtin(value.as_str()) {
                    let e = Expr::Builtin { function_name: value, arguments: args };
                    assert(expr_view(e) == ExprV::Builtin(value@, exprs_view(args)));
                    e
                } else {
                    let e = Expr::Call { function: Box::new(Expr::Variable(value)), arguments: args };
                    assert(expr_view(*e->Call_function) == ExprV::Var(e->Call_function->Variable_0@));
                    assert(expr_view(e) == ExprV::Call(
                        Box::new(ExprV::Var(e->Call_function->Variable_0@)),
                        exprs_view(e->Call_arguments),
                    ));
                    e
                }
            } else {
                Expr::Variable(value)
            }
        },
        Token::BANG => {
            let parsed = parse_expression(input, Precedence::Prefix);
            let operand = parsed?;
            Expr::Prefix { prefix: Prefix::Bang, value: Box::new(operand) }
        },
        Token::MINUS => {
            let parsed = parse_expression(input, Precedence::Prefix);
            let operand = parsed?;
            Expr::Prefix { prefix: Prefix::Minus, value: Box::new(operand) }
        },
        Token::IF => {
            let parsed = parse_guarded_block(input);
            let (condition, consequence) = parsed?;
            proof {
                lemma_rest(s, input@);
            }
            let alternative = if next_is(input, &Token::ELSE) {
                input.pop();
                proof {
                    lemma_rest(s, input@);
                }
                let parsed = parse_block(input);
                parsed?
            } else {
                Vec::new()
            };
            proof {
                if alternative@.len() == 0 {
                    assert(block_view(alternative) =~= Seq::<StmtV>::empty());
                }
            }
            let e = Expr::If { condition: Box::new(condition), consequence, alternative };
            assert(expr_view(e) == ExprV::If(
                Box::new(expr_view(*e->If_condition)),
                block_view(e->If_consequence),
                block_view(e->If_alternative),
            ));
            e
        },
        Token::WHILE => {
            let parsed = parse_guarded_block(input);
            let (condition, instruction) = parsed?;
            let e = Expr::While { condition: Box::new(condition), instruction };
            assert(expr_view(e) == ExprV::While(
                Box::new(expr_view(*e->While_condition)),
                block_view(e->instruction),
            ));
            e
        },
        t => {
            return Err(ParseError::UnexpectedToken { expected: Expected::Expression, found: t });
        },
    };
    proof {
        lemma_rest(s, input@);
    }
    let ghost k0 = input@.len() as int;
    assert(sp_primary(s) == Ok::<(ExprV, int), ParseError>((expr_view(left_expr), k0)));
    loop
        invariant
            pops(s, input@),
            s == old(input)@,
            input@.len() < s.len(),
            sp_expr(s, precedence) == sp_climb(input@, precedence, expr_view(left_expr)),
        decreases input@.len(),
    {
        let ghost before = input@;
        let binds = match input.last() {
            Some(t) => precedence.level() < t.priority().level(),
            None => false,
        };
        if !binds {
            return Ok(left_expr);
        }
        let combined = parse_infix(left_expr, input);
        left_expr = combined?;
        proof {
            lemma_rest(before, input@);
        }
    }
}

/// Parses the operator after `left` and the operand to its right.
fn parse_infix(left: Expr, input: &mut Vec<Token>) -> (r: Result<Expr, ParseError>)
    ensures
        pops(old(input)@, final(input)@),
        expr_agrees(r, sp_infix(old(input)@, expr_view(left)), final(input)@),
        r is Ok ==> final(input)@.len() < old(input)@.len(),
    decreases old(input)@.len(), 0nat,
{
    let ghost s = input@;
    let ghost lv = expr_view(left);
    let next_token = match take(input) {
        Some(t) => t,
        None => {
            return Err(ParseError::EmptyInput);
        },
    };
    let operator = match next_token {
        Token::PLUS => Operator::Plus,
        Token::MINUS => Operator::Minus,
        Token::SLASH => Operator::Divide,
        Token::MOD => Operator::Modulo,
        Token::ASTERISK => Operator::Multiply,
        Token::LEQ => Operator::LessThanEqual,
        Token::LE => Operator::LessThan,
        Token::GEQ => Operator::GreaterThanEqual,
        Token::GR => Operator::GreaterThan,
        Token::EQ => Operator::Equals,
        Token::NEQ => Operator::NotEquals,
        t => {
            return Err(ParseError::UnexpectedToken { expected: Expected::Operator, found: t });
        },
    };
    proof {
        lemma_rest(s, input@);
    }
    let parsed = parse_expression(input, next_token.priority());
    let right = parsed?;
    Ok(Expr::Infix { left: Box::new(left), operator, right: Box::new(right) })
}

/// A binding statement `owo name = literal;` that ends a text parses to that
/// one binding, with only the end marker left.
pub proof fn lemma_binding_statement(s: Seq<Token>)
    requires
        binding_stack(s),
    ensures
        sp_block(s) matches Ok((v, k)) && k == 1 && v.len() == 1 && v[0] == StmtV::Let(
            s[4]->IDENT_0@,
            literal_view(s[2]),
        ),
{
    let r5 = rest(s, 5);
    let r3 = rest(s, 3);
    let r2 = rest(s, 2);
    let r1 = rest(s, 1);
    assert(rest(s, 4) =~= s.subrange(0, 4));
    assert(r5.last() == s[4]);
    assert(r3.last() == s[2]);
    assert(rest(r3, 2) =~= r2);
    assert(r2.last() == Token::SEMICOLON);
    assert(sp_primary(r3) == Ok::<(ExprV, int), ParseError>((literal_view(s[2]), 2)));
    assert(sp_climb(r2, Precedence::Lowest, literal_view(s[2])) == Ok::<(ExprV, int), ParseError>(
        (literal_view(s[2]), 2),
    ));
    assert(sp_expr(r3, Precedence::Lowest) == Ok::<(ExprV, int), ParseError>(
        (literal_view(s[2]), 2),
    ));
    assert(sp_let(s) == Ok::<(StmtV, int), ParseError>(
        (StmtV::Let(s[4]->IDENT_0@, literal_view(s[2])), 2),
    ));
    assert(rest(s, 2) =~= r2);
    assert(r1.last() == Token::EOF);
    assert(sp_stmts(r1, seq![StmtV::Let(s[4]->IDENT_0@, literal_view(s[2]))]) == Ok::<
        (Seq<StmtV>, int),
        ParseError,
    >((seq![StmtV::Let(s[4]->IDENT_0@, literal_view(s[2]))], 1)));
    assert(Seq::<StmtV>::empty().push(StmtV::Let(s[4]->IDENT_0@, literal_view(s[2]))) =~= seq![
        StmtV::Let(s[4]->IDENT_0@, literal_view(s[2])),
    ]);
}

/// The tree of the literal that a token spells.
pub open spec fn literal_view(t: Token) -> ExprV {
    match t {
        Token::INT(v) => ExprV::Int(v),
        Token::TRUE => ExprV::Bool(true),
        Token::FALSE => ExprV::Bool(false),
        Token::STRING(x) => ExprV::Str(x@),
        _ => ExprV::Bool(false),
    }
}

} // verus!
