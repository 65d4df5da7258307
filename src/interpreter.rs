//! The whole pipeline on one unit of source text: scan, parse, evaluate.
use vstd::prelude::*;
use crate::eval::{eval_return_single, ev_stmt, unwrapped, EvalError, Object, MAX_DEPTH};
use crate::ast::{block_view, stmt_view, Statement, StmtV};
use crate::env::{Env, EnvM};
use crate::lexer::{reversed, tokens_from, views, LexError, Lexer};
use crate::parser::{parse, sp_block, Expected, ParseError};
use crate::token::Token;

verus! {

/// Why a unit of source text could not be run.
#[derive(Debug, PartialEq)]
pub enum InterpretError {
    Lex(LexError),
    Parse(ParseError),
    Eval(EvalError),
}

/// The trees of a list of statements.
pub open spec fn stmts_view(s: Seq<Statement>) -> Seq<StmtV> {
    s.map_values(|st: Statement| stmt_view(st))
}

/// A result agrees with the model of running statements, an evaluation
/// error wrapped as such, and so does the environment.
pub open spec fn run_agrees(r: Result<Object, InterpretError>, x: (Result<Object, EvalError>, EnvM), m: EnvM) -> bool {
    &&& m == x.1
    &&& r == match x.0 {
        Ok(v) => Ok(v),
        Err(e) => Err(InterpretError::Eval(e)),
    }
}

/// Running a token stack: the statements the parser takes from it, which
/// must leave only the end marker, run in order from the environment `m0`;
/// `r` is the outcome and `m1` the environment after it.
pub open spec fn runs(stack: Seq<Token>, r: Result<Object, InterpretError>, m0: EnvM, m1: EnvM) -> bool {
    match sp_block(stack) {
        Err(e) => r == Err::<Object, InterpretError>(InterpretError::Parse(e)) && m1 == m0,
        Ok((v, k)) => if k <= 0 || k > stack.len() {
            r == Err::<Object, InterpretError>(InterpretError::Parse(ParseError::EmptyInput)) && m1
                == m0
        } else if stack[k - 1] != Token::EOF {
            r == Err::<Object, InterpretError>(
                InterpretError::Parse(
                    ParseError::UnexpectedToken {
                        expected: Expected::Token(Token::EOF),
                        found: stack[k - 1],
                    },
                ),
            ) && m1 == m0
        } else {
            exists|stmts: Seq<Statement>|
                #[trigger] stmts_view(stmts) == v && run_agrees(
                    r,
                    run_from(stmts, 0, Object::Null, m0),
                    m1,
                )
        },
    }
}

/// Parses a token stack as the scanner leaves it, requires that only the
/// end marker is left, and runs the statements.
pub fn run_tokens(tokens: &mut Vec<Token>, env: &mut Env) -> (r: Result<Object, InterpretError>)
    requires
        old(env).wf(),
    ensures
        old(env).evolves(*final(env)),
        runs(old(tokens)@, r, old(env).model(), final(env).model()),
        r matches Ok(v) ==> !(v is Return),
{
    let ghost stack = tokens@;
    let parsed = parse(tokens);
    let statements = match parsed {
        Ok(s) => s,
        Err(e) => {
            return Err(InterpretError::Parse(e));
        },
    };
    let ghost k = tokens@.len() as int;
    proof {
        if k > 0 {
            assert(tokens@[k - 1] == stack[k - 1]);
        }
    }
    match tokens.pop() {
        Some(Token::EOF) => {},
        Some(t) => {
            return Err(
                InterpretError::Parse(
                    ParseError::UnexpectedToken { expected: Expected::Token(Token::EOF), found: t },
                ),
            );
        },
        None => {
            return Err(InterpretError::Parse(ParseError::EmptyInput));
        },
    }
    let ghost m0 = env.model();
    let evaluated = run_statements(&statements, env);
    let r = match evaluated {
        Ok(v) => Ok(v),
        Err(e) => Err(InterpretError::Eval(e)),
    };
    proof {
        assert(stmts_view(statements@) =~= block_view(statements));
        assert(run_agrees(r, run_from(statements@, 0, Object::Null, m0), env.model()));
    }
    r
}

/// Runs a unit of source text in an environment: its statements in order,
/// stopping after one that yields the terminate signal. The result is the
/// value of the last statement run, with a return signal unwrapped, or null
/// for a text with no statements. What `dprint` prints is added to the
/// environment's output.
pub fn interpret(source: &str, env: &mut Env) -> (r: Result<Object, InterpretError>)
    requires
        old(env).wf(),
    ensures
        old(env).evolves(*final(env)),
        tokens_from(source@, 0) is Err ==> r == Err::<Object, InterpretError>(
            InterpretError::Lex(tokens_from(source@, 0)->Err_0),
        ),
        tokens_from(source@, 0) is Ok ==> exists|stack: Seq<Token>|
            #[trigger] views(stack) == reversed(tokens_from(source@, 0)->Ok_0) && runs(
                stack,
                r,
                old(env).model(),
                final(env).model(),
            ),
        r matches Ok(v) ==> !(v is Return),
{
    let mut lexer = Lexer::new(source);
    let scanned = lexer.lex();
    let mut tokens = match scanned {
        Ok(t) => t,
        Err(e) => {
            return Err(InterpretError::Lex(e));
        },
    };
    let ghost stack = tokens@;
    let ghost m0 = env.model();
    let r = run_tokens(&mut tokens, env);
    proof {
        assert(runs(stack, r, m0, env.model()));
    }
    r
}

/// Top-level statements from `i` on, the one before having had the value
/// `result`: each runs at the full depth, with a return signal unwrapped,
/// and a terminate signal ends the run.
pub open spec fn run_from(stmts: Seq<Statement>, i: int, result: Object, m: EnvM) -> (Result<
    Object,
    EvalError,
>, EnvM)
    decreases stmts.len() - i,
{
    if i < 0 || i >= stmts.len() {
        (Ok(result), m)
    } else {
        let (x, m1) = ev_stmt(stmts[i], m, MAX_DEPTH as nat);
        match x {
            Err(e) => (Err(e), m1),
            Ok(v) => if unwrapped(v) is Terminate {
                (Ok(unwrapped(v)), m1)
            } else {
                run_from(stmts, i + 1, unwrapped(v), m1)
            },
        }
    }
}

/// Runs top-level statements in order, stopping after one that yields the
/// terminate signal; the value of the last one run, or null if there are
/// none.
pub fn run_statements(statements: &Vec<Statement>, env: &mut Env) -> (r: Result<Object, EvalError>)
    requires
        old(env).wf(),
    ensures
        old(env).evolves(*final(env)),
        (r, final(env).model()) == run_from(statements@, 0, Object::Null, old(env).model()),
        r matches Ok(v) ==> !(v is Return),
{
    let mut result = Object::Null;
    let mut i: usize = 0;
    while i < statements.len()
        invariant
            old(env).evolves(*env),
            i <= statements@.len(),
            !(result is Return),
            run_from(statements@, 0, Object::Null, old(env).model()) == run_from(
                statements@,
                i as int,
                result,
                env.model(),
            ),
        decreases statements@.len() - i,
    {
        let evaluated = eval_return_single(&statements[i], env);
        result = evaluated?;
        if let Object::Terminate = result {
            return Ok(result);
        }
        i = i + 1;
    }
    Ok(result)
}

} // verus!
