//! Runtime values and the evaluator.
use vstd::prelude::*;
use crate::ast::{copy_names, share, Expr, Operator, Prefix, Statement};
pub use crate::env::Env;
use crate::env::{closure_model, ClosureM, EnvM};
use crate::env::Closure;
use crate::text::{char_count, chars_of, same_chars, string_of};

verus! {

/// The deepest nesting of evaluation allowed: syntactic nesting and
/// function calls both count.
pub const MAX_DEPTH: u64 = 512;

/// The most iterations one loop may run: the largest count a machine word
/// holds, which no loop whose condition rests on integer values reaches.
pub const MAX_ITERATIONS: u64 = 0xffff_ffff_ffff_ffff;

/// A runtime value, or a signal that travels up through blocks.
#[derive(Debug, PartialEq)]
pub enum Object {
    Null,
    Integer(i64),
    String(String),
    Boolean(bool),
    /// A value on its way out of a function body.
    Return(Box<Object>),
    /// A function: the index of its closure in the environment.
    Function(usize),
    /// The signal to end the program.
    Terminate,
    /// A value that was printed.
    Print(Box<Object>),
}

/// What the driver does with the value of a top-level statement.
#[derive(Debug, PartialEq)]
pub enum InterpreterAction {
    /// Print the value.
    Print(Object),
    /// End the program.
    Terminate,
    /// Nothing to do; the value is kept.
    Keep(Object),
}

/// An operation that takes operands of given kinds only.
#[derive(Debug, Clone, Copy, PartialEq, Eq, Structural)]
pub enum Operation {
    Infix(Operator),
    Prefix(Prefix),
    /// The builtin `len`.
    Length,
}

/// Why evaluation failed.
#[derive(Debug, PartialEq)]
pub enum EvalError {
    /// A name that no scope binds.
    UnknownVariable(String),
    UnknownBuiltin,
    /// An operation met operands of kinds it does not take.
    TypeMismatch { operation: Operation },
    ArityMismatch { expected: usize, found: usize },
    DivisionByZero,
    /// A condition did not evaluate to a boolean.
    ConditionTypeError,
    RecursionLimitExceeded,
    IterationLimitExceeded,
    /// A call of something that is not a function.
    NotAFunction,
    /// An integer result does not fit in 64 signed bits.
    IntegerOverflow,
}

impl Object {
    /// A copy of this value.
    pub fn duplicate(&self) -> (r: Object)
        ensures
            r == *self,
        decreases self,
    {
        match self {
            Object::Null => Object::Null,
            Object::Integer(v) => Object::Integer(*v),
            Object::String(s) => Object::String(s.clone()),
            Object::Boolean(b) => Object::Boolean(*b),
            Object::Return(inner) => Object::Return(Box::new(inner.duplicate())),
            Object::Function(h) => Object::Function(*h),
            Object::Terminate => Object::Terminate,
            Object::Print(inner) => Object::Print(Box::new(inner.duplicate())),
        }
    }

    /// What the driver does with this value.
    pub fn action(self) -> (r: InterpreterAction)
        ensures
            match self {
                Object::Terminate => r == InterpreterAction::Terminate,
                Object::Print(v) => r == InterpreterAction::Print(*v),
                o => r == InterpreterAction::Keep(o),
            },
    {
        match self {
            Object::Terminate => InterpreterAction::Terminate,
            Object::Print(v) => InterpreterAction::Print(*v),
            o => InterpreterAction::Keep(o),
        }
    }
}

/// The words the driver shows when the program ends.
pub const FAREWELL: &'static str = "Nyaaa!~, t-t-thanks fow u-using uwucode?!?1 Come *boops your nose* again *huggles tightly* soon?!! \u{1F97A}";

/// The decimal digits of a natural number.
pub open spec fn digits(n: nat) -> Seq<char>
    decreases n,
{
    if n < 10 {
        seq![digit_char(n)]
    } else {
        digits(n / 10).push(digit_char(n % 10))
    }
}

/// The character of a decimal digit.
pub open spec fn digit_char(d: nat) -> char {
    if d == 0 { '0' } else if d == 1 { '1' } else if d == 2 { '2' } else if d == 3 { '3' }
    else if d == 4 { '4' } else if d == 5 { '5' } else if d == 6 { '6' } else if d == 7 { '7' }
    else if d == 8 { '8' } else { '9' }
}

/// The decimal form of an integer, with a minus sign if it is negative.
pub open spec fn decimal(v: int) -> Seq<char> {
    if v < 0 {
        seq!['-'] + digits((-v) as nat)
    } else {
        digits(v as nat)
    }
}

/// The text that shows a value: integers in decimal, strings as they are,
/// booleans and null as the language's words for them, and a signal as the
/// value it carries.
pub open spec fn rendered(o: Object) -> Seq<char>
    decreases o,
{
    match o {
        Object::Null => "none"@,
        Object::Integer(v) => decimal(v as int),
        Object::String(s) => s@,
        Object::Boolean(b) => if b {
            "truwu"@
        } else {
            "fowose"@
        },
        Object::Return(inner) => rendered(*inner),
        Object::Function(_) => Seq::empty(),
        Object::Terminate => FAREWELL@,
        Object::Print(inner) => rendered(*inner),
    }
}

/// The decimal digits of a number.
fn digits_of(n: u64) -> (r: Vec<char>)
    ensures
        r@ == digits(n as nat),
    decreases n,
{
    if n < 10 {
        let mut v: Vec<char> = Vec::new();
        v.push(digit_of(n));
        v
    } else {
        let mut v = digits_of(n / 10);
        v.push(digit_of(n % 10));
        v
    }
}

/// The character of a decimal digit.
fn digit_of(d: u64) -> (c: char)
    requires
        d < 10,
    ensures
        c == digit_char(d as nat),
{
    match d {
        0 => '0',
        1 => '1',
        2 => '2',
        3 => '3',
        4 => '4',
        5 => '5',
        6 => '6',
        7 => '7',
        8 => '8',
        _ => '9',
    }
}

impl Object {
    /// The text that shows this value.
    pub fn render(&self) -> (r: String)
        ensures
            r@ == rendered(*self),
        decreases self,
    {
        match self {
            Object::Null => word("none"),
            Object::Integer(v) => {
                let m = magnitude(*v);
                let ds = digits_of(m);
                if *v < 0 {
                    let mut all: Vec<char> = Vec::new();
                    all.push('-');
                    let mut i: usize = 0;
                    while i < ds.len()
                        invariant
                            i <= ds@.len(),
                            all@ == seq!['-'] + ds@.subrange(0, i as int),
                        decreases ds@.len() - i,
                    {
                        all.push(ds[i]);
                        assert(ds@.subrange(0, i + 1) == ds@.subrange(0, i as int).push(ds@[i as int]));
                        i = i + 1;
                    }
                    assert(ds@.subrange(0, ds@.len() as int) == ds@);
                    string_of(all.as_slice())
                } else {
                    string_of(ds.as_slice())
                }
            },
            Object::String(s) => s.clone(),
            Object::Boolean(b) => if *b {
                word("truwu")
            } else {
                word("fowose")
            },
            Object::Return(inner) => inner.render(),
            Object::Function(_) => String::new(),
            Object::Terminate => word(FAREWELL),
            Object::Print(inner) => inner.render(),
        }
    }
}

/// A string of the characters of a `str`.
fn word(w: &str) -> (r: String)
    ensures
        r@ == w@,
{
    let cs = chars_of(w);
    string_of(cs.as_slice())
}

pub open spec fn in_i64(v: int) -> bool {
    i64::MIN <= v <= i64::MAX
}

/// Division that rounds toward zero.
pub open spec fn trunc_div(a: int, b: int) -> int {
    let q: int = vstd::math::abs(a) as int / vstd::math::abs(b) as int;
    if (a < 0) == (b < 0) {
        q
    } else {
        -q
    }
}

/// The remainder of division that rounds toward zero; it has the sign of `a`.
pub open spec fn trunc_rem(a: int, b: int) -> int {
    a - b * trunc_div(a, b)
}

/// An integer result, or overflow where it does not fit.
pub open spec fn checked(v: int) -> Result<Object, EvalError> {
    if in_i64(v) {
        Ok(Object::Integer(v as i64))
    } else {
        Err(EvalError::IntegerOverflow)
    }
}

/// Whether an operator is one of `+ - * / %`.
pub open spec fn is_arithmetic(op: Operator) -> bool {
    op is Plus || op is Minus || op is Multiply || op is Divide || op is Modulo
}

/// The result of an arithmetic operator on two integers.
pub open spec fn arith(op: Operator, a: int, b: int) -> Result<Object, EvalError> {
    match op {
        Operator::Plus => checked(a + b),
        Operator::Minus => checked(a - b),
        Operator::Multiply => checked(a * b),
        Operator::Divide => if b == 0 {
            Err(EvalError::DivisionByZero)
        } else {
            checked(trunc_div(a, b))
        },
        Operator::Modulo => if b == 0 {
            Err(EvalError::DivisionByZero)
        } else {
            checked(trunc_rem(a, b))
        },
        _ => Err(EvalError::TypeMismatch { operation: Operation::Infix(op) }),
    }
}

/// The result of a comparison operator on two integers.
pub open spec fn compare(op: Operator, a: int, b: int) -> bool {
    match op {
        Operator::LessThan => a < b,
        Operator::LessThanEqual => a <= b,
        Operator::GreaterThan => a > b,
        Operator::GreaterThanEqual => a >= b,
        Operator::Equals => a == b,
        _ => a != b,
    }
}

/// The value of `l op r`.
pub open spec fn infix_result(op: Operator, l: Object, r: Object) -> Result<Object, EvalError> {
    if is_arithmetic(op) {
        match (l, r) {
            (Object::Integer(a), Object::Integer(b)) => arith(op, a as int, b as int),
            _ => Err(EvalError::TypeMismatch { operation: Operation::Infix(op) }),
        }
    } else {
        match (l, r) {
            (Object::Integer(a), Object::Integer(b)) => Ok(Object::Boolean(compare(op, a as int, b as int))),
            (Object::String(x), Object::String(y)) => if op is Equals {
                Ok(Object::Boolean(x@ == y@))
            } else if op is NotEquals {
                Ok(Object::Boolean(x@ != y@))
            } else {
                Err(EvalError::TypeMismatch { operation: Operation::Infix(op) })
            },
            _ => Err(EvalError::TypeMismatch { operation: Operation::Infix(op) }),
        }
    }
}

/// The value of a prefix operator applied to a value.
pub open spec fn prefix_result(p: Prefix, v: Object) -> Result<Object, EvalError> {
    match (p, v) {
        (Prefix::Minus, Object::Integer(a)) => checked(-(a as int)),
        (Prefix::Bang, Object::Boolean(b)) => Ok(Object::Boolean(!b)),
        _ => Err(EvalError::TypeMismatch { operation: Operation::Prefix(p) }),
    }
}

/// Division and remainder by zero are a division-by-zero error, whatever
/// the dividend.
pub proof fn lemma_division_by_zero(a: i64)
    ensures
        infix_result(Operator::Divide, Object::Integer(a), Object::Integer(0)) == Err::<
            Object,
            EvalError,
        >(EvalError::DivisionByZero),
        infix_result(Operator::Modulo, Object::Integer(a), Object::Integer(0)) == Err::<
            Object,
            EvalError,
        >(EvalError::DivisionByZero),
{
}

/// Comparing two integers for equality gives whether they are equal, and
/// comparing an integer with a string, either way round, is a type mismatch.
pub proof fn lemma_integer_equality(a: i64, b: i64, s: String)
    ensures
        infix_result(Operator::Equals, Object::Integer(a), Object::Integer(b)) == Ok::<
            Object,
            EvalError,
        >(Object::Boolean(a == b)),
        infix_result(Operator::Equals, Object::Integer(a), Object::String(s)) == Err::<
            Object,
            EvalError,
        >(EvalError::TypeMismatch { operation: Operation::Infix(Operator::Equals) }),
        infix_result(Operator::Equals, Object::String(s), Object::Integer(a)) == Err::<
            Object,
            EvalError,
        >(EvalError::TypeMismatch { operation: Operation::Infix(Operator::Equals) }),
{
}

/// Evaluates an arithmetic operator on two integers.
pub fn eval_infix_op(operator: Operator, left: i64, right: i64) -> (r: Result<Object, EvalError>)
    requires
        is_arithmetic(operator),
    ensures
        r == arith(operator, left as int, right as int),
{
    match operator {
        Operator::Plus => {
            if (right > 0 && left > i64::MAX - right) || (right < 0 && left < i64::MIN - right) {
                Err(EvalError::IntegerOverflow)
            } else {
                Ok(Object::Integer(left + right))
            }
        },
        Operator::Minus => {
            if (right < 0 && left > i64::MAX + right) || (right > 0 && left < i64::MIN + right) {
                Err(EvalError::IntegerOverflow)
            } else {
                Ok(Object::Integer(left - right))
            }
        },
        Operator::Multiply => {
            proof {
                let l = left as int;
                let r = right as int;
                assert(-0x4000_0000_0000_0000_0000_0000_0000_0000 <= l * r
                    <= 0x4000_0000_0000_0000_0000_0000_0000_0000) by (nonlinear_arith)
                    requires
                        -0x8000_0000_0000_0000 <= l <= 0x7fff_ffff_ffff_ffff,
                        -0x8000_0000_0000_0000 <= r <= 0x7fff_ffff_ffff_ffff,
                ;
            }
            let p = (left as i128) * (right as i128);
            if p < i64::MIN as i128 || p > i64::MAX as i128 {
                Err(EvalError::IntegerOverflow)
            } else {
                Ok(Object::Integer(p as i64))
            }
        },
        _ => {
            if right == 0 {
                return Err(EvalError::DivisionByZero);
            }
            let ua: u64 = magnitude(left);
            let ub: u64 = magnitude(right);
            if operator == Operator::Divide {
                let q = ua / ub;
                if (left < 0) == (right < 0) {
                    if q > i64::MAX as u64 {
                        Err(EvalError::IntegerOverflow)
                    } else {
                        Ok(Object::Integer(q as i64))
                    }
                } else {
                    proof {
                        assert(q <= ua) by (nonlinear_arith)
                            requires
                                q == ua / ub,
                                ub >= 1,
                        ;
                    }
                    Ok(Object::Integer(negate_magnitude(q)))
                }
            } else {
                let m = ua % ub;
                proof {
                    lemma_trunc_rem(left as int, right as int, (ua / ub) as int, m as int);
                    assert(m <= ua) by (nonlinear_arith)
                        requires
                            m == ua % ub,
                            ub >= 1,
                    ;
                }
                if left < 0 {
                    Ok(Object::Integer(negate_magnitude(m)))
                } else {
                    Ok(Object::Integer(m as i64))
                }
            }
        },
    }
}

proof fn lemma_trunc_rem(a: int, b: int, qq: int, m: int)
    requires
        b != 0,
        qq == vstd::math::abs(a) as int / vstd::math::abs(b) as int,
        m == vstd::math::abs(a) as int % vstd::math::abs(b) as int,
    ensures
        trunc_rem(a, b) == if a < 0 {
            -m
        } else {
            m
        },
{
    let ua = vstd::math::abs(a) as int;
    let ub = vstd::math::abs(b) as int;
    vstd::arithmetic::div_mod::lemma_fundamental_div_mod(ua, ub);
    assert(ua == ub * qq + m);
    let t = trunc_div(a, b);
    if a >= 0 && b > 0 {
        assert(b * t == ub * qq);
    } else if a >= 0 {
        assert(b * t == ub * qq) by (nonlinear_arith)
            requires
                b == -ub,
                t == -qq,
        ;
    } else if b > 0 {
        assert(b * t == -(ub * qq)) by (nonlinear_arith)
            requires
                b == ub,
                t == -qq,
        ;
    } else {
        assert(b * t == -(ub * qq)) by (nonlinear_arith)
            requires
                b == -ub,
                t == qq,
        ;
    }
}

/// The value of a builtin applied to argument values.
pub open spec fn builtin_result(name: Seq<char>, args: Seq<Object>) -> Result<Object, EvalError> {
    if name == seq!['l', 'e', 'n'] {
        if args.len() != 1 {
            Err(EvalError::ArityMismatch { expected: 1, found: args.len() as usize })
        } else {
            match args[0] {
                Object::String(s) => checked(s@.len() as int),
                _ => Err(EvalError::TypeMismatch { operation: Operation::Length }),
            }
        }
    } else if name == seq!['q', 'u', 'w', 'u', 'i', 't'] {
        if args.len() != 0 {
            Err(EvalError::ArityMismatch { expected: 0, found: args.len() as usize })
        } else {
            Ok(Object::Terminate)
        }
    } else if name == seq!['d', 'p', 'r', 'i', 'n', 't'] {
        if args.len() != 1 {
            Err(EvalError::ArityMismatch { expected: 1, found: args.len() as usize })
        } else {
            Ok(Object::Print(Box::new(args[0])))
        }
    } else {
        Err(EvalError::UnknownBuiltin)
    }
}

/// Evaluates a comparison operator on two values.
pub fn eval_infix_comp(operator: Operator, left: &Object, right: &Object) -> (r: Result<
    Object,
    EvalError,
>)
    requires
        !is_arithmetic(operator),
    ensures
        r == infix_result(operator, *left, *right),
{
    match (left, right) {
        (Object::Integer(a), Object::Integer(b)) => {
            let v = match operator {
                Operator::LessThan => *a < *b,
                Operator::LessThanEqual => *a <= *b,
                Operator::GreaterThan => *a > *b,
                Operator::GreaterThanEqual => *a >= *b,
                Operator::Equals => *a == *b,
                _ => *a != *b,
            };
            Ok(Object::Boolean(v))
        },
        (Object::String(x), Object::String(y)) => {
            if operator == Operator::Equals {
                Ok(Object::Boolean(*x == *y))
            } else if operator == Operator::NotEquals {
                Ok(Object::Boolean(!(*x == *y)))
            } else {
                Err(EvalError::TypeMismatch { operation: Operation::Infix(operator) })
            }
        },
        _ => Err(EvalError::TypeMismatch { operation: Operation::Infix(operator) }),
    }
}

/// Evaluates a binary operator on two values: arithmetic on integers,
/// comparisons on integers, and equality on strings too.
pub fn eval_infix(operator: Operator, left: &Object, right: &Object) -> (r: Result<Object, EvalError>)
    ensures
        r == infix_result(operator, *left, *right),
{
    match operator {
        Operator::Plus | Operator::Minus | Operator::Multiply | Operator::Divide | Operator::Modulo => {
            match (left, right) {
                (Object::Integer(a), Object::Integer(b)) => eval_infix_op(operator, *a, *b),
                _ => Err(EvalError::TypeMismatch { operation: Operation::Infix(operator) }),
            }
        },
        _ => eval_infix_comp(operator, left, right),
    }
}

/// Evaluates a prefix operator on a value: `-` on integers, `!` on booleans.
pub fn eval_prefix(prefix: Prefix, value: &Object) -> (r: Result<Object, EvalError>)
    ensures
        r == prefix_result(prefix, *value),
{
    match (prefix, value) {
        (Prefix::Minus, Object::Integer(a)) => {
            if *a == i64::MIN {
                Err(EvalError::IntegerOverflow)
            } else {
                Ok(Object::Integer(-*a))
            }
        },
        (Prefix::Bang, Object::Boolean(b)) => Ok(Object::Boolean(!*b)),
        _ => Err(EvalError::TypeMismatch { operation: Operation::Prefix(prefix) }),
    }
}

/// The builtin `len`: the number of characters of its one string argument.
pub fn len(args: &Vec<Object>) -> (r: Result<Object, EvalError>)
    ensures
        r == builtin_result(seq!['l', 'e', 'n'], args@),
{
    if args.len() != 1 {
        return Err(EvalError::ArityMismatch { expected: 1, found: args.len() });
    }
    match &args[0] {
        Object::String(s) => {
            let n = char_count(s.as_str());
            if n as u64 > i64::MAX as u64 {
                Err(EvalError::IntegerOverflow)
            } else {
                Ok(Object::Integer(n as i64))
            }
        },
        _ => Err(EvalError::TypeMismatch { operation: Operation::Length }),
    }
}

/// The builtin `dprint`: marks its one argument as printed.
pub fn dprint(args: &Vec<Object>) -> (r: Result<Object, EvalError>)
    ensures
        r == builtin_result(seq!['d', 'p', 'r', 'i', 'n', 't'], args@),
{
    if args.len() != 1 {
        return Err(EvalError::ArityMismatch { expected: 1, found: args.len() });
    }
    Ok(Object::Print(Box::new(args[0].duplicate())))
}

/// Applies a builtin to argument values; what `dprint` prints is also
/// added to the environment's output.
pub fn eval_builtin(func_name: &str, args: Vec<Object>, env: &mut Env) -> (r: Result<Object, EvalError>)
    ensures
        r == builtin_result(func_name@, args@),
        final(env).frames == old(env).frames,
        final(env).current == old(env).current,
        final(env).closures == old(env).closures,
        final(env).output@ == match r {
            Ok(Object::Print(v)) => old(env).output@.push(*v),
            _ => old(env).output@,
        },
        final(env).model() == after_builtin(old(env).model(), r),
{
    let name = chars_of(func_name);
    if same_chars(name.as_slice(), &['l', 'e', 'n']) {
        len(&args)
    } else if same_chars(name.as_slice(), &['q', 'u', 'w', 'u', 'i', 't']) {
        if args.len() != 0 {
            Err(EvalError::ArityMismatch { expected: 0, found: args.len() })
        } else {
            Ok(Object::Terminate)
        }
    } else if same_chars(name.as_slice(), &['d', 'p', 'r', 'i', 'n', 't']) {
        let r = dprint(&args);
        if let Ok(Object::Print(v)) = &r {
            env.output.push(v.duplicate());
        }
        proof {
            assert(env.model().output =~= after_builtin(old(env).model(), r).output);
        }
        r
    } else {
        Err(EvalError::UnknownBuiltin)
    }
}

/// Whether a value is a signal that ends a block early.
pub open spec fn stops_block(v: Object) -> bool {
    v is Return || v is Terminate
}

/// The value of a literal or a name in an environment, if the expression
/// is one; evaluating it leaves the environment as it is.
pub open spec fn atom_value(e: Expr, env: Env) -> Option<Result<Object, EvalError>> {
    match e {
        Expr::Integer(v) => Some(Ok(Object::Integer(v))),
        Expr::Boolean(b) => Some(Ok(Object::Boolean(b))),
        Expr::String(s) => Some(Ok(Object::String(s))),
        Expr::Variable(n) => Some(
            match env.lookup(n@) {
                Some(v) => Ok(v),
                None => Err(EvalError::UnknownVariable(n)),
            },
        ),
        _ => None,
    }
}

/// A literal or a bound name whose value is not a boolean.
pub open spec fn non_boolean_atom(e: Expr, env: Env) -> bool {
    match atom_value(e, env) {
        Some(Ok(v)) => !(v is Boolean),
        _ => false,
    }
}

/// The value of an operator applied to literals and names, if the
/// expression is one: the first operand that fails gives its error.
pub open spec fn operator_value(e: Expr, env: Env) -> Option<Result<Object, EvalError>> {
    match e {
        Expr::Prefix { prefix, value } => match atom_value(*value, env) {
            Some(Ok(v)) => Some(prefix_result(prefix, v)),
            Some(Err(x)) => Some(Err(x)),
            None => None,
        },
        Expr::Infix { left, operator, right } => match (atom_value(*left, env), atom_value(*right, env)) {
            (Some(Ok(a)), Some(Ok(b))) => Some(infix_result(operator, a, b)),
            (Some(Err(x)), Some(_)) => Some(Err(x)),
            (Some(Ok(_)), Some(Err(x))) => Some(Err(x)),
            _ => None,
        },
        _ => None,
    }
}

/// The environment after a builtin: what `dprint` printed is appended to
/// the output.
pub open spec fn after_builtin(m: EnvM, r: Result<Object, EvalError>) -> EnvM {
    match r {
        Ok(Object::Print(v)) => EnvM { output: m.output.push(*v), ..m },
        _ => m,
    }
}

/// The value of an expression evaluated with at most `d` levels of nesting,
/// and the environment after it.
pub open spec fn ev_expr(e: Expr, m: EnvM, d: nat) -> (Result<Object, EvalError>, EnvM)
    decreases d, 0nat,
{
    if d == 0 {
        (Err(EvalError::RecursionLimitExceeded), m)
    } else {
        let d1 = (d - 1) as nat;
        match e {
            Expr::String(s) => (Ok(Object::String(s)), m),
            Expr::Integer(v) => (Ok(Object::Integer(v)), m),
            Expr::Boolean(b) => (Ok(Object::Boolean(b)), m),
            Expr::Prefix { prefix, value } => {
                let (x, m1) = ev_expr(*value, m, d1);
                match x {
                    Err(er) => (Err(er), m1),
                    Ok(v) => (prefix_result(prefix, v), m1),
                }
            },
            Expr::Infix { left, operator, right } => {
                let (x, m1) = ev_expr(*left, m, d1);
                match x {
                    Err(er) => (Err(er), m1),
                    Ok(l) => {
                        let (y, m2) = ev_expr(*right, m1, d1);
                        match y {
                            Err(er) => (Err(er), m2),
                            Ok(r) => (infix_result(operator, l, r), m2),
                        }
                    },
                }
            },
            Expr::If { condition, consequence, alternative } => {
                let (x, m1) = ev_expr(*condition, m, d1);
                match x {
                    Err(er) => (Err(er), m1),
                    Ok(Object::Boolean(true)) => ev_block(consequence@, m1, d1),
                    Ok(Object::Boolean(false)) => ev_block(alternative@, m1, d1),
                    Ok(_) => (Err(EvalError::ConditionTypeError), m1),
                }
            },
            Expr::While { condition, instruction } => ev_while(*condition, instruction@, m, d1, 0),
            Expr::Variable(n) => (
                match m.lookup(n@) {
                    Some(v) => Ok(v),
                    None => Err(EvalError::UnknownVariable(n)),
                },
                m,
            ),
            Expr::Function { parameters, body } => (
                Ok(Object::Function(m.closures.len() as usize)),
                EnvM {
                    closures: m.closures.push(
                        ClosureM {
                            params: parameters@.map_values(|n: String| n@),
                            body: *body,
                            scope: m.current,
                        },
                    ),
                    ..m
                },
            ),
            Expr::Builtin { function_name, arguments } => {
                let (x, m1) = ev_args(arguments@, m, d1);
                match x {
                    Err(er) => (Err(er), m1),
                    Ok(vals) => {
                        let r = builtin_result(function_name@, vals);
                        (r, after_builtin(m1, r))
                    },
                }
            },
            Expr::Call { function, arguments } => {
                let (x, m1) = ev_args(arguments@, m, d1);
                match x {
                    Err(er) => (Err(er), m1),
                    Ok(vals) => {
                        let (y, m2) = ev_expr(*function, m1, d1);
                        match y {
                            Err(er) => (Err(er), m2),
                            Ok(Object::Function(h)) => if h < m2.closures.len() {
                                ev_call(h, vals, m2, d1)
                            } else {
                                (Err(EvalError::NotAFunction), m2)
                            },
                            Ok(_) => (Err(EvalError::NotAFunction), m2),
                        }
                    },
                }
            },
        }
    }
}

/// Argument values, evaluated from left to right.
pub open spec fn ev_args(args: Seq<Expr>, m: EnvM, d: nat) -> (Result<Seq<Object>, EvalError>, EnvM)
    decreases d, args.len() + 1,
{
    if d == 0 {
        (Err(EvalError::RecursionLimitExceeded), m)
    } else {
        ev_args_from(args, 0, Seq::empty(), m, d)
    }
}

/// The values of the arguments from `i` on, after those in `acc`.
pub open spec fn ev_args_from(args: Seq<Expr>, i: int, acc: Seq<Object>, m: EnvM, d: nat) -> (Result<
    Seq<Object>,
    EvalError,
>, EnvM)
    decreases d, args.len() - i,
{
    if i < 0 || i >= args.len() || d == 0 {
        (Ok(acc), m)
    } else {
        let (x, m1) = ev_expr(args[i], m, (d - 1) as nat);
        match x {
            Err(er) => (Err(er), m1),
            Ok(v) => ev_args_from(args, i + 1, acc.push(v), m1, d),
        }
    }
}

/// A block: its statements in order, up to one that yields a return or
/// terminate signal; the value of the last one run, or null.
pub open spec fn ev_block(stmts: Seq<Statement>, m: EnvM, d: nat) -> (Result<Object, EvalError>, EnvM)
    decreases d, stmts.len() + 1,
{
    if d == 0 {
        (Err(EvalError::RecursionLimitExceeded), m)
    } else {
        ev_block_from(stmts, 0, Object::Null, m, d)
    }
}

/// The statements of a block from `i` on, the one before having had the
/// value `result`.
pub open spec fn ev_block_from(stmts: Seq<Statement>, i: int, result: Object, m: EnvM, d: nat) -> (Result<
    Object,
    EvalError,
>, EnvM)
    decreases d, stmts.len() - i,
{
    if i < 0 || i >= stmts.len() || d == 0 {
        (Ok(result), m)
    } else {
        let (x, m1) = ev_stmt(stmts[i], m, (d - 1) as nat);
        match x {
            Err(er) => (Err(er), m1),
            Ok(v) => if stops_block(v) {
                (Ok(v), m1)
            } else {
                ev_block_from(stmts, i + 1, v, m1, d)
            },
        }
    }
}

/// One statement: a binding yields the bound value, a return statement a
/// return signal.
pub open spec fn ev_stmt(st: Statement, m: EnvM, d: nat) -> (Result<Object, EvalError>, EnvM)
    decreases d, 0nat,
{
    if d == 0 {
        (Err(EvalError::RecursionLimitExceeded), m)
    } else {
        let d1 = (d - 1) as nat;
        match st {
            Statement::Define { func_name, func } => {
                let (x, m1) = ev_expr(func, m, d1);
                match x {
                    Err(er) => (Err(er), m1),
                    Ok(v) => (Ok(v), m1.set(func_name@, v)),
                }
            },
            Statement::Let { name, value } => {
                let (x, m1) = ev_expr(value, m, d1);
                match x {
                    Err(er) => (Err(er), m1),
                    Ok(v) => (Ok(v), m1.set(name@, v)),
                }
            },
            Statement::Expression(e) => ev_expr(e, m, d1),
            Statement::Return { value } => {
                let (x, m1) = ev_expr(value, m, d1);
                match x {
                    Err(er) => (Err(er), m1),
                    Ok(v) => (Ok(Object::Return(Box::new(v))), m1),
                }
            },
        }
    }
}

/// A loop from its `count`-th iteration on.
pub open spec fn ev_while(c: Expr, body: Seq<Statement>, m: EnvM, d: nat, count: nat) -> (Result<
    Object,
    EvalError,
>, EnvM)
    decreases d, MAX_ITERATIONS - count,
{
    if d == 0 {
        (Err(EvalError::RecursionLimitExceeded), m)
    } else {
        let (x, m1) = ev_expr(c, m, (d - 1) as nat);
        match x {
            Err(er) => (Err(er), m1),
            Ok(Object::Boolean(false)) => (Ok(Object::Null), m1),
            Ok(Object::Boolean(true)) => if count >= MAX_ITERATIONS {
                (Err(EvalError::IterationLimitExceeded), m1)
            } else {
                let (y, m2) = ev_block(body, m1, (d - 1) as nat);
                match y {
                    Err(er) => (Err(er), m2),
                    Ok(v) => if stops_block(v) {
                        (Ok(v), m2)
                    } else {
                        ev_while(c, body, m2, d, count + 1)
                    },
                }
            },
            Ok(_) => (Err(EvalError::ConditionTypeError), m1),
        }
    }
}

/// Binding the parameters from the `i`-th on to their values, in order, so
/// that of two equal names the later one wins.
pub open spec fn bind_from(m: EnvM, params: Seq<Seq<char>>, vals: Seq<Object>, i: int) -> EnvM
    decreases params.len() - i,
{
    if i < 0 || i >= params.len() || i >= vals.len() {
        m
    } else {
        bind_from(m.set(params[i], vals[i]), params, vals, i + 1)
    }
}

/// A call of the closure at index `h`: the body runs in a new frame enclosed
/// by the closure's scope, with the parameters bound; the caller's frame is
/// current again afterwards.
pub open spec fn ev_call(h: usize, vals: Seq<Object>, m: EnvM, d: nat) -> (Result<Object, EvalError>, EnvM)
    decreases d, 0nat,
{
    let c = m.closures[h as int];
    if vals.len() != c.params.len() {
        (
            Err(
                EvalError::ArityMismatch {
                    expected: c.params.len() as usize,
                    found: vals.len() as usize,
                },
            ),
            m,
        )
    } else if d == 0 {
        (Err(EvalError::RecursionLimitExceeded), m)
    } else {
        let m1 = bind_from(m.enter(c.scope), c.params, vals, 0);
        let (x, m2) = ev_block(c.body@, m1, (d - 1) as nat);
        (
            match x {
                Ok(v) => Ok(unwrapped(v)),
                Err(er) => Err(er),
            },
            EnvM { current: m.current, ..m2 },
        )
    }
}

/// A literal or a name.
pub open spec fn is_atom(e: Expr) -> bool {
    e is Integer || e is Boolean || e is String || e is Variable
}

/// Expressions that are all literals or names.
pub open spec fn all_atoms(es: Seq<Expr>) -> bool {
    forall|i: int| 0 <= i < es.len() ==> is_atom(#[trigger] es[i])
}

/// A call of a named function on literals and names: evaluating it binds
/// nothing that the caller sees, whatever the body binds.
pub open spec fn call_of_atoms(e: Expr) -> bool {
    match e {
        Expr::Call { function, arguments } => (*function) is Variable && all_atoms(arguments@),
        _ => false,
    }
}

/// Argument values agree with the model's, and so does the environment.
pub open spec fn values_agree(r: Result<Vec<Object>, EvalError>, x: (Result<Seq<Object>, EvalError>, EnvM), m: EnvM) -> bool {
    &&& m == x.1
    &&& match x.0 {
        Ok(v) => r is Ok && r->Ok_0@ == v,
        Err(e) => r == Err::<Vec<Object>, EvalError>(e),
    }
}

/// A result agrees with the model's once a return signal is unwrapped, and
/// so does the environment.
pub open spec fn unwrapped_agrees(r: Result<Object, EvalError>, x: (Result<Object, EvalError>, EnvM), m: EnvM) -> bool {
    &&& m == x.1
    &&& r == match x.0 {
        Ok(v) => Ok(unwrapped(v)),
        Err(e) => Err(e),
    }
}

/// Evaluates an expression with at most `depth` levels of nesting.
pub fn eval_expr(expression: &Expr, env: &mut Env, depth: u64) -> (r: Result<Object, EvalError>)
    requires
        old(env).wf(),
    ensures
        old(env).evolves(*final(env)),
        depth == 0 ==> r == Err::<Object, EvalError>(EvalError::RecursionLimitExceeded),
        depth > 0 && atom_value(*expression, *old(env)) is Some ==> r == atom_value(
            *expression,
            *old(env),
        )->Some_0 && *final(env) == *old(env),
        depth > 1 && operator_value(*expression, *old(env)) is Some ==> r == operator_value(
            *expression,
            *old(env),
        )->Some_0,
        depth > 0 && expression is Function ==> r == Ok::<Object, EvalError>(
            Object::Function(old(env).closures@.len() as usize),
        ),
        (r, final(env).model()) == ev_expr(*expression, old(env).model(), depth as nat),
        depth == 0 ==> *final(env) == *old(env),
        depth > 0 && call_of_atoms(*expression) ==> forall|k: Seq<char>|
            #[trigger] final(env).lookup(k) == old(env).lookup(k),
    decreases depth,
{
    if depth == 0 {
        return Err(EvalError::RecursionLimitExceeded);
    }
    match expression {
        Expr::String(s) => Ok(Object::String(s.clone())),
        Expr::Integer(num) => Ok(Object::Integer(*num)),
        Expr::Boolean(val) => Ok(Object::Boolean(*val)),
        Expr::Prefix { prefix, value } => {
            let evaluated = eval_expr(value, env, depth - 1);
            let v = evaluated?;
            eval_prefix(*prefix, &v)
        },
        Expr::Infix { left, operator, right } => {
            let evaluated = eval_expr(left, env, depth - 1);
            let l = evaluated?;
            let evaluated = eval_expr(right, env, depth - 1);
            let r = evaluated?;
            eval_infix(*operator, &l, &r)
        },
        Expr::If { condition, consequence, alternative } => {
            let evaluated = eval_expr(condition, env, depth - 1);
            let c = evaluated?;
            match c {
                Object::Boolean(true) => eval_statements(consequence, env, depth - 1),
                Object::Boolean(false) => eval_statements(alternative, env, depth - 1),
                _ => Err(EvalError::ConditionTypeError),
            }
        },
        Expr::While { condition, instruction } => eval_while(condition, instruction, env, depth - 1),
        Expr::Variable(name) => {
            proof {
                crate::env::lemma_resolve_model(env.frames@, env.current as int, name@);
            }
            match env.get(name.as_str()) {
                Some(v) => Ok(v),
                None => Err(EvalError::UnknownVariable(name.clone())),
            }
        },
        Expr::Function { parameters, body } => {
            let closure = Closure {
                parameters: copy_names(parameters),
                body: share(body),
                scope: env.current,
            };
            let h = env.closures.len();
            let ghost m0 = env.model();
            let ghost cm = closure_model(closure);
            proof {
                assert(cm.params =~= parameters@.map_values(|n: String| n@));
            }
            env.closures.push(closure);
            proof {
                assert(env.model().closures =~= m0.closures.push(cm));
            }
            Ok(Object::Function(h))
        },
        Expr::Builtin { function_name, arguments } => {
            let evaluated = eval_arguments(arguments, env, depth - 1);
            let args = evaluated?;
            eval_builtin(function_name.as_str(), args, env)
        },
        Expr::Call { function, arguments } => {
            let evaluated = eval_arguments(arguments, env, depth - 1);
            let args = evaluated?;
            let evaluated = eval_expr(function, env, depth - 1);
            let callee = evaluated?;
            match callee {
                Object::Function(h) => {
                    if h < env.closures.len() {
                        eval_function(h, args, env, depth - 1)
                    } else {
                        Err(EvalError::NotAFunction)
                    }
                },
                _ => Err(EvalError::NotAFunction),
            }
        },
    }
}

/// Evaluates argument expressions from left to right.
fn eval_arguments(arguments: &Vec<Expr>, env: &mut Env, depth: u64) -> (r: Result<Vec<Object>, EvalError>)
    requires
        old(env).wf(),
    ensures
        old(env).evolves(*final(env)),
        r is Ok ==> r->Ok_0@.len() == arguments@.len(),
        values_agree(r, ev_args(arguments@, old(env).model(), depth as nat), final(env).model()),
        all_atoms(arguments@) ==> *final(env) == *old(env),
    decreases depth,
{
    let mut values: Vec<Object> = Vec::new();
    if depth == 0 {
        return Err(EvalError::RecursionLimitExceeded);
    }
    let mut i: usize = 0;
    while i < arguments.len()
        invariant
            old(env).evolves(*env),
            depth > 0,
            i <= arguments@.len(),
            values@.len() == i,
            all_atoms(arguments@) ==> *env == *old(env),
            ev_args(arguments@, old(env).model(), depth as nat) == ev_args_from(
                arguments@,
                i as int,
                values@,
                env.model(),
                depth as nat,
            ),
        decreases arguments@.len() - i,
    {
        let evaluated = eval_expr(&arguments[i], env, depth - 1);
        let v = evaluated?;
        values.push(v);
        i = i + 1;
    }
    Ok(values)
}

/// Runs a loop: evaluates the condition, and while it is true the body.
/// The loop has the value null, or the signal that ended its body early.
fn eval_while(condition: &Expr, body: &Vec<Statement>, env: &mut Env, depth: u64) -> (r: Result<
    Object,
    EvalError,
>)
    requires
        old(env).wf(),
    ensures
        old(env).evolves(*final(env)),
        r matches Ok(v) ==> v is Null || stops_block(v),
        depth > 1 && atom_value(*condition, *old(env)) == Some(
            Ok::<Object, EvalError>(Object::Boolean(false)),
        ) ==> r == Ok::<Object, EvalError>(Object::Null) && *final(env) == *old(env),
        depth > 1 && non_boolean_atom(*condition, *old(env)) ==> r == Err::<Object, EvalError>(
            EvalError::ConditionTypeError,
        ),
        (r, final(env).model()) == ev_while(*condition, body@, old(env).model(), depth as nat, 0),
    decreases depth,
{
    if depth == 0 {
        return Err(EvalError::RecursionLimitExceeded);
    }
    let mut count: u64 = 0;
    loop
        invariant
            old(env).evolves(*env),
            depth > 0,
            count <= MAX_ITERATIONS,
            count == 0 ==> *env == *old(env),
            ev_while(*condition, body@, old(env).model(), depth as nat, 0) == ev_while(
                *condition,
                body@,
                env.model(),
                depth as nat,
                count as nat,
            ),
            count > 0 && atom_value(*condition, *old(env)) is Some ==> atom_value(
                *condition,
                *old(env),
            ) == Some(Ok::<Object, EvalError>(Object::Boolean(true))),
        decreases MAX_ITERATIONS - count,
    {
        let evaluated = eval_expr(condition, env, depth - 1);
        let c = evaluated?;
        match c {
            Object::Boolean(true) => {},
            Object::Boolean(false) => {
                return Ok(Object::Null);
            },
            _ => {
                return Err(EvalError::ConditionTypeError);
            },
        }
        if count == MAX_ITERATIONS {
            return Err(EvalError::IterationLimitExceeded);
        }
        let evaluated = eval_statements(body, env, depth - 1);
        let v = evaluated?;
        if let Object::Return(_) = v {
            return Ok(v);
        }
        if let Object::Terminate = v {
            return Ok(v);
        }
        count = count + 1;
    }
}

/// Evaluates a block: its statements in order, stopping at the first that
/// yields a return or terminate signal. The block has the value of its last
/// statement, or null if it is empty.
pub fn eval_statements(statements: &Vec<Statement>, env: &mut Env, depth: u64) -> (r: Result<
    Object,
    EvalError,
>)
    requires
        old(env).wf(),
    ensures
        old(env).evolves(*final(env)),
        depth > 0 && statements@.len() == 0 ==> r == Ok::<Object, EvalError>(Object::Null),
        depth == 0 ==> r == Err::<Object, EvalError>(EvalError::RecursionLimitExceeded),
        (r, final(env).model()) == ev_block(statements@, old(env).model(), depth as nat),
    decreases depth,
{
    if depth == 0 {
        return Err(EvalError::RecursionLimitExceeded);
    }
    let mut result = Object::Null;
    let mut i: usize = 0;
    while i < statements.len()
        invariant
            old(env).evolves(*env),
            depth > 0,
            i <= statements@.len(),
            statements@.len() == 0 ==> result == Object::Null,
            ev_block(statements@, old(env).model(), depth as nat) == ev_block_from(
                statements@,
                i as int,
                result,
                env.model(),
                depth as nat,
            ),
        decreases statements@.len() - i,
    {
        let evaluated = eval_statement(&statements[i], env, depth - 1);
        result = evaluated?;
        if let Object::Return(_) = result {
            return Ok(result);
        }
        if let Object::Terminate = result {
            return Ok(result);
        }
        i = i + 1;
    }
    Ok(result)
}

/// Evaluates one statement: a binding yields the bound value, a return
/// statement a return signal.
pub fn eval_statement(statement: &Statement, env: &mut Env, depth: u64) -> (r: Result<Object, EvalError>)
    requires
        old(env).wf(),
    ensures
        old(env).evolves(*final(env)),
        depth == 0 ==> r == Err::<Object, EvalError>(EvalError::RecursionLimitExceeded),
        statement is Return && r is Ok ==> r->Ok_0 is Return,
        (match *statement {
            Statement::Let { name, value } => r matches Ok(v) ==> final(env).lookup(name@) == Some(v),
            Statement::Define { func_name, func } => r matches Ok(v) ==> final(env).lookup(
                func_name@,
            ) == Some(v),
            _ => true,
        }),
        (r, final(env).model()) == ev_stmt(*statement, old(env).model(), depth as nat),
    decreases depth,
{
    if depth == 0 {
        return Err(EvalError::RecursionLimitExceeded);
    }
    match statement {
        Statement::Define { func_name, func } => {
            let evaluated = eval_expr(func, env, depth - 1);
            let value = evaluated?;
            env.set(func_name.clone(), value.duplicate());
            Ok(value)
        },
        Statement::Let { name, value } => {
            let evaluated = eval_expr(value, env, depth - 1);
            let value = evaluated?;
            env.set(name.clone(), value.duplicate());
            Ok(value)
        },
        Statement::Expression(expr) => eval_expr(expr, env, depth - 1),
        Statement::Return { value } => {
            let evaluated = eval_expr(value, env, depth - 1);
            let v = evaluated?;
            Ok(Object::Return(Box::new(v)))
        },
    }
}

/// The value a return signal carries, through any number of them, or the
/// value itself.
pub open spec fn unwrapped(v: Object) -> Object
    decreases v,
{
    match v {
        Object::Return(inner) => unwrapped(*inner),
        _ => v,
    }
}

proof fn lemma_unwrapped(v: Object)
    ensures
        !(unwrapped(v) is Return),
    decreases v,
{
    if let Object::Return(inner) = v {
        lemma_unwrapped(*inner);
    }
}

fn unwrap_return(v: Object) -> (r: Object)
    ensures
        r == unwrapped(v),
        !(r is Return),
    decreases v,
{
    proof {
        lemma_unwrapped(v);
    }
    match v {
        Object::Return(ret) => unwrap_return(*ret),
        _ => v,
    }
}

/// Evaluates a block and unwraps a return signal that comes out of it.
pub fn eval_return(statements: &Vec<Statement>, env: &mut Env) -> (r: Result<Object, EvalError>)
    requires
        old(env).wf(),
    ensures
        old(env).evolves(*final(env)),
        statements@.len() == 0 ==> r == Ok::<Object, EvalError>(Object::Null),
        r matches Ok(v) ==> !(v is Return),
        unwrapped_agrees(r, ev_block(statements@, old(env).model(), MAX_DEPTH as nat), final(env).model()),
{
    let evaluated = eval_statements(statements, env, MAX_DEPTH);
    let result = evaluated?;
    Ok(unwrap_return(result))
}

/// Evaluates a single statement and unwraps a return signal.
pub fn eval_return_single(statement: &Statement, env: &mut Env) -> (r: Result<Object, EvalError>)
    requires
        old(env).wf(),
    ensures
        old(env).evolves(*final(env)),
        (match *statement {
            Statement::Let { name, value } => r is Ok ==> final(env).lookup(name@) is Some
                && r->Ok_0 == unwrapped(final(env).lookup(name@)->Some_0),
            _ => true,
        }),
        r matches Ok(v) ==> !(v is Return),
        unwrapped_agrees(r, ev_stmt(*statement, old(env).model(), MAX_DEPTH as nat), final(env).model()),
{
    let evaluated = eval_statement(statement, env, MAX_DEPTH);
    let result = evaluated?;
    Ok(unwrap_return(result))
}

/// Adds a frame enclosed by `scope`, makes it current, and binds each
/// parameter name to the argument value in the same place.
fn bind_local_vars(args: &Vec<String>, parameters: Vec<Object>, env: &mut Env, scope: usize) -> (r: usize)
    requires
        old(env).wf(),
        scope < old(env).frames@.len(),
        args@.len() == parameters@.len(),
    ensures
        final(env).wf(),
        r == old(env).frames@.len(),
        final(env).current == r,
        final(env).frames@.len() == old(env).frames@.len() + 1,
        forall|f: int| 0 <= f < old(env).frames@.len() ==> #[trigger] final(env).frames@[f] == old(env).frames@[f],
        final(env).closures == old(env).closures,
        final(env).model() == bind_from(
            old(env).model().enter(scope),
            args@.map_values(|n: String| n@),
            parameters@,
            0,
        ),
{
    let idx = env.push_frame(scope);
    env.current = idx;
    let mut i: usize = 0;
    while i < args.len()
        invariant
            env.wf(),
            env.current == idx,
            idx == old(env).frames@.len(),
            env.frames@.len() == idx + 1,
            forall|f: int| 0 <= f < idx ==> #[trigger] env.frames@[f] == old(env).frames@[f],
            env.closures == old(env).closures,
            i <= args@.len(),
            args@.len() == parameters@.len(),
            bind_from(
                old(env).model().enter(scope),
                args@.map_values(|n: String| n@),
                parameters@,
                0,
            ) == bind_from(env.model(), args@.map_values(|n: String| n@), parameters@, i as int),
        decreases args@.len() - i,
    {
        env.set(args[i].clone(), parameters[i].duplicate());
        i = i + 1;
    }
    idx
}

/// Calls a closure: binds the arguments in a new frame enclosed by the
/// frame the closure was made in, evaluates the body there, and unwraps a
/// return signal. The caller's frames are left as they were.
pub fn eval_function(closure: usize, args: Vec<Object>, env: &mut Env, depth: u64) -> (r: Result<Object, EvalError>)
    requires
        old(env).wf(),
        closure < old(env).closures@.len(),
    ensures
        old(env).evolves(*final(env)),
        forall|f: int| 0 <= f < old(env).frames@.len() ==> #[trigger] final(env).frames@[f] == old(env).frames@[f],
        forall|k: Seq<char>| #[trigger] final(env).lookup(k) == old(env).lookup(k),
        args@.len() != old(env).closures@[closure as int].parameters@.len() ==> r == Err::<
            Object,
            EvalError,
        >(
            EvalError::ArityMismatch {
                expected: old(env).closures@[closure as int].parameters@.len() as usize,
                found: args@.len() as usize,
            },
        ),
        r matches Ok(v) ==> !(v is Return),
        (r, final(env).model()) == ev_call(closure, args@, old(env).model(), depth as nat),
    decreases depth,
{
    let parameters = copy_names(&env.closures[closure].parameters);
    if parameters.len() != args.len() {
        return Err(EvalError::ArityMismatch { expected: parameters.len(), found: args.len() });
    }
    if depth == 0 {
        return Err(EvalError::RecursionLimitExceeded);
    }
    let body = share(&env.closures[closure].body);
    let scope = env.closures[closure].scope;
    let saved = env.current;
    let ghost before = *env;
    let ghost m0 = env.model();
    let ghost cm = m0.closures[closure as int];
    proof {
        assert(parameters@.map_values(|n: String| n@) =~= cm.params);
        assert(*body == cm.body);
        assert(scope == cm.scope);
    }
    let ghost vals = args@;
    bind_local_vars(&parameters, args, env, scope);
    let ghost m1 = env.model();
    assert(m1 == bind_from(m0.enter(cm.scope), cm.params, vals, 0));
    let evaluated = eval_statements(&body, env, depth - 1);
    let ghost m2 = env.model();
    env.current = saved;
    assert(env.model() == (EnvM { current: m0.current, ..m2 }));
    proof {
        assert forall|k: Seq<char>| #[trigger] env.lookup(k) == before.lookup(k) by {
            crate::env::lemma_outer_scope_unchanged(before, *env, k);
        }
    }
    let result = evaluated?;
    Ok(unwrap_return(result))
}

/// The absolute value of an integer, which always fits in a `u64`.
fn magnitude(a: i64) -> (r: u64)
    ensures
        r as int == vstd::math::abs(a as int),
{
    if a >= 0 {
        a as u64
    } else {
        ((-(a + 1)) as u64) + 1
    }
}

/// The negation of a magnitude no greater than that of `i64::MIN`.
fn negate_magnitude(m: u64) -> (r: i64)
    requires
        m <= i64::MAX as u64 + 1,
    ensures
        r as int == -(m as int),
{
    if m == 0 {
        0
    } else {
        -(((m - 1) as i64)) - 1
    }
}

} // verus!
