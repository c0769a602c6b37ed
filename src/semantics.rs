//! Meaning of programs: a big-step evaluator over the models of the syntax
//! tree and of values. Every recursive step spends one unit of a budget, so
//! that evaluation is defined for every program; running out is an error.
use vstd::prelude::*;
use crate::number::{
    Number, SCALE, from_scaled, nat_digits, spec_add, spec_sub, spec_mul, spec_div, spec_lt, spec_le,
};
use crate::ast::{BinOp, SLiteral, SExpr, SStmt};
use crate::value::{Native, SValue, SBinding, render, values_equal, find, env_set};

verus! {

/// Budget of evaluation steps for one run of a program.
pub const RUN_BUDGET: u64 = 0x100_0000_0000;

/// The seed of a fresh interpreter.
pub const DEFAULT_SEED: u64 = 0x9e37_79b9_7f4a_7c15;

/// The state of a fresh interpreter: the built-ins, nothing else, and the
/// default seed.
pub open spec fn fresh_state() -> SState {
    SState {
        globals: crate::runtime::registry(),
        locals: Seq::empty(),
        output: Seq::empty(),
        files: Seq::empty(),
        seed: DEFAULT_SEED,
        depth: 0,
    }
}

/// Deepest nesting of user function calls.
pub const MAX_CALL_DEPTH: u64 = 150;

#[derive(Debug, Clone, Copy, PartialEq, Eq, Structural)]
pub enum RunErrorKind {
    /// A variable that no environment binds.
    UndefinedVariable,
    /// A call of a name that no environment binds.
    UndefinedFunction,
    /// A call of a name bound to something other than a function.
    NotAFunction,
    /// A new value for a name bound as constant.
    ConstReassignment,
    /// An operand or argument of the wrong kind.
    TypeMismatch,
    /// A call with the wrong number of arguments; the number expected.
    ArityMismatch(u64),
    /// A read of a file that the interpreter does not hold.
    FileNotLoaded,
    /// An exponent that is not an integer.
    BadExponent,
    /// The evaluation budget ran out.
    StepLimit,
    /// User function calls nested too deeply.
    RecursionLimit,
}

/// A runtime error with the name it concerns (empty where none does).
pub struct SRunError {
    pub kind: RunErrorKind,
    pub name: Seq<char>,
}

pub enum SSignal {
    Normal,
    Returning(SValue),
    Breaking,
    Continuing,
}

/// The evaluator's state: global and local bindings, the lines written so
/// far, the files held, the random seed and the depth of user calls.
pub struct SState {
    pub globals: Seq<SBinding>,
    pub locals: Seq<SBinding>,
    pub output: Seq<Seq<char>>,
    pub files: Seq<SBinding>,
    pub seed: u64,
    pub depth: nat,
}

pub type SRes<T> = (SState, Result<T, SRunError>);

pub open spec fn fail<T>(st: SState, kind: RunErrorKind, name: Seq<char>) -> SRes<T> {
    (st, Err(SRunError { kind, name }))
}

/// What a name is bound to: locals first, then globals.
pub open spec fn lookup(st: SState, name: Seq<char>) -> Option<SBinding> {
    match find(st.locals, name) {
        Some(i) => Some(st.locals[i as int]),
        None => match find(st.globals, name) {
            Some(i) => Some(st.globals[i as int]),
            None => None,
        },
    }
}

/// Binds `name` in the local environment, unless it is bound there as constant.
pub open spec fn declare(st: SState, name: Seq<char>, v: SValue, is_const: bool) -> SRes<SSignal> {
    match find(st.locals, name) {
        Some(i) if st.locals[i as int].is_const => fail(st, RunErrorKind::ConstReassignment, name),
        _ => (
            SState { locals: env_set(st.locals, SBinding { name, value: v, is_const }), ..st },
            Ok(SSignal::Normal),
        ),
    }
}

pub open spec fn literal_value(l: SLiteral) -> SValue {
    match l {
        SLiteral::Number(n) => SValue::Number(n),
        SLiteral::String(s) => SValue::String(s),
        SLiteral::Boolean(b) => SValue::Boolean(b),
        SLiteral::Null => SValue::Null,
    }
}

pub open spec fn type_error<T>() -> Result<T, SRunError> {
    Err(SRunError { kind: RunErrorKind::TypeMismatch, name: Seq::empty() })
}

/// A binary operation on two values.
pub open spec fn binary(op: BinOp, a: SValue, b: SValue) -> Result<SValue, SRunError> {
    match op {
        BinOp::Add => match (a, b) {
            (SValue::Number(x), SValue::Number(y)) => Ok(SValue::Number(spec_add(x, y))),
            _ => if a is String || b is String {
                Ok(SValue::String(render(a) + render(b)))
            } else {
                type_error()
            },
        },
        BinOp::Eq => Ok(SValue::Boolean(values_equal(a, b))),
        BinOp::Ne => Ok(SValue::Boolean(!values_equal(a, b))),
        _ => match (a, b) {
            (SValue::Number(x), SValue::Number(y)) => Ok(
                match op {
                    BinOp::Sub => SValue::Number(spec_sub(x, y)),
                    BinOp::Mul => SValue::Number(spec_mul(x, y)),
                    BinOp::Div => SValue::Number(spec_div(x, y)),
                    BinOp::Gt => SValue::Boolean(spec_lt(y, x)),
                    BinOp::Lt => SValue::Boolean(spec_lt(x, y)),
                    BinOp::Ge => SValue::Boolean(spec_le(y, x)),
                    _ => SValue::Boolean(spec_le(x, y)),
                },
            ),
            _ => type_error(),
        },
    }
}

/// Element of an array: an index past the end, negative or not finite
/// gives `null`; fractional indexes are truncated.
pub open spec fn index_value(a: SValue, i: SValue) -> Result<SValue, SRunError> {
    match (a, i) {
        (SValue::Array(items), SValue::Number(n)) => Ok(
            match n {
                Number::Fixed(m) => if m >= 0 && m / SCALE < items.len() {
                    items[m / SCALE]
                } else {
                    SValue::Null
                },
                _ => SValue::Null,
            },
        ),
        _ => type_error(),
    }
}

/// ANSI escape of `code` around `text`, reset at the end.
pub open spec fn ansi(code: u8, text: Seq<char>) -> Seq<char> {
    seq!['\u{1b}', '['] + nat_digits(code as nat) + seq!['m'] + text + seq!['\u{1b}', '[', '0', 'm']
}

/// Integer square root.
pub open spec fn is_isqrt(r: nat, n: nat) -> bool {
    r * r <= n < (r + 1) * (r + 1)
}

pub open spec fn isqrt(n: nat) -> nat {
    choose|r: nat| is_isqrt(r, n)
}

pub open spec fn spec_sqrt(a: Number) -> Number {
    match a {
        Number::Fixed(m) => if m < 0 {
            Number::NaN
        } else {
            from_scaled(isqrt((m * SCALE) as nat) as int)
        },
        Number::PosInf => Number::PosInf,
        _ => Number::NaN,
    }
}

/// `b` to the power `n`, by squaring: each product truncated as `*` does.
pub open spec fn power(b: Number, n: nat) -> Number
    decreases n,
{
    if n == 0 {
        Number::Fixed(SCALE)
    } else {
        let h = power(b, n / 2);
        let sq = spec_mul(h, h);
        if n % 2 == 0 {
            sq
        } else {
            spec_mul(sq, b)
        }
    }
}

/// `b` to an integral power; other exponents are refused.
pub open spec fn spec_pow(b: Number, e: Number) -> Option<Number> {
    match e {
        Number::Fixed(m) => if m % SCALE != 0 {
            None
        } else if m >= 0 {
            Some(power(b, (m / SCALE) as nat))
        } else {
            Some(spec_div(Number::Fixed(SCALE), power(b, (-(m / SCALE)) as nat)))
        },
        _ => None,
    }
}

/// The draw, in millionths, that the seeded generator yields for `seed`.
pub uninterp spec fn micros_of(seed: u64) -> u64;

/// Relies on rand's `StdRng::seed_from_u64` and `Rng::gen_range`: a value
/// in `[0, 1_000_000)` that depends on the seed alone.
#[verifier::external_body]
pub(crate) fn draw_micros(seed: u64) -> (r: u64)
    ensures
        r == micros_of(seed),
        r < 1_000_000,
{
    let mut rng = <rand::rngs::StdRng as rand::SeedableRng>::seed_from_u64(seed);
    rand::Rng::gen_range(&mut rng, 0..1_000_000u64)
}

/// The seed after a draw.
pub open spec fn next_seed(seed: u64) -> u64 {
    ((seed + 1) % 0x1_0000_0000_0000_0000) as u64
}

/// A call of a built-in function.
pub open spec fn call_native(st: SState, k: Native, name: Seq<char>, args: Seq<SValue>) -> SRes<SValue> {
    match k {
        Native::Print => (
            SState { output: st.output + args.map_values(|v: SValue| render(v)), ..st },
            Ok(SValue::Null),
        ),
        Native::Style(code) => if args.len() != 1 {
            fail(st, RunErrorKind::ArityMismatch(1), name)
        } else {
            (st, Ok(SValue::String(ansi(code, render(args[0])))))
        },
        Native::Sqrt => if args.len() != 1 {
            fail(st, RunErrorKind::ArityMismatch(1), name)
        } else {
            match args[0] {
                SValue::Number(n) => (st, Ok(SValue::Number(spec_sqrt(n)))),
                _ => fail(st, RunErrorKind::TypeMismatch, name),
            }
        },
        Native::Pow => if args.len() != 2 {
            fail(st, RunErrorKind::ArityMismatch(2), name)
        } else {
            match (args[0], args[1]) {
                (SValue::Number(b), SValue::Number(e)) => match spec_pow(b, e) {
                    Some(r) => (st, Ok(SValue::Number(r))),
                    None => fail(st, RunErrorKind::BadExponent, name),
                },
                _ => fail(st, RunErrorKind::TypeMismatch, name),
            }
        },
        Native::Random => if args.len() != 0 {
            fail(st, RunErrorKind::ArityMismatch(0), name)
        } else {
            (
                SState { seed: next_seed(st.seed), ..st },
                Ok(SValue::Number(Number::Fixed((micros_of(st.seed) % 1_000_000) as i64))),
            )
        },
        Native::ReadFile => if args.len() != 1 {
            fail(st, RunErrorKind::ArityMismatch(1), name)
        } else {
            match find(st.files, render(args[0])) {
                Some(i) => (st, Ok(st.files[i as int].value)),
                None => fail(st, RunErrorKind::FileNotLoaded, render(args[0])),
            }
        },
        Native::WriteFile => if args.len() != 2 {
            fail(st, RunErrorKind::ArityMismatch(2), name)
        } else {
            (
                SState {
                    files: env_set(
                        st.files,
                        SBinding {
                            name: render(args[0]),
                            value: SValue::String(render(args[1])),
                            is_const: false,
                        },
                    ),
                    ..st
                },
                Ok(SValue::Null),
            )
        },
    }
}

/// The call frame of a user function: its captured environment, itself
/// under its own name, and the parameters bound to the arguments.
pub open spec fn bind_params(frame: Seq<SBinding>, params: Seq<Seq<char>>, args: Seq<SValue>, i: nat) -> Seq<SBinding>
    decreases params.len() - i,
{
    if i >= params.len() || i >= args.len() {
        frame
    } else {
        bind_params(
            env_set(frame, SBinding { name: params[i as int], value: args[i as int], is_const: false }),
            params,
            args,
            i + 1,
        )
    }
}

/// Value of an expression.
pub open spec fn eval(st: SState, e: SExpr, fuel: nat) -> SRes<SValue>
    decreases fuel,
{
    if fuel == 0 {
        fail(st, RunErrorKind::StepLimit, Seq::empty())
    } else {
        let f = (fuel - 1) as nat;
        match e {
            SExpr::Literal(l) => (st, Ok(literal_value(l))),
            SExpr::Variable(n) => match lookup(st, n) {
                Some(b) => (st, Ok(b.value)),
                None => fail(st, RunErrorKind::UndefinedVariable, n),
            },
            SExpr::Assignment(n, x) => {
                let (s1, r) = eval(st, *x, f);
                match r {
                    Err(err) => (s1, Err(err)),
                    Ok(v) => {
                        let (s2, d) = declare(s1, n, v, false);
                        match d {
                            Err(err) => (s2, Err(err)),
                            Ok(_) => (s2, Ok(v)),
                        }
                    },
                }
            },
            SExpr::BinaryOp(a, op, b) => {
                let (s1, ra) = eval(st, *a, f);
                match ra {
                    Err(err) => (s1, Err(err)),
                    Ok(va) => {
                        let (s2, rb) = eval(s1, *b, f);
                        match rb {
                            Err(err) => (s2, Err(err)),
                            Ok(vb) => (s2, binary(op, va, vb)),
                        }
                    },
                }
            },
            SExpr::Call(n, args) => {
                let (s1, ra) = eval_list(st, args, 0, Seq::empty(), f);
                match ra {
                    Err(err) => (s1, Err(err)),
                    Ok(vals) => match lookup(s1, n) {
                        None => fail(s1, RunErrorKind::UndefinedFunction, n),
                        Some(b) => match b.value {
                            SValue::Function { params, body, env } => call_user(
                                s1,
                                n,
                                b.value,
                                vals,
                                f,
                            ),
                            SValue::NativeFunction(k) => call_native(s1, k, n, vals),
                            _ => fail(s1, RunErrorKind::NotAFunction, n),
                        },
                    },
                }
            },
            SExpr::Array(items) => {
                let (s1, ra) = eval_list(st, items, 0, Seq::empty(), f);
                match ra {
                    Err(err) => (s1, Err(err)),
                    Ok(vals) => (s1, Ok(SValue::Array(vals))),
                }
            },
            SExpr::Index(a, i) => {
                let (s1, ra) = eval(st, *a, f);
                match ra {
                    Err(err) => (s1, Err(err)),
                    Ok(va) => {
                        let (s2, ri) = eval(s1, *i, f);
                        match ri {
                            Err(err) => (s2, Err(err)),
                            Ok(vi) => (s2, index_value(va, vi)),
                        }
                    },
                }
            },
        }
    }
}

/// Values of `es[i..]`, evaluated from left to right, after those in `acc`.
pub open spec fn eval_list(st: SState, es: Seq<SExpr>, i: nat, acc: Seq<SValue>, fuel: nat) -> SRes<Seq<SValue>>
    decreases fuel,
{
    if fuel == 0 {
        fail(st, RunErrorKind::StepLimit, Seq::empty())
    } else if i >= es.len() {
        (st, Ok(acc))
    } else {
        let (s1, r) = eval(st, es[i as int], (fuel - 1) as nat);
        match r {
            Err(err) => (s1, Err(err)),
            Ok(v) => eval_list(s1, es, i + 1, acc.push(v), (fuel - 1) as nat),
        }
    }
}

/// A call of the user function `fv`, bound to `name`, on `args`.
pub open spec fn call_user(st: SState, name: Seq<char>, fv: SValue, args: Seq<SValue>, fuel: nat) -> SRes<SValue>
    decreases fuel,
{
    match fv {
        SValue::Function { params, body, env } => if st.depth >= MAX_CALL_DEPTH {
            fail(st, RunErrorKind::RecursionLimit, name)
        } else if params.len() != args.len() {
            fail(st, RunErrorKind::ArityMismatch(params.len() as u64), name)
        } else if fuel == 0 {
            fail(st, RunErrorKind::StepLimit, Seq::empty())
        } else {
            let frame = bind_params(
                env_set(env, SBinding { name, value: fv, is_const: false }),
                params,
                args,
                0,
            );
            let inner = SState { locals: frame, depth: st.depth + 1, ..st };
            let (s2, r) = exec_block(inner, body, 0, (fuel - 1) as nat);
            let back = SState { locals: st.locals, depth: st.depth, ..s2 };
            match r {
                Err(err) => (back, Err(err)),
                Ok(SSignal::Returning(v)) => (back, Ok(v)),
                Ok(_) => (back, Ok(SValue::Null)),
            }
        },
        _ => fail(st, RunErrorKind::NotAFunction, name),
    }
}

/// The condition of `if` and of loops, which must be a boolean, from the
/// outcome of evaluating it.
pub open spec fn as_condition(e: SRes<SValue>) -> SRes<bool> {
    let (s1, r) = e;
    match r {
        Err(err) => (s1, Err(err)),
        Ok(SValue::Boolean(b)) => (s1, Ok(b)),
        Ok(_) => fail(s1, RunErrorKind::TypeMismatch, Seq::empty()),
    }
}

/// Effect of a statement, and how it completed.
pub open spec fn exec_stmt(st: SState, s: SStmt, fuel: nat) -> SRes<SSignal>
    decreases fuel,
{
    if fuel == 0 {
        fail(st, RunErrorKind::StepLimit, Seq::empty())
    } else {
        let f = (fuel - 1) as nat;
        match s {
            SStmt::VarDecl { name, value, is_const } => {
                let (s1, r) = eval(st, value, f);
                match r {
                    Err(err) => (s1, Err(err)),
                    Ok(v) => declare(s1, name, v, is_const),
                }
            },
            SStmt::Assignment(name, x) => {
                let (s1, r) = eval(st, *x, f);
                match r {
                    Err(err) => (s1, Err(err)),
                    Ok(v) => declare(s1, name, v, false),
                }
            },
            SStmt::Expression(x) => {
                let (s1, r) = eval(st, x, f);
                match r {
                    Err(err) => (s1, Err(err)),
                    Ok(_) => (s1, Ok(SSignal::Normal)),
                }
            },
            SStmt::If { condition, then_branch, else_branch } => {
                let (s1, r) = as_condition(eval(st, condition, f));
                match r {
                    Err(err) => (s1, Err(err)),
                    Ok(true) => exec_block(s1, then_branch, 0, f),
                    Ok(false) => match else_branch {
                        Some(b) => exec_block(s1, b, 0, f),
                        None => (s1, Ok(SSignal::Normal)),
                    },
                }
            },
            SStmt::Looping { condition, body } => exec_while(st, condition, body, f),
            SStmt::For { init, condition, update, body } => {
                let (s1, r) = exec_stmt(st, *init, f);
                match r {
                    Err(err) => (s1, Err(err)),
                    Ok(_) => exec_for(s1, condition, update, body, f),
                }
            },
            SStmt::Break => (st, Ok(SSignal::Breaking)),
            SStmt::Continue => (st, Ok(SSignal::Continuing)),
            SStmt::Function { name, params, body } => declare(
                st,
                name,
                SValue::Function { params, body, env: st.locals },
                false,
            ),
            SStmt::Return(x) => match x {
                None => (st, Ok(SSignal::Returning(SValue::Null))),
                Some(x) => {
                    let (s1, r) = eval(st, x, f);
                    match r {
                        Err(err) => (s1, Err(err)),
                        Ok(v) => (s1, Ok(SSignal::Returning(v))),
                    }
                },
            },
            SStmt::Block(b) => exec_block(st, b, 0, f),
        }
    }
}

/// Statements `b[i..]` in order, stopping at the first that does not
/// complete normally.
pub open spec fn exec_block(st: SState, b: Seq<SStmt>, i: nat, fuel: nat) -> SRes<SSignal>
    decreases fuel,
{
    if fuel == 0 {
        fail(st, RunErrorKind::StepLimit, Seq::empty())
    } else if i >= b.len() {
        (st, Ok(SSignal::Normal))
    } else {
        let (s1, r) = exec_stmt(st, b[i as int], (fuel - 1) as nat);
        match r {
            Ok(SSignal::Normal) => exec_block(s1, b, i + 1, (fuel - 1) as nat),
            _ => (s1, r),
        }
    }
}

/// A `looping` statement from its next condition check on.
pub open spec fn exec_while(st: SState, c: SExpr, body: Seq<SStmt>, fuel: nat) -> SRes<SSignal>
    decreases fuel,
{
    if fuel == 0 {
        fail(st, RunErrorKind::StepLimit, Seq::empty())
    } else {
        let f = (fuel - 1) as nat;
        let (s1, rc) = as_condition(eval(st, c, f));
        match rc {
            Err(err) => (s1, Err(err)),
            Ok(false) => (s1, Ok(SSignal::Normal)),
            Ok(true) => {
                let (s2, rb) = exec_block(s1, body, 0, f);
                match rb {
                    Err(err) => (s2, Err(err)),
                    Ok(SSignal::Breaking) => (s2, Ok(SSignal::Normal)),
                    Ok(SSignal::Returning(v)) => (s2, Ok(SSignal::Returning(v))),
                    Ok(_) => exec_while(s2, c, body, f),
                }
            },
        }
    }
}

/// A `for` statement from its next condition check on.
pub open spec fn exec_for(st: SState, c: SExpr, u: SExpr, body: Seq<SStmt>, fuel: nat) -> SRes<SSignal>
    decreases fuel,
{
    if fuel == 0 {
        fail(st, RunErrorKind::StepLimit, Seq::empty())
    } else {
        let f = (fuel - 1) as nat;
        let (s1, rc) = as_condition(eval(st, c, f));
        match rc {
            Err(err) => (s1, Err(err)),
            Ok(false) => (s1, Ok(SSignal::Normal)),
            Ok(true) => {
                let (s2, rb) = exec_block(s1, body, 0, f);
                match rb {
                    Err(err) => (s2, Err(err)),
                    Ok(SSignal::Breaking) => (s2, Ok(SSignal::Normal)),
                    Ok(SSignal::Returning(v)) => (s2, Ok(SSignal::Returning(v))),
                    Ok(_) => {
                        let (s3, ru) = eval(s2, u, f);
                        match ru {
                            Err(err) => (s3, Err(err)),
                            Ok(_) => exec_for(s3, c, u, body, f),
                        }
                    },
                }
            },
        }
    }
}

/// A program's top level: each statement in turn, whatever signal it
/// completes with, up to the first error.
pub open spec fn run_program(st: SState, prog: Seq<SStmt>, i: nat, fuel: nat) -> SRes<()>
    decreases fuel,
{
    if fuel == 0 {
        fail(st, RunErrorKind::StepLimit, Seq::empty())
    } else if i >= prog.len() {
        (st, Ok(()))
    } else {
        let (s1, r) = exec_stmt(st, prog[i as int], (fuel - 1) as nat);
        match r {
            Err(err) => (s1, Err(err)),
            Ok(_) => run_program(s1, prog, i + 1, (fuel - 1) as nat),
        }
    }
}

} // verus!
