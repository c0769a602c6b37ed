//! The evaluator: runs a program's statements against its environments and
//! records what the program writes.
use vstd::prelude::*;
pub use crate::value::Value;
use crate::number::{Number, SCALE, digits_of, append_chars};
use crate::ast::{
    Literal, BinOp, Expr, Stmt, stmts_model, exprs_model, names_model, clone_names,
    clone_stmts, lemma_block_model, lemma_looping_model, lemma_if_model, lemma_for_model,
    lemma_function_model, lemma_call_model, lemma_array_model,
};
use crate::value::{
    Native, Binding, SValue, SBinding, env_model, values_model, render, render_value,
    values_equal_exec, find_binding, env_set, env_set_exec, clone_value, clone_env,
    lemma_array_value_model, lemma_function_value_model,
};
use crate::runtime::{registry, build_registry};
use crate::parser::{Parser, ParseError, parse_tokens};
use crate::lexer::{Lexer, tokens_from};
use crate::semantics::{
    RunErrorKind, SRunError, SSignal, SState, MAX_CALL_DEPTH, lookup, declare, literal_value,
    binary, index_value, ansi, is_isqrt, isqrt, spec_sqrt, power, spec_pow, draw_micros,
    call_native, bind_params, eval, eval_list, call_user, exec_stmt, exec_block, exec_while,
    exec_for, run_program, RUN_BUDGET, DEFAULT_SEED, fresh_state,
};

verus! {

/// A runtime error and the name it concerns.
#[derive(Debug)]
pub struct RunError {
    pub kind: RunErrorKind,
    pub name: Vec<char>,
}

impl RunError {
    pub open spec fn model(&self) -> SRunError {
        SRunError { kind: self.kind, name: self.name@ }
    }
}

/// How a statement completed.
#[derive(Debug)]
pub enum Signal {
    Normal,
    Returning(Value),
    Breaking,
    Continuing,
}

impl Signal {
    pub open spec fn model(&self) -> SSignal {
        match self {
            Signal::Normal => SSignal::Normal,
            Signal::Returning(v) => SSignal::Returning(v.model()),
            Signal::Breaking => SSignal::Breaking,
            Signal::Continuing => SSignal::Continuing,
        }
    }
}

pub open spec fn res_value(r: Result<Value, RunError>) -> Result<SValue, SRunError> {
    match r {
        Ok(v) => Ok(v.model()),
        Err(e) => Err(e.model()),
    }
}

pub open spec fn res_values(r: Result<Vec<Value>, RunError>) -> Result<Seq<SValue>, SRunError> {
    match r {
        Ok(v) => Ok(values_model(v@)),
        Err(e) => Err(e.model()),
    }
}

pub open spec fn res_signal(r: Result<Signal, RunError>) -> Result<SSignal, SRunError> {
    match r {
        Ok(s) => Ok(s.model()),
        Err(e) => Err(e.model()),
    }
}

pub open spec fn res_unit(r: Result<(), RunError>) -> Result<(), SRunError> {
    match r {
        Ok(_) => Ok(()),
        Err(e) => Err(e.model()),
    }
}

pub open spec fn lines_model(out: Seq<Vec<char>>) -> Seq<Seq<char>> {
    out.map_values(|l: Vec<char>| l@)
}

fn error(kind: RunErrorKind, name: Vec<char>) -> (r: RunError)
    ensures
        r.model() == (SRunError { kind, name: name@ }),
{
    RunError { kind, name }
}

fn no_name() -> (r: Vec<char>)
    ensures
        r@ == Seq::<char>::empty(),
{
    Vec::new()
}

/// Relies on `rand::random`: a value drawn from the thread's generator;
/// nothing is known of it.
pub assume_specification<T>[ rand::random::<T> ]() -> (r: T)
    where
        rand::distributions::Standard: rand::distributions::Distribution<T>,
;

/// Why a script did not run to its end.
#[derive(Debug)]
pub enum ScriptError {
    Parse(ParseError),
    Run(RunError),
}

/// An interpreter: the global registry of built-ins, the current frame's
/// bindings, the lines written, the files held, the random seed and the
/// depth of user calls under way.
pub struct Interpreter {
    globals: Vec<Binding>,
    locals: Vec<Binding>,
    output: Vec<Vec<char>>,
    files: Vec<Binding>,
    seed: u64,
    depth: u64,
}

fn literal_value_exec(l: &Literal) -> (r: Value)
    ensures
        r.model() == literal_value(l.model()),
{
    match l {
        Literal::Number(n) => Value::Number(*n),
        Literal::String(s) => Value::String(crate::lexer::copy_text(s)),
        Literal::Boolean(b) => Value::Boolean(*b),
        Literal::Null => Value::Null,
    }
}

/// A binary operation on two values.
pub fn binary_exec(op: BinOp, a: &Value, b: &Value) -> (r: Result<Value, RunError>)
    ensures
        res_value(r) == binary(op, a.model(), b.model()),
{
    match op {
        BinOp::Add => match (a, b) {
            (Value::Number(x), Value::Number(y)) => Ok(Value::Number(x.add(*y))),
            _ => if matches!(a, Value::String(_)) || matches!(b, Value::String(_)) {
                let mut t = render_value(a);
                let u = render_value(b);
                append_chars(&mut t, &u);
                Ok(Value::String(t))
            } else {
                Err(error(RunErrorKind::TypeMismatch, no_name()))
            },
        },
        BinOp::Eq => Ok(Value::Boolean(values_equal_exec(a, b))),
        BinOp::Ne => Ok(Value::Boolean(!values_equal_exec(a, b))),
        _ => match (a, b) {
            (Value::Number(x), Value::Number(y)) => Ok(
                match op {
                    BinOp::Sub => Value::Number(x.sub(*y)),
                    BinOp::Mul => Value::Number(x.mul(*y)),
                    BinOp::Div => Value::Number(x.div(*y)),
                    BinOp::Gt => Value::Boolean(y.lt(*x)),
                    BinOp::Lt => Value::Boolean(x.lt(*y)),
                    BinOp::Ge => Value::Boolean(y.le(*x)),
                    _ => Value::Boolean(x.le(*y)),
                },
            ),
            _ => Err(error(RunErrorKind::TypeMismatch, no_name())),
        },
    }
}

/// Element of an array, or `null` for an index outside it.
pub fn index_exec(a: &Value, i: &Value) -> (r: Result<Value, RunError>)
    ensures
        res_value(r) == index_value(a.model(), i.model()),
{
    match (a, i) {
        (Value::Array(items), Value::Number(n)) => {
            proof {
                lemma_array_value_model(*items);
            }
            match n {
                Number::Fixed(m) => if *m >= 0 && ((*m / SCALE) as u64) < (items.len() as u64) {
                    let k = (*m / SCALE) as usize;
                    Ok(clone_value(&items[k]))
                } else {
                    Ok(Value::Null)
                },
                _ => Ok(Value::Null),
            }
        },
        _ => Err(error(RunErrorKind::TypeMismatch, no_name())),
    }
}

/// ANSI escape of `code` around `text`.
pub fn ansi_exec(code: u8, text: &Vec<char>) -> (r: Vec<char>)
    ensures
        r@ == ansi(code, text@),
{
    let mut out: Vec<char> = vec!['\u{1b}', '['];
    let d = digits_of(code as u64);
    append_chars(&mut out, &d);
    out.push('m');
    append_chars(&mut out, text);
    out.push('\u{1b}');
    out.push('[');
    out.push('0');
    out.push('m');
    assert(out@ =~= ansi(code, text@));
    out
}

/// A styling function: its one argument's text wrapped in the escape of `code`.
pub fn apply_ansi(code: u8, name: &Vec<char>, args: &Vec<Value>) -> (r: Result<Value, RunError>)
    ensures
        res_value(r) == (if args.len() != 1 {
            Err(SRunError { kind: RunErrorKind::ArityMismatch(1), name: name@ })
        } else {
            Ok(SValue::String(ansi(code, render(args@[0].model()))))
        }),
{
    if args.len() != 1 {
        Err(error(RunErrorKind::ArityMismatch(1), crate::lexer::copy_text(name)))
    } else {
        let t = render_value(&args[0]);
        Ok(Value::String(ansi_exec(code, &t)))
    }
}

proof fn lemma_isqrt_unique(r: nat, s: nat, n: nat)
    requires
        is_isqrt(r, n),
        is_isqrt(s, n),
    ensures
        r == s,
{
    if r < s {
        assert((r + 1) * (r + 1) <= s * s) by (nonlinear_arith)
            requires r + 1 <= s;
    } else if s < r {
        assert((s + 1) * (s + 1) <= r * r) by (nonlinear_arith)
            requires s + 1 <= r;
    }
}

/// Integer square root of `n`.
fn isqrt_exec(n: u128) -> (r: u64)
    requires
        n < 0x1_0000_0000_0000_0000_0000_0000,
    ensures
        r == isqrt(n as nat),
        is_isqrt(r as nat, n as nat),
{
    let mut lo: u128 = 0;
    let mut hi: u128 = 0x1_0000_0000_0000;
    assert(n < hi * hi) by (nonlinear_arith)
        requires n < 0x1_0000_0000_0000_0000_0000_0000, hi == 0x1_0000_0000_0000;
    while hi - lo > 1
        invariant
            lo < hi <= 0x1_0000_0000_0000,
            lo * lo <= n < hi * hi,
        decreases hi - lo,
    {
        let mid = lo + (hi - lo) / 2;
        assert(mid * mid <= 0x1_0000_0000_0000 * 0x1_0000_0000_0000) by (nonlinear_arith)
            requires mid <= 0x1_0000_0000_0000;
        if mid * mid <= n {
            lo = mid;
        } else {
            hi = mid;
        }
    }
    proof {
        assert(hi == lo + 1);
        assert(is_isqrt(lo as nat, n as nat));
        let c = isqrt(n as nat);
        assert(is_isqrt(c, n as nat));
        lemma_isqrt_unique(c, lo as nat, n as nat);
    }
    lo as u64
}

fn sqrt_exec(a: Number) -> (r: Number)
    ensures
        r == spec_sqrt(a),
{
    match a {
        Number::Fixed(m) => if m < 0 {
            Number::NaN
        } else {
            assert((m as int) * 1_000_000 < 0x1_0000_0000_0000_0000_0000_0000) by (nonlinear_arith)
                requires 0 <= m <= i64::MAX;
            let root = isqrt_exec(m as u128 * SCALE as u128);
            proof {
                let n = (m * SCALE) as nat;
                assert(root * root <= n);
                assert(root <= 0x1_0000_0000_0000) by (nonlinear_arith)
                    requires root * root <= n, n < 0x1_0000_0000_0000_0000_0000_0000;
            }
            Number::Fixed(root as i64)
        },
        Number::PosInf => Number::PosInf,
        _ => Number::NaN,
    }
}

fn power_exec(b: Number, n: u64) -> (r: Number)
    ensures
        r == power(b, n as nat),
    decreases n,
{
    if n == 0 {
        Number::Fixed(SCALE)
    } else {
        let h = power_exec(b, n / 2);
        let sq = h.mul(h);
        if n % 2 == 0 {
            sq
        } else {
            sq.mul(b)
        }
    }
}

fn pow_exec(b: Number, e: Number) -> (r: Option<Number>)
    ensures
        r == spec_pow(b, e),
{
    match e {
        Number::Fixed(m) => if m % SCALE != 0 {
            None
        } else if m >= 0 {
            Some(power_exec(b, (m / SCALE) as u64))
        } else {
            Some(Number::Fixed(SCALE).div(power_exec(b, (-(m / SCALE)) as u64)))
        },
        _ => None,
    }
}

impl Interpreter {
    pub closed spec fn model(&self) -> SState {
        SState {
            globals: env_model(self.globals@),
            locals: env_model(self.locals@),
            output: lines_model(self.output@),
            files: env_model(self.files@),
            seed: self.seed,
            depth: self.depth as nat,
        }
    }

    /// The value bound to `name`: locals first, then globals.
    fn lookup(&self, name: &Vec<char>) -> (r: Option<Value>)
        ensures
            match lookup(self.model(), name@) {
                Some(b) => r is Some && r->0.model() == b.value,
                None => r is None,
            },
    {
        match find_binding(&self.locals, name) {
            Some(i) => Some(clone_value(&self.locals[i].value)),
            None => match find_binding(&self.globals, name) {
                Some(i) => Some(clone_value(&self.globals[i].value)),
                None => None,
            },
        }
    }

    /// Binds `name` locally, unless it is bound there as constant.
    fn declare(&mut self, name: Vec<char>, v: Value, is_const: bool) -> (r: Result<Signal, RunError>)
        ensures
            (final(self).model(), res_signal(r)) == declare(old(self).model(), name@, v.model(), is_const),
    {
        match find_binding(&self.locals, &name) {
            Some(i) => {
                if self.locals[i].is_const {
                    return Err(error(RunErrorKind::ConstReassignment, name));
                }
            },
            None => {},
        }
        let ghost b = SBinding { name: name@, value: v.model(), is_const };
        env_set_exec(&mut self.locals, Binding { name, value: v, is_const });
        Ok(Signal::Normal)
    }

    /// A call of a built-in function.
    fn call_native(&mut self, k: Native, name: &Vec<char>, args: Vec<Value>) -> (r: Result<Value, RunError>)
        ensures
            (final(self).model(), res_value(r)) == call_native(old(self).model(), k, name@, values_model(args@)),
    {
        let ghost ms = values_model(args@);
        match k {
            Native::Print => {
                let mut i: usize = 0;
                while i < args.len()
                    invariant
                        i <= args.len(),
                        ms == values_model(args@),
                        self.globals == old(self).globals,
                        self.locals == old(self).locals,
                        self.files == old(self).files,
                        self.seed == old(self).seed,
                        self.depth == old(self).depth,
                        lines_model(self.output@) == lines_model(old(self).output@) + ms.subrange(0, i as int).map_values(|v: SValue| render(v)),
                    decreases args.len() - i,
                {
                    let line = render_value(&args[i]);
                    let ghost before = self.output@;
                    self.output.push(line);
                    assert(lines_model(self.output@) =~= lines_model(before).push(render(ms[i as int])));
                    assert(ms.subrange(0, i + 1).map_values(|v: SValue| render(v)) =~= ms.subrange(0, i as int).map_values(|v: SValue| render(v)).push(render(ms[i as int])));
                    i += 1;
                }
                assert(ms.subrange(0, i as int) =~= ms);
                Ok(Value::Null)
            },
            Native::Style(code) => apply_ansi(code, name, &args),
            Native::Sqrt => if args.len() != 1 {
                Err(error(RunErrorKind::ArityMismatch(1), crate::lexer::copy_text(name)))
            } else {
                match &args[0] {
                    Value::Number(n) => Ok(Value::Number(sqrt_exec(*n))),
                    _ => Err(error(RunErrorKind::TypeMismatch, crate::lexer::copy_text(name))),
                }
            },
            Native::Pow => if args.len() != 2 {
                Err(error(RunErrorKind::ArityMismatch(2), crate::lexer::copy_text(name)))
            } else {
                match (&args[0], &args[1]) {
                    (Value::Number(b), Value::Number(e)) => match pow_exec(*b, *e) {
                        Some(r) => Ok(Value::Number(r)),
                        None => Err(error(RunErrorKind::BadExponent, crate::lexer::copy_text(name))),
                    },
                    _ => Err(error(RunErrorKind::TypeMismatch, crate::lexer::copy_text(name))),
                }
            },
            Native::Random => if args.len() != 0 {
                Err(error(RunErrorKind::ArityMismatch(0), crate::lexer::copy_text(name)))
            } else {
                let d = draw_micros(self.seed);
                self.seed = self.seed.wrapping_add(1);
                Ok(Value::Number(Number::Fixed(d as i64)))
            },
            Native::ReadFile => if args.len() != 1 {
                Err(error(RunErrorKind::ArityMismatch(1), crate::lexer::copy_text(name)))
            } else {
                let path = render_value(&args[0]);
                match find_binding(&self.files, &path) {
                    Some(i) => Ok(clone_value(&self.files[i].value)),
                    None => Err(error(RunErrorKind::FileNotLoaded, path)),
                }
            },
            Native::WriteFile => if args.len() != 2 {
                Err(error(RunErrorKind::ArityMismatch(2), crate::lexer::copy_text(name)))
            } else {
                let path = render_value(&args[0]);
                let content = render_value(&args[1]);
                env_set_exec(&mut self.files, Binding { name: path, value: Value::String(content), is_const: false });
                Ok(Value::Null)
            },
        }
    }

    fn step_limit() -> (r: RunError)
        ensures
            r.model() == (SRunError { kind: RunErrorKind::StepLimit, name: Seq::empty() }),
    {
        error(RunErrorKind::StepLimit, no_name())
    }

    /// Value of an expression, spending at most `fuel` steps along any path.
    pub fn eval_expr(&mut self, e: &Expr, fuel: u64) -> (r: Result<Value, RunError>)
        ensures
            (final(self).model(), res_value(r)) == eval(old(self).model(), e.model(), fuel as nat),
        decreases fuel,
    {
        if fuel == 0 {
            return Err(Self::step_limit());
        }
        let f = fuel - 1;
        match e {
            Expr::Literal(l) => Ok(literal_value_exec(l)),
            Expr::Variable(n) => match self.lookup(n) {
                Some(v) => Ok(v),
                None => Err(error(RunErrorKind::UndefinedVariable, crate::lexer::copy_text(n))),
            },
            Expr::Assignment(n, x) => {
                let v = self.eval_expr(x, f)?;
                let keep = clone_value(&v);
                match self.declare(crate::lexer::copy_text(n), v, false) {
                    Err(err) => Err(err),
                    Ok(_) => Ok(keep),
                }
            },
            Expr::BinaryOp(a, op, b) => {
                let va = self.eval_expr(a, f)?;
                let vb = self.eval_expr(b, f)?;
                binary_exec(*op, &va, &vb)
            },
            Expr::Call(n, args) => {
                proof {
                    lemma_call_model(*n, *args);
                }
                let vals = self.eval_list(args, f)?;
                match self.lookup(n) {
                    None => Err(error(RunErrorKind::UndefinedFunction, crate::lexer::copy_text(n))),
                    Some(fv) => match fv {
                        Value::Function { .. } => self.call_user(n, fv, vals, f),
                        Value::NativeFunction(k) => self.call_native(k, n, vals),
                        _ => Err(error(RunErrorKind::NotAFunction, crate::lexer::copy_text(n))),
                    },
                }
            },
            Expr::Array(items) => {
                proof {
                    lemma_array_model(*items);
                }
                let vals = self.eval_list(items, f)?;
                proof {
                    lemma_array_value_model(vals);
                }
                Ok(Value::Array(vals))
            },
            Expr::Index(a, i) => {
                let va = self.eval_expr(a, f)?;
                let vi = self.eval_expr(i, f)?;
                index_exec(&va, &vi)
            },
        }
    }

    /// Values of a list of expressions, from left to right.
    fn eval_list(&mut self, es: &Vec<Expr>, fuel: u64) -> (r: Result<Vec<Value>, RunError>)
        ensures
            (final(self).model(), res_values(r)) == eval_list(
                old(self).model(),
                exprs_model(es@),
                0,
                Seq::empty(),
                fuel as nat,
            ),
        decreases fuel,
    {
        let ghost ms = exprs_model(es@);
        let mut acc: Vec<Value> = Vec::new();
        let mut i: usize = 0;
        let mut f = fuel;
        assert(values_model(acc@) =~= Seq::<SValue>::empty());
        loop
            invariant
                i <= es.len(),
                f <= fuel,
                ms == exprs_model(es@),
                eval_list(old(self).model(), ms, 0, Seq::empty(), fuel as nat) == eval_list(
                    self.model(),
                    ms,
                    i as nat,
                    values_model(acc@),
                    f as nat,
                ),
            decreases f,
        {
            if f == 0 {
                return Err(Self::step_limit());
            }
            if i >= es.len() {
                return Ok(acc);
            }
            let v = self.eval_expr(&es[i], f - 1)?;
            let ghost before = acc@;
            let ghost vm = v.model();
            acc.push(v);
            assert(values_model(acc@) =~= values_model(before).push(vm));
            i += 1;
            f -= 1;
        }
    }

    /// A call of the user function `fv`, bound to `name`.
    fn call_user(&mut self, name: &Vec<char>, fv: Value, args: Vec<Value>, fuel: u64) -> (r: Result<Value, RunError>)
        ensures
            (final(self).model(), res_value(r)) == call_user(
                old(self).model(),
                name@,
                fv.model(),
                values_model(args@),
                fuel as nat,
            ),
        decreases fuel,
    {
        let self_value = clone_value(&fv);
        match fv {
            Value::Function { params, body, env } => {
                proof {
                    lemma_function_value_model(params, body, env);
                }
                if self.depth >= MAX_CALL_DEPTH {
                    return Err(error(RunErrorKind::RecursionLimit, crate::lexer::copy_text(name)));
                }
                if params.len() != args.len() {
                    return Err(error(RunErrorKind::ArityMismatch(params.len() as u64), crate::lexer::copy_text(name)));
                }
                if fuel == 0 {
                    return Err(Self::step_limit());
                }
                let ghost pm = names_model(params@);
                let ghost am = values_model(args@);
                let mut frame = env;
                env_set_exec(
                    &mut frame,
                    Binding { name: crate::lexer::copy_text(name), value: self_value, is_const: false },
                );
                let mut i: usize = 0;
                while i < params.len()
                    invariant
                        i <= params.len() == args.len(),
                        pm == names_model(params@),
                        am == values_model(args@),
                        bind_params(
                            env_set(env_model(env@), SBinding { name: name@, value: fv.model(), is_const: false }),
                            pm,
                            am,
                            0,
                        ) == bind_params(env_model(frame@), pm, am, i as nat),
                    decreases params.len() - i,
                {
                    env_set_exec(
                        &mut frame,
                        Binding {
                            name: crate::lexer::copy_text(&params[i]),
                            value: clone_value(&args[i]),
                            is_const: false,
                        },
                    );
                    i += 1;
                }
                let ghost outer = self.model();
                let ghost frame_model = frame@;
                let depth = self.depth;
                std::mem::swap(&mut self.locals, &mut frame);
                self.depth = depth + 1;
                proof {
                    assert(self.model() == (SState { locals: env_model(frame_model), depth: outer.depth + 1, ..outer }));
                }
                let r = self.exec_block(&body, fuel - 1);
                std::mem::swap(&mut self.locals, &mut frame);
                self.depth = depth;
                match r {
                    Err(err) => Err(err),
                    Ok(Signal::Returning(v)) => Ok(v),
                    Ok(_) => Ok(Value::Null),
                }
            },
            _ => Err(error(RunErrorKind::NotAFunction, crate::lexer::copy_text(name))),
        }
    }

    /// The condition of `if` and of loops, from the outcome of evaluating it.
    fn condition_of(r: Result<Value, RunError>) -> (c: Result<bool, RunError>)
        ensures
            match r {
                Err(e) => c is Err && c->Err_0.model() == e.model(),
                Ok(Value::Boolean(b)) => c == Ok::<bool, RunError>(b),
                Ok(_) => c is Err && c->Err_0.model() == (SRunError {
                    kind: RunErrorKind::TypeMismatch,
                    name: Seq::empty(),
                }),
            },
    {
        match r {
            Err(err) => Err(err),
            Ok(Value::Boolean(b)) => Ok(b),
            Ok(_) => Err(error(RunErrorKind::TypeMismatch, no_name())),
        }
    }

    /// Effect of a statement, and how it completed, spending at most `fuel`
    /// steps along any path.
    pub fn exec_stmt(&mut self, s: &Stmt, fuel: u64) -> (r: Result<Signal, RunError>)
        ensures
            (final(self).model(), res_signal(r)) == exec_stmt(old(self).model(), s.model(), fuel as nat),
        decreases fuel,
    {
        if fuel == 0 {
            return Err(Self::step_limit());
        }
        let f = fuel - 1;
        match s {
            Stmt::VarDecl { name, value, is_const } => {
                let v = self.eval_expr(value, f)?;
                self.declare(crate::lexer::copy_text(name), v, *is_const)
            },
            Stmt::Assignment(name, x) => {
                let v = self.eval_expr(x, f)?;
                self.declare(crate::lexer::copy_text(name), v, false)
            },
            Stmt::Expression(x) => {
                let _ = self.eval_expr(x, f)?;
                Ok(Signal::Normal)
            },
            Stmt::If { condition, then_branch, else_branch } => {
                proof {
                    lemma_if_model(*condition, *then_branch, *else_branch);
                }
                if Self::condition_of(self.eval_expr(condition, f))? {
                    self.exec_block(then_branch, f)
                } else {
                    match else_branch {
                        Some(b) => self.exec_block(b, f),
                        None => Ok(Signal::Normal),
                    }
                }
            },
            Stmt::Looping { condition, body } => {
                proof {
                    lemma_looping_model(*condition, *body);
                }
                self.exec_while(condition, body, f)
            },
            Stmt::For { init, condition, update, body } => {
                proof {
                    lemma_for_model(*init, *condition, *update, *body);
                }
                let _ = self.exec_stmt(init, f)?;
                self.exec_for(condition, update, body, f)
            },
            Stmt::Break => Ok(Signal::Breaking),
            Stmt::Continue => Ok(Signal::Continuing),
            Stmt::Function { name, params, body } => {
                proof {
                    lemma_function_model(*name, *params, *body);
                }
                let p = clone_names(params);
                let b = clone_stmts(body);
                let env = clone_env(&self.locals);
                proof {
                    lemma_function_value_model(p, b, env);
                }
                self.declare(crate::lexer::copy_text(name), Value::Function { params: p, body: b, env }, false)
            },
            Stmt::Return(x) => match x {
                None => Ok(Signal::Returning(Value::Null)),
                Some(x) => {
                    let v = self.eval_expr(x, f)?;
                    Ok(Signal::Returning(v))
                },
            },
            Stmt::Block(b) => {
                proof {
                    lemma_block_model(*b);
                }
                self.exec_block(b, f)
            },
        }
    }

    /// Statements in order, up to the first that does not complete normally.
    fn exec_block(&mut self, b: &Vec<Stmt>, fuel: u64) -> (r: Result<Signal, RunError>)
        ensures
            (final(self).model(), res_signal(r)) == exec_block(old(self).model(), stmts_model(b@), 0, fuel as nat),
        decreases fuel,
    {
        let ghost ms = stmts_model(b@);
        let mut i: usize = 0;
        let mut f = fuel;
        loop
            invariant
                i <= b.len(),
                f <= fuel,
                ms == stmts_model(b@),
                exec_block(old(self).model(), ms, 0, fuel as nat) == exec_block(self.model(), ms, i as nat, f as nat),
            decreases f,
        {
            if f == 0 {
                return Err(Self::step_limit());
            }
            if i >= b.len() {
                return Ok(Signal::Normal);
            }
            let r = self.exec_stmt(&b[i], f - 1);
            match r {
                Ok(Signal::Normal) => {},
                _ => {
                    return r;
                },
            }
            i += 1;
            f -= 1;
        }
    }

    /// A `looping` statement.
    fn exec_while(&mut self, c: &Expr, body: &Vec<Stmt>, fuel: u64) -> (r: Result<Signal, RunError>)
        ensures
            (final(self).model(), res_signal(r)) == exec_while(
                old(self).model(),
                c.model(),
                stmts_model(body@),
                fuel as nat,
            ),
        decreases fuel,
    {
        let mut f = fuel;
        loop
            invariant
                f <= fuel,
                exec_while(old(self).model(), c.model(), stmts_model(body@), fuel as nat) == exec_while(
                    self.model(),
                    c.model(),
                    stmts_model(body@),
                    f as nat,
                ),
            decreases f,
        {
            if f == 0 {
                return Err(Self::step_limit());
            }
            let f1 = f - 1;
            if !Self::condition_of(self.eval_expr(c, f1))? {
                return Ok(Signal::Normal);
            }
            match self.exec_block(body, f1)? {
                Signal::Breaking => {
                    return Ok(Signal::Normal);
                },
                Signal::Returning(v) => {
                    return Ok(Signal::Returning(v));
                },
                _ => {},
            }
            f = f1;
        }
    }

    /// A `for` statement after its initialisation.
    fn exec_for(&mut self, c: &Expr, u: &Expr, body: &Vec<Stmt>, fuel: u64) -> (r: Result<Signal, RunError>)
        ensures
            (final(self).model(), res_signal(r)) == exec_for(
                old(self).model(),
                c.model(),
                u.model(),
                stmts_model(body@),
                fuel as nat,
            ),
        decreases fuel,
    {
        let mut f = fuel;
        loop
            invariant
                f <= fuel,
                exec_for(old(self).model(), c.model(), u.model(), stmts_model(body@), fuel as nat) == exec_for(
                    self.model(),
                    c.model(),
                    u.model(),
                    stmts_model(body@),
                    f as nat,
                ),
            decreases f,
        {
            if f == 0 {
                return Err(Self::step_limit());
            }
            let f1 = f - 1;
            if !Self::condition_of(self.eval_expr(c, f1))? {
                return Ok(Signal::Normal);
            }
            match self.exec_block(body, f1)? {
                Signal::Breaking => {
                    return Ok(Signal::Normal);
                },
                Signal::Returning(v) => {
                    return Ok(Signal::Returning(v));
                },
                _ => {},
            }
            let _ = self.eval_expr(u, f1)?;
            f = f1;
        }
    }

    /// An interpreter with the built-in modules registered, no other
    /// bindings, no output, no files, and the default seed: two of them run
    /// any program alike.
    pub fn new() -> (r: Interpreter)
        ensures
            r.model() == fresh_state(),
    {
        Self::with_seed(DEFAULT_SEED)
    }

    /// An interpreter as `new` makes it, with a seed from the thread's
    /// random generator.
    pub fn with_random_seed() -> (r: Interpreter)
        ensures
            r.model() == (SState { seed: r.model().seed, ..fresh_state() }),
    {
        Self::with_seed(rand::random::<u64>())
    }

    /// An interpreter as `new` makes it, with the given seed.
    pub fn with_seed(seed: u64) -> (r: Interpreter)
        ensures
            r.model() == (SState {
                globals: registry(),
                locals: Seq::empty(),
                output: Seq::empty(),
                files: Seq::empty(),
                seed,
                depth: 0,
            }),
    {
        let r = Interpreter {
            globals: build_registry(),
            locals: Vec::new(),
            output: Vec::new(),
            files: Vec::new(),
            seed,
            depth: 0,
        };
        assert(r.model().locals =~= Seq::<SBinding>::empty());
        assert(r.model().files =~= Seq::<SBinding>::empty());
        assert(r.model().output =~= Seq::<Seq<char>>::empty());
        r
    }

    /// Runs a program's statements in order, up to the first error; the
    /// signals of top-level statements are dropped.
    pub fn execute(&mut self, stmts: Vec<Stmt>) -> (r: Result<(), RunError>)
        ensures
            (final(self).model(), res_unit(r)) == run_program(
                old(self).model(),
                stmts_model(stmts@),
                0,
                RUN_BUDGET as nat,
            ),
    {
        let ghost ms = stmts_model(stmts@);
        let mut i: usize = 0;
        let mut f: u64 = RUN_BUDGET;
        loop
            invariant
                i <= stmts.len(),
                ms == stmts_model(stmts@),
                run_program(old(self).model(), ms, 0, RUN_BUDGET as nat) == run_program(
                    self.model(),
                    ms,
                    i as nat,
                    f as nat,
                ),
            decreases f,
        {
            if f == 0 {
                return Err(Self::step_limit());
            }
            if i >= stmts.len() {
                return Ok(());
            }
            let _ = self.exec_stmt(&stmts[i], f - 1)?;
            i += 1;
            f -= 1;
        }
    }

    /// Lexes, parses and runs `source`; nothing runs unless all of it parses.
    pub fn run_source(&mut self, source: &str) -> (r: Result<(), ScriptError>)
        requires
            source@.len() + 8 < usize::MAX,
        ensures
            match parse_tokens(tokens_from(source@, 0)) {
                Err(e) => r == Err::<(), ScriptError>(ScriptError::Parse(e)) && final(self).model() == old(self).model(),
                Ok(prog) => {
                    let (st, res) = run_program(old(self).model(), prog, 0, RUN_BUDGET as nat);
                    final(self).model() == st && match res {
                        Ok(_) => r is Ok,
                        Err(e) => r is Err && r->Err_0 is Run && r->Err_0->Run_0.model() == e,
                    }
                },
            },
    {
        let lexer = Lexer::new(source);
        let mut parser = Parser::new(lexer);
        match parser.parse() {
            Err(e) => Err(ScriptError::Parse(e)),
            Ok(prog) => match self.execute(prog) {
                Ok(()) => Ok(()),
                Err(e) => Err(ScriptError::Run(e)),
            },
        }
    }

    /// The seed of the next random draw.
    pub fn seed(&self) -> (r: u64)
        ensures
            r == self.model().seed,
    {
        self.seed
    }

    /// The lines written so far, in order.
    pub fn output_lines(&self) -> (r: Vec<String>)
        ensures
            r@.len() == self.model().output.len(),
            forall|i: int| 0 <= i < r@.len() ==> #[trigger] r@[i]@ == self.model().output[i],
    {
        let mut out: Vec<String> = Vec::new();
        let mut i: usize = 0;
        while i < self.output.len()
            invariant
                i <= self.output.len(),
                out@.len() == i,
                forall|j: int| 0 <= j < i ==> #[trigger] out@[j]@ == self.output@[j]@,
            decreases self.output.len() - i,
        {
            out.push(crate::value::text_of(&self.output[i]));
            i += 1;
        }
        out
    }

    /// Makes a file's content readable by `fb.readFile`.
    pub fn load_file(&mut self, path: &str, content: &str)
        ensures
            final(self).model() == (SState {
                files: env_set(
                    old(self).model().files,
                    SBinding { name: path@, value: SValue::String(content@), is_const: false },
                ),
                ..old(self).model()
            }),
    {
        let b = Binding {
            name: crate::value::literal_chars(path),
            value: Value::String(crate::value::literal_chars(content)),
            is_const: false,
        };
        env_set_exec(&mut self.files, b);
    }

    /// The files held, as path and content, in the order first bound.
    pub fn files(&self) -> (r: Vec<(String, String)>)
        ensures
            r@.len() == self.model().files.len(),
            forall|i: int| 0 <= i < r@.len() ==> {
                &&& #[trigger] r@[i].0@ == self.model().files[i].name
                &&& SValue::String(r@[i].1@) == self.model().files[i].value
                    || !(self.model().files[i].value is String)
            },
    {
        let mut out: Vec<(String, String)> = Vec::new();
        let mut i: usize = 0;
        while i < self.files.len()
            invariant
                i <= self.files.len(),
                out@.len() == i,
                forall|j: int| 0 <= j < i ==> {
                    &&& #[trigger] out@[j].0@ == self.files@[j].name@
                    &&& SValue::String(out@[j].1@) == self.files@[j].value.model()
                        || !(self.files@[j].value.model() is String)
                },
            decreases self.files.len() - i,
        {
            let content = crate::value::render_value(&self.files[i].value);
            out.push((crate::value::text_of(&self.files[i].name), crate::value::text_of(&content)));
            i += 1;
        }
        out
    }
}

} // verus!
