//! Runtime values, bindings and environments, and their models.
use vstd::prelude::*;
use crate::number::{Number, render_number, spec_num_eq, append_chars};
use crate::ast::{Stmt, SStmt, stmts_model, names_model, clone_names, clone_stmts};
use crate::lexer::copy_text;
use crate::interpreter::RunError;
use crate::semantics::{RunErrorKind, SRunError};

verus! {

/// Built-in functions that scripts reach through the global environment.
#[derive(Debug, Clone, Copy, PartialEq, Eq, Structural)]
pub enum Native {
    /// Writes each argument's text as a line of output.
    Print,
    /// Wraps its one argument's text in the ANSI escape of this code.
    Style(u8),
    Sqrt,
    Pow,
    Random,
    ReadFile,
    WriteFile,
}

#[derive(Debug)]
pub enum Value {
    Number(Number),
    String(Vec<char>),
    Boolean(bool),
    Null,
    Function { params: Vec<Vec<char>>, body: Vec<Stmt>, env: Vec<Binding> },
    NativeFunction(Native),
    Array(Vec<Value>),
}

/// A name bound to a value, constant or not.
#[derive(Debug)]
pub struct Binding {
    pub name: Vec<char>,
    pub value: Value,
    pub is_const: bool,
}

pub enum SValue {
    Number(Number),
    String(Seq<char>),
    Boolean(bool),
    Null,
    Function { params: Seq<Seq<char>>, body: Seq<SStmt>, env: Seq<SBinding> },
    NativeFunction(Native),
    Array(Seq<SValue>),
}

pub struct SBinding {
    pub name: Seq<char>,
    pub value: SValue,
    pub is_const: bool,
}

impl Value {
    pub open spec fn model(&self) -> SValue
        decreases self,
    {
        match self {
            Value::Number(n) => SValue::Number(*n),
            Value::String(s) => SValue::String(s@),
            Value::Boolean(b) => SValue::Boolean(*b),
            Value::Null => SValue::Null,
            Value::Function { params, body, env } => SValue::Function {
                params: names_model(params@),
                body: stmts_model(body@),
                env: Seq::new(
                    env.len() as nat,
                    |i: int|
                        if 0 <= i < env.len() {
                            env[i].model()
                        } else {
                            SBinding { name: Seq::empty(), value: SValue::Null, is_const: false }
                        },
                ),
            },
            Value::NativeFunction(k) => SValue::NativeFunction(*k),
            Value::Array(items) => SValue::Array(
                Seq::new(
                    items.len() as nat,
                    |i: int|
                        if 0 <= i < items.len() {
                            items[i].model()
                        } else {
                            SValue::Null
                        },
                ),
            ),
        }
    }
}

impl Binding {
    pub open spec fn model(&self) -> SBinding
        decreases self,
    {
        SBinding { name: self.name@, value: self.value.model(), is_const: self.is_const }
    }
}

pub open spec fn env_model(env: Seq<Binding>) -> Seq<SBinding> {
    env.map_values(|b: Binding| b.model())
}

pub open spec fn values_model(vs: Seq<Value>) -> Seq<SValue> {
    vs.map_values(|v: Value| v.model())
}

pub proof fn lemma_array_value_model(items: Vec<Value>)
    ensures
        Value::Array(items).model() == SValue::Array(values_model(items@)),
{
    assert(Value::Array(items).model()->Array_0 =~= values_model(items@));
}

pub proof fn lemma_function_value_model(params: Vec<Vec<char>>, body: Vec<Stmt>, env: Vec<Binding>)
    ensures
        (Value::Function { params, body, env }).model() == (SValue::Function {
            params: names_model(params@),
            body: stmts_model(body@),
            env: env_model(env@),
        }),
{
    assert((Value::Function { params, body, env }).model()->Function_env =~= env_model(env@));
}

/// Canonical text of a value, as `print` writes it and `+` joins it.
pub open spec fn render(v: SValue) -> Seq<char>
    decreases v,
{
    match v {
        SValue::String(s) => s,
        SValue::Number(n) => render_number(n),
        SValue::Boolean(b) => if b {
            seq!['t', 'r', 'u', 'e']
        } else {
            seq!['f', 'a', 'l', 's', 'e']
        },
        SValue::Null => seq!['n', 'u', 'l', 'l'],
        SValue::Array(items) => seq!['['] + render_items(items, items.len()) + seq![']'],
        SValue::Function { .. } => "[Function]"@,
        SValue::NativeFunction(_) => "[NativeFunction]"@,
    }
}

/// The texts of the first `n` items, separated by `", "`.
pub open spec fn render_items(items: Seq<SValue>, n: nat) -> Seq<char>
    decreases items, n,
{
    if n == 0 || n > items.len() {
        Seq::empty()
    } else if n == 1 {
        render(items[0])
    } else {
        render_items(items, (n - 1) as nat) + seq![',', ' '] + render(items[n - 1])
    }
}

/// Equality of values: structural within a variant, never across variants;
/// numbers compare numerically; functions are never equal.
pub open spec fn values_equal(a: SValue, b: SValue) -> bool
    decreases a,
{
    match (a, b) {
        (SValue::Number(x), SValue::Number(y)) => spec_num_eq(x, y),
        (SValue::String(x), SValue::String(y)) => x == y,
        (SValue::Boolean(x), SValue::Boolean(y)) => x == y,
        (SValue::Null, SValue::Null) => true,
        (SValue::Array(x), SValue::Array(y)) => x.len() == y.len() && items_equal(x, y, x.len()),
        _ => false,
    }
}

/// Whether the first `n` items of `x` and `y` are pairwise equal.
pub open spec fn items_equal(x: Seq<SValue>, y: Seq<SValue>, n: nat) -> bool
    decreases x, n,
{
    if n == 0 || n > x.len() || n > y.len() {
        n == 0
    } else {
        items_equal(x, y, (n - 1) as nat) && values_equal(x[n - 1], y[n - 1])
    }
}

proof fn lemma_items_equal_prefix(x: Seq<SValue>, y: Seq<SValue>, i: nat, n: nat)
    requires
        i < n <= x.len(),
        n <= y.len(),
        !values_equal(x[i as int], y[i as int]),
    ensures
        !items_equal(x, y, n),
    decreases n,
{
    if n > i + 1 {
        lemma_items_equal_prefix(x, y, i, (n - 1) as nat);
    }
}

/// Index of the first binding of `name` at or after `i`.
pub open spec fn find_from(env: Seq<SBinding>, name: Seq<char>, i: nat) -> Option<nat>
    decreases env.len() - i,
{
    if i >= env.len() {
        None
    } else if env[i as int].name == name {
        Some(i)
    } else {
        find_from(env, name, i + 1)
    }
}

pub open spec fn find(env: Seq<SBinding>, name: Seq<char>) -> Option<nat> {
    find_from(env, name, 0)
}

/// `env` with `b` bound: in place of an earlier binding of the name, else added.
pub open spec fn env_set(env: Seq<SBinding>, b: SBinding) -> Seq<SBinding> {
    match find(env, b.name) {
        Some(i) => env.update(i as int, b),
        None => env.push(b),
    }
}

proof fn lemma_find_from_bound(env: Seq<SBinding>, name: Seq<char>, i: nat)
    ensures
        find_from(env, name, i) matches Some(k) ==> i <= k < env.len() && env[k as int].name == name,
    decreases env.len() - i,
{
    if i < env.len() && env[i as int].name != name {
        lemma_find_from_bound(env, name, i + 1);
    }
}

pub proof fn lemma_find_bound(env: Seq<SBinding>, name: Seq<char>)
    ensures
        find(env, name) matches Some(k) ==> k < env.len() && env[k as int].name == name,
{
    lemma_find_from_bound(env, name, 0);
}

/// Whether two texts are equal.
pub fn text_eq(a: &Vec<char>, b: &Vec<char>) -> (r: bool)
    ensures
        r == (a@ == b@),
{
    if a.len() != b.len() {
        return false;
    }
    let mut i: usize = 0;
    while i < a.len()
        invariant
            a.len() == b.len(),
            i <= a.len(),
            forall|j: int| 0 <= j < i ==> a@[j] == b@[j],
        decreases a.len() - i,
    {
        if a[i] != b[i] {
            return false;
        }
        i += 1;
    }
    assert(a@ =~= b@);
    true
}

/// Index of the binding of `name` in `env`.
pub fn find_binding(env: &Vec<Binding>, name: &Vec<char>) -> (r: Option<usize>)
    ensures
        r matches Some(k) ==> k < env.len() && find(env_model(env@), name@) == Some(k as nat),
        r is None ==> find(env_model(env@), name@) is None,
{
    let mut i: usize = 0;
    while i < env.len()
        invariant
            i <= env.len(),
            find(env_model(env@), name@) == find_from(env_model(env@), name@, i as nat),
        decreases env.len() - i,
    {
        if text_eq(&env[i].name, name) {
            return Some(i);
        }
        i += 1;
    }
    None
}

/// Binds `b` in `env`, replacing an earlier binding of the same name.
pub fn env_set_exec(env: &mut Vec<Binding>, b: Binding)
    ensures
        env_model(final(env)@) == env_set(env_model(old(env)@), b.model()),
{
    let ghost m = b.model();
    let found = find_binding(env, &b.name);
    assert(m.name == b.name@);
    match found {
        Some(i) => {
            assert(find(env_model(old(env)@), m.name) == Some(i as nat));
            env.set(i, b);
            assert(env_model(env@) =~= env_model(old(env)@).update(i as int, m));
        },
        None => {
            env.push(b);
            assert(env_model(env@) =~= env_model(old(env)@).push(m));
        },
    }
}

/// A copy of a value.
pub fn clone_value(v: &Value) -> (r: Value)
    ensures
        r.model() == v.model(),
    decreases v,
{
    match v {
        Value::Number(n) => Value::Number(*n),
        Value::String(s) => Value::String(copy_text(s)),
        Value::Boolean(b) => Value::Boolean(*b),
        Value::Null => Value::Null,
        Value::Function { params, body, env } => {
            let p = clone_names(params);
            let b = clone_stmts(body);
            let e = clone_env(env);
            proof {
                lemma_function_value_model(p, b, e);
                lemma_function_value_model(*params, *body, *env);
            }
            Value::Function { params: p, body: b, env: e }
        },
        Value::NativeFunction(k) => Value::NativeFunction(*k),
        Value::Array(items) => {
            let mut out: Vec<Value> = Vec::new();
            let mut i: usize = 0;
            while i < items.len()
                invariant
                    i <= items.len(),
                    *v == Value::Array(*items),
                    values_model(out@) == values_model(items@.subrange(0, i as int)),
                decreases items.len() - i,
            {
                proof {
                    assert(decreases_to!(*v => v->Array_0));
                    assert(decreases_to!(v->Array_0 => v->Array_0[i as int]));
                }
                let c = clone_value(&items[i]);
                let ghost before = out@;
                out.push(c);
                assert(values_model(out@) =~= values_model(before).push(items@[i as int].model()));
                assert(values_model(items@.subrange(0, i + 1)) =~= values_model(
                    items@.subrange(0, i as int),
                ).push(items@[i as int].model()));
                i += 1;
            }
            assert(items@.subrange(0, i as int) =~= items@);
            proof {
                lemma_array_value_model(out);
                lemma_array_value_model(*items);
            }
            Value::Array(out)
        },
    }
}

/// A copy of an environment.
pub fn clone_env(env: &Vec<Binding>) -> (r: Vec<Binding>)
    ensures
        env_model(r@) == env_model(env@),
    decreases env,
{
    let mut out: Vec<Binding> = Vec::new();
    let mut i: usize = 0;
    while i < env.len()
        invariant
            i <= env.len(),
            env_model(out@) == env_model(env@.subrange(0, i as int)),
        decreases env.len() - i,
    {
        proof {
            assert(decreases_to!(*env => env@[i as int]));
            assert(decreases_to!(env@[i as int] => env@[i as int].value));
        }
        let b = Binding {
            name: copy_text(&env[i].name),
            value: clone_value(&env[i].value),
            is_const: env[i].is_const,
        };
        let ghost before = out@;
        out.push(b);
        assert(env_model(out@) =~= env_model(before).push(env@[i as int].model()));
        assert(env_model(env@.subrange(0, i + 1)) =~= env_model(env@.subrange(0, i as int)).push(
            env@[i as int].model(),
        ));
        i += 1;
    }
    assert(env@.subrange(0, i as int) =~= env@);
    out
}

/// The characters of a string literal.
pub(crate) fn literal_chars(s: &str) -> (r: Vec<char>)
    ensures
        r@ == s@,
{
    let n = s.unicode_len();
    let mut out: Vec<char> = Vec::new();
    let mut i: usize = 0;
    while i < n
        invariant
            n == s@.len(),
            i <= n,
            out@ == s@.subrange(0, i as int),
        decreases n - i,
    {
        out.push(s.get_char(i));
        i += 1;
        assert(out@ =~= s@.subrange(0, i as int));
    }
    assert(s@.subrange(0, i as int) =~= s@);
    out
}

/// Canonical text of a value.
pub fn render_value(v: &Value) -> (r: Vec<char>)
    ensures
        r@ == render(v.model()),
    decreases v,
{
    match v {
        Value::String(s) => copy_text(s),
        Value::Number(n) => n.render(),
        Value::Boolean(b) => if *b {
            vec!['t', 'r', 'u', 'e']
        } else {
            vec!['f', 'a', 'l', 's', 'e']
        },
        Value::Null => vec!['n', 'u', 'l', 'l'],
        Value::Function { .. } => literal_chars("[Function]"),
        Value::NativeFunction(_) => literal_chars("[NativeFunction]"),
        Value::Array(items) => {
            let ghost ms = values_model(items@);
            proof {
                lemma_array_value_model(*items);
            }
            let mut out: Vec<char> = vec!['['];
            let mut i: usize = 0;
            while i < items.len()
                invariant
                    i <= items.len(),
                    *v == Value::Array(*items),
                    ms == values_model(items@),
                    out@ == seq!['['] + render_items(ms, i as nat),
                decreases items.len() - i,
            {
                proof {
                    assert(decreases_to!(*v => v->Array_0));
                    assert(decreases_to!(v->Array_0 => v->Array_0[i as int]));
                }
                let ghost before = out@;
                if i > 0 {
                    out.push(',');
                    out.push(' ');
                }
                let t = render_value(&items[i]);
                append_chars(&mut out, &t);
                proof {
                    assert(ms[i as int] == items@[i as int].model());
                    if i == 0 {
                        assert(out@ =~= seq!['['] + render_items(ms, 1));
                    } else {
                        assert(out@ =~= seq!['['] + (render_items(ms, i as nat) + seq![',', ' '] + render(ms[i as int])));
                    }
                }
                i += 1;
            }
            out.push(']');
            out
        },
    }
}

/// Equality of values, as `==` compares them.
pub fn values_equal_exec(a: &Value, b: &Value) -> (r: bool)
    ensures
        r == values_equal(a.model(), b.model()),
    decreases a,
{
    match (a, b) {
        (Value::Number(x), Value::Number(y)) => x.num_eq(*y),
        (Value::String(x), Value::String(y)) => text_eq(x, y),
        (Value::Boolean(x), Value::Boolean(y)) => *x == *y,
        (Value::Null, Value::Null) => true,
        (Value::Array(x), Value::Array(y)) => {
            proof {
                lemma_array_value_model(*x);
                lemma_array_value_model(*y);
            }
            if x.len() != y.len() {
                return false;
            }
            let mut i: usize = 0;
            while i < x.len()
                invariant
                    i <= x.len() == y.len(),
                    *a == Value::Array(*x),
                    *b == Value::Array(*y),
                    a.model() == SValue::Array(values_model(x@)),
                    b.model() == SValue::Array(values_model(y@)),
                    items_equal(values_model(x@), values_model(y@), i as nat),
                decreases x.len() - i,
            {
                proof {
                    assert(decreases_to!(*a => a->Array_0));
                    assert(decreases_to!(a->Array_0 => a->Array_0[i as int]));
                }
                if !values_equal_exec(&x[i], &y[i]) {
                    proof {
                        lemma_items_equal_prefix(values_model(x@), values_model(y@), i as nat, x.len() as nat);
                    }
                    return false;
                }
                i += 1;
            }
            true
        },
        _ => false,
    }
}

/// Relies on `String::from_iter`: a string of exactly these characters.
#[verifier::external_body]
pub(crate) fn text_of(v: &Vec<char>) -> (r: String)
    ensures
        r@ == v@,
{
    v.iter().collect()
}

impl Value {
    /// The number this value holds; any other value is a type error.
    pub fn as_number(&self) -> (r: Result<Number, RunError>)
        ensures
            match self.model() {
                SValue::Number(n) => r == Ok::<Number, RunError>(n),
                _ => r is Err && r->Err_0.model() == (SRunError {
                    kind: RunErrorKind::TypeMismatch,
                    name: Seq::empty(),
                }),
            },
    {
        match self {
            Value::Number(n) => Ok(*n),
            _ => Err(RunError { kind: RunErrorKind::TypeMismatch, name: Vec::new() }),
        }
    }

    /// The boolean this value holds; any other value is a type error.
    pub fn as_bool(&self) -> (r: Result<bool, RunError>)
        ensures
            match self.model() {
                SValue::Boolean(b) => r == Ok::<bool, RunError>(b),
                _ => r is Err && r->Err_0.model() == (SRunError {
                    kind: RunErrorKind::TypeMismatch,
                    name: Seq::empty(),
                }),
            },
    {
        match self {
            Value::Boolean(b) => Ok(*b),
            _ => Err(RunError { kind: RunErrorKind::TypeMismatch, name: Vec::new() }),
        }
    }

    /// Canonical text of the value.
    pub fn as_string(&self) -> (r: String)
        ensures
            r@ == render(self.model()),
    {
        text_of(&render_value(self))
    }
}

} // verus!
