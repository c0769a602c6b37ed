//! Properties of the language that hold for every input, proved from the
//! definitions that the executable functions are verified against.
use vstd::prelude::*;
use crate::number::{Number, SCALE};
use crate::ast::{BinOp, SLiteral, SExpr, SStmt};
use crate::lexer::SToken;
use crate::parser::{ParseError, ParseErrorKind, PARSE_DEPTH, lemma_sequence, parse_tokens, p_expression, p_binary, p_binary_rest, p_postfix, p_primary, p_index_rest, p_call_or_variable, p_dotted, is_sym, op_of, tok};
use crate::value::{Native, SValue, SBinding, find, find_from, env_set, render};
use crate::number::render_number;
use crate::semantics::{
    fresh_state,
    RunErrorKind, SRunError, SState, SRes, lookup, eval, exec_stmt, index_value, call_native,
    run_program, literal_value, RUN_BUDGET,
};

verus! {

/// Parsing is deterministic: two parses of one token stream agree, on the
/// program or on the error.
pub proof fn law_parse_deterministic(
    ts: Seq<SToken>,
    r1: Result<Seq<SStmt>, ParseError>,
    r2: Result<Seq<SStmt>, ParseError>,
)
    requires
        r1 == parse_tokens(ts),
        r2 == parse_tokens(ts),
    ensures
        r1 == r2,
{
}

/// The parser's guard against a statement or operand that consumes no
/// token never fires: no token stream gives that error.
pub proof fn law_parse_progresses(ts: Seq<SToken>)
    ensures
        parse_tokens(ts) matches Err(e) ==> e.kind != ParseErrorKind::NoProgress,
{
    lemma_sequence(ts, 0, PARSE_DEPTH as nat, false);
}

/// Two fresh interpreters run a program alike: same output, same files,
/// same outcome.
pub proof fn law_fresh_deterministic(prog: Seq<SStmt>, a: SRes<()>, b: SRes<()>)
    requires
        a == run_program(fresh_state(), prog, 0, RUN_BUDGET as nat),
        b == run_program(fresh_state(), prog, 0, RUN_BUDGET as nat),
    ensures
        a.0.output == b.0.output,
        a.0.files == b.0.files,
        a.1 == b.1,
{
}

/// Running is deterministic: one program run twice from the same state
/// (same bindings, output, files and seed) has the same effects and outcome.
pub proof fn law_run_deterministic(st: SState, prog: Seq<SStmt>, a: SRes<()>, b: SRes<()>)
    requires
        a == run_program(st, prog, 0, RUN_BUDGET as nat),
        b == run_program(st, prog, 0, RUN_BUDGET as nat),
    ensures
        a.0.output == b.0.output,
        a.0.files == b.0.files,
        a.1 == b.1,
{
}

/// Assigning to a name bound as constant fails, and changes nothing: not
/// the binding, not the output, not the files.
pub proof fn law_const_protected(st: SState, name: Seq<char>, l: SLiteral, fuel: nat)
    requires
        find(st.locals, name) matches Some(i) && st.locals[i as int].is_const,
        fuel >= 2,
    ensures
        exec_stmt(st, SStmt::Assignment(name, Box::new(SExpr::Literal(l))), fuel) == (
            st,
            Err::<crate::semantics::SSignal, SRunError>(SRunError { kind: RunErrorKind::ConstReassignment, name }),
        ),
        exec_stmt(st, SStmt::VarDecl { name, value: SExpr::Literal(l), is_const: false }, fuel) == (
            st,
            Err::<crate::semantics::SSignal, SRunError>(SRunError { kind: RunErrorKind::ConstReassignment, name }),
        ),
{
    crate::value::lemma_find_bound(st.locals, name);
    let f = (fuel - 1) as nat;
    assert(eval(st, SExpr::Literal(l), f) == (st, Ok::<SValue, SRunError>(literal_value(l))));
}

/// Indexing an array by a number never fails, and an index at or past the
/// end gives `null`.
pub proof fn law_array_bounds(items: Seq<SValue>, n: Number)
    ensures
        index_value(SValue::Array(items), SValue::Number(n)) is Ok,
        n matches Number::Fixed(m) && m >= 0 && m / SCALE >= items.len() ==> index_value(
            SValue::Array(items),
            SValue::Number(n),
        ) == Ok::<SValue, SRunError>(SValue::Null),
{
}

/// An index expression on an array and a number never fails, and gives
/// `null` for an index at or past the end.
pub proof fn law_index_expression(st: SState, a: SExpr, i: SExpr, fuel: nat, items: Seq<SValue>, m: i64)
    requires
        fuel >= 1,
        eval(st, a, (fuel - 1) as nat).1 == Ok::<SValue, SRunError>(SValue::Array(items)),
        eval(eval(st, a, (fuel - 1) as nat).0, i, (fuel - 1) as nat).1 == Ok::<SValue, SRunError>(
            SValue::Number(Number::Fixed(m)),
        ),
        m >= 0,
        m / SCALE >= items.len(),
    ensures
        eval(st, SExpr::Index(Box::new(a), Box::new(i)), fuel) == (
            eval(eval(st, a, (fuel - 1) as nat).0, i, (fuel - 1) as nat).0,
            Ok::<SValue, SRunError>(SValue::Null),
        ),
{
}

/// Number of arguments that a built-in function takes, where it checks it.
pub open spec fn native_arity(k: Native) -> Option<nat> {
    match k {
        Native::Style(_) => Some(1),
        Native::Sqrt => Some(1),
        Native::Pow => Some(2),
        Native::ReadFile => Some(1),
        Native::WriteFile => Some(2),
        Native::Random => Some(0),
        Native::Print => None,
    }
}

/// A built-in function called with the wrong number of arguments fails with
/// an arity error naming the call and the number it expects, before it reads
/// any argument, and changes nothing.
pub proof fn law_native_arity(st: SState, k: Native, name: Seq<char>, args: Seq<SValue>)
    requires
        native_arity(k) matches Some(n) && args.len() != n,
    ensures
        call_native(st, k, name, args) == (
            st,
            Err::<SValue, SRunError>(SRunError { kind: RunErrorKind::ArityMismatch(native_arity(k)->0 as u64), name }),
        ),
{
}

/// `random()` takes no arguments and gives a number in `[0, 1)`, drawn
/// from the seed, which then moves on.
pub proof fn law_random_fraction(st: SState, name: Seq<char>)
    ensures
        ({
            let (s1, r) = call_native(st, Native::Random, name, Seq::empty());
            &&& s1.seed == crate::semantics::next_seed(st.seed)
            &&& r matches Ok(SValue::Number(Number::Fixed(m))) && 0 <= m < SCALE
        }),
{
}

/// A variable that nothing binds is an error, never `null`.
pub proof fn law_undefined_variable(st: SState, name: Seq<char>, fuel: nat)
    requires
        lookup(st, name) is None,
        fuel >= 1,
    ensures
        eval(st, SExpr::Variable(name), fuel) == (
            st,
            Err::<SValue, SRunError>(SRunError { kind: RunErrorKind::UndefinedVariable, name }),
        ),
{
}

/// A call of a name that nothing binds is an error once its arguments are
/// evaluated, never `null`.
pub proof fn law_undefined_function(st: SState, name: Seq<char>, args: Seq<SExpr>, fuel: nat)
    requires
        fuel >= 1,
        crate::semantics::eval_list(st, args, 0, Seq::empty(), (fuel - 1) as nat).1 is Ok,
        lookup(crate::semantics::eval_list(st, args, 0, Seq::empty(), (fuel - 1) as nat).0, name) is None,
    ensures
        eval(st, SExpr::Call(name, args), fuel) == (
            crate::semantics::eval_list(st, args, 0, Seq::empty(), (fuel - 1) as nat).0,
            Err::<SValue, SRunError>(SRunError { kind: RunErrorKind::UndefinedFunction, name }),
        ),
{
}

/// `+` with a string on either side joins the canonical texts of both
/// operands, whatever the other operand is.
pub proof fn law_concatenation(a: SValue, b: SValue)
    requires
        a is String || b is String,
    ensures
        crate::semantics::binary(BinOp::Add, a, b) == Ok::<SValue, SRunError>(SValue::String(render(a) + render(b))),
{
}

/// In particular a string and a number join as the string followed by the
/// number's text.
pub proof fn law_concatenation_number(s: Seq<char>, n: Number)
    ensures
        crate::semantics::binary(BinOp::Add, SValue::String(s), SValue::Number(n)) == Ok::<SValue, SRunError>(
            SValue::String(s + render_number(n)),
        ),
{
}

proof fn lemma_assign_is_no_operator()
    ensures
        op_of(seq!['=']) is None,
{
    let e = seq!['='];
    assert(e[0] == '=');
    assert(e.len() == 1);
    assert(e != seq!['+']) by { assert(seq!['+'][0] == '+'); }
    assert(e != seq!['-']) by { assert(seq!['-'][0] == '-'); }
    assert(e != seq!['*']) by { assert(seq!['*'][0] == '*'); }
    assert(e != seq!['/']) by { assert(seq!['/'][0] == '/'); }
    assert(e != seq!['>']) by { assert(seq!['>'][0] == '>'); }
    assert(e != seq!['<']) by { assert(seq!['<'][0] == '<'); }
    assert(e != seq!['>', '=']) by { assert(seq!['>', '='].len() == 2); }
    assert(e != seq!['<', '=']) by { assert(seq!['<', '='].len() == 2); }
    assert(e != seq!['=', '=']) by { assert(seq!['=', '='].len() == 2); }
    assert(e != seq!['!', '=']) by { assert(seq!['!', '='].len() == 2); }
}

/// The expression of a single-token operand: a literal or a variable.
pub open spec fn operand(t: SToken) -> SExpr {
    match t {
        SToken::Number(n) => SExpr::Literal(SLiteral::Number(n)),
        SToken::String(s) => SExpr::Literal(SLiteral::String(s)),
        SToken::Boolean(b) => SExpr::Literal(SLiteral::Boolean(b)),
        SToken::Identifier(n) => SExpr::Variable(n),
        _ => SExpr::Literal(SLiteral::Null),
    }
}

pub open spec fn is_operand(t: SToken) -> bool {
    t is Number || t is String || t is Boolean || t is Identifier
}

/// A token that ends an operand chain: no operator, and nothing that would
/// extend the last operand into a call, a dotted name or an index.
pub open spec fn ends_chain(t: SToken) -> bool {
    !(t is Operator) && t != SToken::Symbol('[') && t != SToken::Symbol('(') && t != SToken::Symbol('.')
}

/// `k` pairs of operator and operand from `p` on: each operator a binary
/// operator, each operand a single token.
pub open spec fn is_chain(ts: Seq<SToken>, p: nat, k: nat) -> bool {
    forall|i: nat| i < k ==> {
        &&& #[trigger] tok(ts, p + 2 * i) matches SToken::Operator(t) && op_of(t) is Some
        &&& is_operand(tok(ts, p + 2 * i + 1))
    }
}

/// `left` followed by `k` pairs of operator and operand, folded from the left.
pub open spec fn fold_chain(left: SExpr, ts: Seq<SToken>, p: nat, k: nat) -> SExpr
    decreases k,
{
    if k == 0 {
        left
    } else {
        fold_chain(
            SExpr::BinaryOp(
                Box::new(left),
                op_of(tok(ts, p)->Operator_0)->0,
                Box::new(operand(tok(ts, p + 1))),
            ),
            ts,
            p + 2,
            (k - 1) as nat,
        )
    }
}

proof fn lemma_operand(ts: Seq<SToken>, q: nat, f: nat)
    requires
        f >= 2,
        is_operand(tok(ts, q)),
        ends_chain(tok(ts, q + 1)) || tok(ts, q + 1) is Operator,
    ensures
        p_postfix(ts, q, f) == Ok::<(SExpr, nat), ParseError>((operand(tok(ts, q)), q + 1)),
{
    let g = (f - 1) as nat;
    if let SToken::Identifier(n) = tok(ts, q) {
        assert(p_dotted(ts, q + 1, n) == Ok::<(Seq<char>, nat), ParseError>((n, q + 1)));
        assert(p_call_or_variable(ts, q, g) == Ok::<(SExpr, nat), ParseError>((SExpr::Variable(n), q + 1)));
    }
    assert(p_primary(ts, q, g) == Ok::<(SExpr, nat), ParseError>((operand(tok(ts, q)), q + 1)));
    assert(p_index_rest(ts, q + 1, g, operand(tok(ts, q))) == Ok::<(SExpr, nat), ParseError>((operand(tok(ts, q)), q + 1)));
}

proof fn lemma_chain_rest(ts: Seq<SToken>, p: nat, f: nat, k: nat, left: SExpr)
    requires
        f >= 2,
        is_chain(ts, p, k),
        ends_chain(tok(ts, p + 2 * k)),
    ensures
        p_binary_rest(ts, p, f, left) == Ok::<(SExpr, nat), ParseError>((fold_chain(left, ts, p, k), p + 2 * k)),
    decreases k,
{
    lemma_assign_is_no_operator();
    if k > 0 {
        assert(tok(ts, p + 2 * 0) matches SToken::Operator(t) && op_of(t) is Some);
        assert(is_operand(tok(ts, p + 2 * 0 + 1)));
        let t = tok(ts, p)->Operator_0;
        assert(t != seq!['=']);
        assert(is_chain(ts, p + 2, (k - 1) as nat)) by {
            assert forall|i: nat| i < k - 1 implies {
                &&& #[trigger] tok(ts, (p + 2) + 2 * i) matches SToken::Operator(t) && op_of(t) is Some
                &&& is_operand(tok(ts, (p + 2) + 2 * i + 1))
            } by {
                assert(tok(ts, p + 2 * (i + 1)) matches SToken::Operator(t) && op_of(t) is Some);
                assert(is_operand(tok(ts, p + 2 * (i + 1) + 1)));
                assert(p + 2 * (i + 1) == (p + 2) + 2 * i);
            }
        }
        if k > 1 {
            assert(tok(ts, p + 2 * 1) matches SToken::Operator(_));
        }
        assert(p + 2 == p + 2 * 1);
        lemma_operand(ts, p + 1, f);
        let e = SExpr::BinaryOp(Box::new(left), op_of(t)->0, Box::new(operand(tok(ts, p + 1))));
        lemma_chain_rest(ts, p + 2, f, (k - 1) as nat, e);
        assert((p + 2) + 2 * ((k - 1) as nat) == p + 2 * k);
    }
}

/// Binary operators share one precedence and fold from the left, in a chain
/// of any length: `x0 o1 x1 ... ok xk` parses as
/// `(...((x0 o1 x1) o2 x2) ... ok xk)`, with each `xi` a literal or a
/// variable.
pub proof fn law_flat_precedence_chain(ts: Seq<SToken>, p: nat, f: nat, k: nat)
    requires
        f >= 4,
        is_operand(tok(ts, p)),
        is_chain(ts, p + 1, k),
        ends_chain(tok(ts, p + 1 + 2 * k)),
    ensures
        p_expression(ts, p, f) == Ok::<(SExpr, nat), ParseError>(
            (fold_chain(operand(tok(ts, p)), ts, p + 1, k), p + 1 + 2 * k),
        ),
{
    let g = (f - 1) as nat;
    if k > 0 {
        assert(tok(ts, (p + 1) + 2 * 0) matches SToken::Operator(_));
    }
    lemma_operand(ts, p, g);
    lemma_chain_rest(ts, p + 1, g, k, operand(tok(ts, p)));
    assert(p_binary(ts, p, g) == Ok::<(SExpr, nat), ParseError>(
        (fold_chain(operand(tok(ts, p)), ts, p + 1, k), p + 1 + 2 * k),
    ));
}

proof fn lemma_find_from_first(env: Seq<SBinding>, name: Seq<char>, i: nat, k: nat)
    requires
        find_from(env, name, i) == Some(k),
    ensures
        forall|j: int| i <= j < k ==> env[j].name != name,
        k < env.len(),
        env[k as int].name == name,
    decreases env.len() - i,
{
    if i < env.len() && env[i as int].name != name {
        lemma_find_from_first(env, name, i + 1, k);
    }
}

proof fn lemma_find_from_at(env: Seq<SBinding>, name: Seq<char>, i: nat, k: nat)
    requires
        i <= k < env.len(),
        env[k as int].name == name,
        forall|j: int| i <= j < k ==> env[j].name != name,
    ensures
        find_from(env, name, i) == Some(k),
    decreases k - i,
{
    if i < k {
        lemma_find_from_at(env, name, i + 1, k);
    }
}

proof fn lemma_find_none(env: Seq<SBinding>, name: Seq<char>, i: nat, j: int)
    requires
        find_from(env, name, i) is None,
        i <= j < env.len(),
    ensures
        env[j].name != name,
    decreases env.len() - i,
{
    if i < j {
        lemma_find_none(env, name, i + 1, j);
    }
}

/// After binding `b`, looking up its name finds `b`.
pub proof fn lemma_env_set_finds(env: Seq<SBinding>, b: SBinding)
    ensures
        find(env_set(env, b), b.name) matches Some(k) && env_set(env, b)[k as int] == b,
{
    let e2 = env_set(env, b);
    match find(env, b.name) {
        Some(i) => {
            lemma_find_from_first(env, b.name, 0, i);
            lemma_find_from_at(e2, b.name, 0, i);
        },
        None => {
            assert forall|j: int| 0 <= j < env.len() implies e2[j].name != b.name by {
                lemma_find_none(env, b.name, 0, j);
            }
            lemma_find_from_at(e2, b.name, 0, env.len());
        },
    }
}

/// A function captures its environment as a copy when it is declared: the
/// function bound afterwards holds the local bindings as they were then, and
/// no later assignment reaches that copy.
pub proof fn law_closure_snapshot(st: SState, name: Seq<char>, params: Seq<Seq<char>>, body: Seq<SStmt>, fuel: nat)
    requires
        fuel >= 1,
        !(find(st.locals, name) matches Some(i) && st.locals[i as int].is_const),
    ensures
        ({
            let (s1, r) = exec_stmt(st, SStmt::Function { name, params, body }, fuel);
            &&& r is Ok
            &&& lookup(s1, name) == Some(
                SBinding {
                    name,
                    value: SValue::Function { params, body, env: st.locals },
                    is_const: false,
                },
            )
        }),
{
    let b = SBinding { name, value: SValue::Function { params, body, env: st.locals }, is_const: false };
    lemma_env_set_finds(st.locals, b);
}

} // verus!
