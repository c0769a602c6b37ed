//! Recursive-descent parser with one token of lookahead. Binary operators
//! share one precedence level and fold from left to right.
use vstd::prelude::*;
pub use crate::ast::{Literal, Expr, Stmt};
use crate::number::Number;
use crate::lexer::{Lexer, Token, SToken, models, tokens_from, copy_text, lemma_tokens_shape};
use crate::ast::{
    BinOp, SLiteral, SExpr, SStmt, stmts_model, exprs_model, names_model,
    lemma_block_model, lemma_looping_model, lemma_if_model, lemma_for_model, lemma_function_model,
    lemma_call_model, lemma_array_model,
};

verus! {

/// How deeply the parser may nest before it gives up.
pub const PARSE_DEPTH: u64 = 1000;

#[derive(Debug, Clone, Copy, PartialEq, Eq, Structural)]
pub enum ParseErrorKind {
    /// A specific symbol was required.
    ExpectedSymbol(char),
    /// `=` was required after the name in a declaration.
    ExpectedAssign,
    /// A name was required.
    ExpectedIdentifier,
    /// A parameter name was required in a function's parameter list.
    ExpectedParameter,
    /// No expression starts with this token.
    UnexpectedToken,
    /// The left side of `=` is not a variable.
    InvalidAssignmentTarget,
    /// An operator outside the closed set.
    UnknownOperator,
    /// Nesting deeper than the parser allows.
    TooDeep,
    /// A statement or operand that consumed no token. No token stream gives
    /// this error (`laws::law_parse_progresses`); it keeps the definition of
    /// the parser's loops evidently terminating.
    NoProgress,
}

/// A parse error and the index of the token at which it arose.
#[derive(Debug, Clone, Copy, PartialEq, Eq, Structural)]
pub struct ParseError {
    pub kind: ParseErrorKind,
    pub at: usize,
}

pub type PRes<T> = Result<(T, nat), ParseError>;

pub open spec fn err<T>(kind: ParseErrorKind, p: nat) -> PRes<T> {
    Err(ParseError { kind, at: p as usize })
}

/// The token at index `p`; past the end, `EOF`.
pub open spec fn tok(ts: Seq<SToken>, p: nat) -> SToken {
    if p < ts.len() {
        ts[p as int]
    } else {
        SToken::EOF
    }
}

pub open spec fn is_sym(ts: Seq<SToken>, p: nat, c: char) -> bool {
    tok(ts, p) == SToken::Symbol(c)
}

/// The operator that a text stands for, if any.
pub open spec fn op_of(s: Seq<char>) -> Option<BinOp> {
    if s == seq!['+'] {
        Some(BinOp::Add)
    } else if s == seq!['-'] {
        Some(BinOp::Sub)
    } else if s == seq!['*'] {
        Some(BinOp::Mul)
    } else if s == seq!['/'] {
        Some(BinOp::Div)
    } else if s == seq!['>'] {
        Some(BinOp::Gt)
    } else if s == seq!['<'] {
        Some(BinOp::Lt)
    } else if s == seq!['>', '='] {
        Some(BinOp::Ge)
    } else if s == seq!['<', '='] {
        Some(BinOp::Le)
    } else if s == seq!['=', '='] {
        Some(BinOp::Eq)
    } else if s == seq!['!', '='] {
        Some(BinOp::Ne)
    } else {
        None
    }
}

/// A statement, or the statements of a block, as a sequence.
pub open spec fn as_body(s: SStmt) -> Seq<SStmt> {
    match s {
        SStmt::Block(b) => b,
        _ => seq![s],
    }
}

/// A bare keyword statement, `break` or `continue`, and its `;`.
pub open spec fn p_bare(ts: Seq<SToken>, p: nat, s: SStmt) -> PRes<SStmt> {
    if is_sym(ts, p + 1, ';') {
        Ok((s, p + 2))
    } else {
        err(ParseErrorKind::ExpectedSymbol(';'), p + 1)
    }
}

/// A statement.
pub open spec fn p_statement(ts: Seq<SToken>, p: nat, f: nat) -> PRes<SStmt>
    decreases f, 0nat,
{
    if f == 0 {
        err(ParseErrorKind::TooDeep, p)
    } else {
        match tok(ts, p) {
            SToken::Let | SToken::Const => p_var_decl(ts, p, (f - 1) as nat),
            SToken::If => p_if(ts, p, (f - 1) as nat),
            SToken::Looping | SToken::While => p_looping(ts, p, (f - 1) as nat),
            SToken::For => p_for(ts, p, (f - 1) as nat),
            SToken::Break => p_bare(ts, p, SStmt::Break),
            SToken::Continue => p_bare(ts, p, SStmt::Continue),
            SToken::Fn => p_function(ts, p, (f - 1) as nat),
            SToken::Return => p_return(ts, p, (f - 1) as nat),
            SToken::Symbol('{') => p_block(ts, p, (f - 1) as nat),
            _ => p_expr_stmt(ts, p, (f - 1) as nat),
        }
    }
}

/// `(let|const) name = expression ;` starting at the keyword.
pub open spec fn p_var_decl(ts: Seq<SToken>, p: nat, f: nat) -> PRes<SStmt>
    decreases f, 1nat,
{
    let is_const = tok(ts, p) is Const;
    match tok(ts, p + 1) {
        SToken::Identifier(name) => if tok(ts, p + 2) != SToken::Operator(seq!['=']) {
            err(ParseErrorKind::ExpectedAssign, p + 2)
        } else {
            match p_expression(ts, p + 3, f) {
                Err(e) => Err(e),
                Ok((value, q)) => if !is_sym(ts, q, ';') {
                    err(ParseErrorKind::ExpectedSymbol(';'), q)
                } else {
                    Ok((SStmt::VarDecl { name, value, is_const }, q + 1))
                },
            }
        },
        _ => err(ParseErrorKind::ExpectedIdentifier, p + 1),
    }
}

/// A body: a statement, with a block flattened into its statements.
pub open spec fn p_body(ts: Seq<SToken>, p: nat, f: nat) -> PRes<Seq<SStmt>>
    decreases f, 1nat,
{
    match p_statement(ts, p, f) {
        Err(e) => Err(e),
        Ok((s, q)) => Ok((as_body(s), q)),
    }
}

/// `( expression )` starting at the `(`.
pub open spec fn p_condition(ts: Seq<SToken>, p: nat, f: nat) -> PRes<SExpr>
    decreases f, 1nat,
{
    if !is_sym(ts, p, '(') {
        err(ParseErrorKind::ExpectedSymbol('('), p)
    } else {
        match p_expression(ts, p + 1, f) {
            Err(e) => Err(e),
            Ok((c, q)) => if !is_sym(ts, q, ')') {
                err(ParseErrorKind::ExpectedSymbol(')'), q)
            } else {
                Ok((c, q + 1))
            },
        }
    }
}

pub open spec fn p_if(ts: Seq<SToken>, p: nat, f: nat) -> PRes<SStmt>
    decreases f, 2nat,
{
    match p_condition(ts, p + 1, f) {
        Err(e) => Err(e),
        Ok((condition, q)) => match p_body(ts, q, f) {
            Err(e) => Err(e),
            Ok((then_branch, r)) => if tok(ts, r) is Else {
                match p_body(ts, r + 1, f) {
                    Err(e) => Err(e),
                    Ok((els, r2)) => Ok(
                        (SStmt::If { condition, then_branch, else_branch: Some(els) }, r2),
                    ),
                }
            } else {
                Ok((SStmt::If { condition, then_branch, else_branch: None }, r))
            },
        },
    }
}

pub open spec fn p_looping(ts: Seq<SToken>, p: nat, f: nat) -> PRes<SStmt>
    decreases f, 2nat,
{
    match p_condition(ts, p + 1, f) {
        Err(e) => Err(e),
        Ok((condition, q)) => match p_body(ts, q, f) {
            Err(e) => Err(e),
            Ok((body, r)) => Ok((SStmt::Looping { condition, body }, r)),
        },
    }
}

/// `for ( declaration expression ; expression ) body`.
pub open spec fn p_for(ts: Seq<SToken>, p: nat, f: nat) -> PRes<SStmt>
    decreases f, 2nat,
{
    if !is_sym(ts, p + 1, '(') {
        err(ParseErrorKind::ExpectedSymbol('('), p + 1)
    } else {
        match p_var_decl(ts, p + 2, f) {
            Err(e) => Err(e),
            Ok((init, q1)) => match p_expression(ts, q1, f) {
                Err(e) => Err(e),
                Ok((condition, q2)) => if !is_sym(ts, q2, ';') {
                    err(ParseErrorKind::ExpectedSymbol(';'), q2)
                } else {
                    match p_expression(ts, q2 + 1, f) {
                        Err(e) => Err(e),
                        Ok((update, q3)) => if !is_sym(ts, q3, ')') {
                            err(ParseErrorKind::ExpectedSymbol(')'), q3)
                        } else {
                            match p_body(ts, q3 + 1, f) {
                                Err(e) => Err(e),
                                Ok((body, r)) => Ok(
                                    (
                                        SStmt::For {
                                            init: Box::new(init),
                                            condition,
                                            update,
                                            body,
                                        },
                                        r,
                                    ),
                                ),
                            }
                        },
                    }
                },
            },
        }
    }
}

/// Parameter names separated by `,`, up to the closing `)`.
pub open spec fn p_params(ts: Seq<SToken>, p: nat) -> PRes<Seq<Seq<char>>>
    decreases ts.len() - p,
{
    if is_sym(ts, p, ')') {
        Ok((Seq::empty(), p))
    } else {
        match tok(ts, p) {
            SToken::Identifier(s) => if is_sym(ts, p + 1, ',') || is_sym(ts, p + 1, ')') {
                let q = if is_sym(ts, p + 1, ',') {
                    p + 2
                } else {
                    p + 1
                };
                match p_params(ts, q) {
                    Err(e) => Err(e),
                    Ok((rest, r)) => Ok((seq![s] + rest, r)),
                }
            } else {
                err(ParseErrorKind::ExpectedSymbol(','), p + 1)
            },
            _ => err(ParseErrorKind::ExpectedParameter, p),
        }
    }
}

pub open spec fn p_function(ts: Seq<SToken>, p: nat, f: nat) -> PRes<SStmt>
    decreases f, 2nat,
{
    match tok(ts, p + 1) {
        SToken::Identifier(name) => if !is_sym(ts, p + 2, '(') {
            err(ParseErrorKind::ExpectedSymbol('('), p + 2)
        } else {
            match p_params(ts, p + 3) {
                Err(e) => Err(e),
                Ok((params, q)) => if !is_sym(ts, q, ')') {
                    err(ParseErrorKind::ExpectedSymbol(')'), q)
                } else {
                    match p_body(ts, q + 1, f) {
                        Err(e) => Err(e),
                        Ok((body, r)) => Ok((SStmt::Function { name, params, body }, r)),
                    }
                },
            }
        },
        _ => err(ParseErrorKind::ExpectedIdentifier, p + 1),
    }
}

pub open spec fn p_return(ts: Seq<SToken>, p: nat, f: nat) -> PRes<SStmt>
    decreases f, 2nat,
{
    if is_sym(ts, p + 1, ';') {
        Ok((SStmt::Return(None), p + 2))
    } else {
        match p_expression(ts, p + 1, f) {
            Err(e) => Err(e),
            Ok((e, q)) => if !is_sym(ts, q, ';') {
                err(ParseErrorKind::ExpectedSymbol(';'), q)
            } else {
                Ok((SStmt::Return(Some(e)), q + 1))
            },
        }
    }
}

/// `{ statement* }` starting at the `{`.
pub open spec fn p_block(ts: Seq<SToken>, p: nat, f: nat) -> PRes<SStmt>
    decreases f, 2nat,
{
    match p_sequence(ts, p + 1, f, true) {
        Err(e) => Err(e),
        Ok((stmts, q)) => if !is_sym(ts, q, '}') {
            err(ParseErrorKind::ExpectedSymbol('}'), q)
        } else {
            Ok((SStmt::Block(stmts), q + 1))
        },
    }
}

/// An expression used as a statement, ended by `;`.
pub open spec fn p_expr_stmt(ts: Seq<SToken>, p: nat, f: nat) -> PRes<SStmt>
    decreases f, 2nat,
{
    match p_expression(ts, p, f) {
        Err(e) => Err(e),
        Ok((e, q)) => if is_sym(ts, q, ';') {
            Ok((SStmt::Expression(e), q + 1))
        } else {
            err(ParseErrorKind::ExpectedSymbol(';'), q)
        },
    }
}

/// Statements up to the end of input or, inside a block, up to a `}`.
pub open spec fn p_sequence(ts: Seq<SToken>, p: nat, f: nat, in_block: bool) -> PRes<Seq<SStmt>>
    decreases f, 1nat, ts.len() - p,
{
    if tok(ts, p) is EOF || (in_block && is_sym(ts, p, '}')) {
        Ok((Seq::empty(), p))
    } else {
        match p_statement(ts, p, f) {
            Err(e) => Err(e),
            Ok((s, q)) => if q <= p || q > ts.len() {
                err(ParseErrorKind::NoProgress, p)
            } else {
                match p_sequence(ts, q, f, in_block) {
                    Err(e) => Err(e),
                    Ok((rest, r)) => Ok((seq![s] + rest, r)),
                }
            },
        }
    }
}

/// An expression: an assignment, which groups to the right, or a chain of
/// binary operations.
pub open spec fn p_expression(ts: Seq<SToken>, p: nat, f: nat) -> PRes<SExpr>
    decreases f, 0nat,
{
    if f == 0 {
        err(ParseErrorKind::TooDeep, p)
    } else {
        match p_binary(ts, p, (f - 1) as nat) {
            Err(e) => Err(e),
            Ok((e, q)) => if tok(ts, q) == SToken::Operator(seq!['=']) {
                match e {
                    SExpr::Variable(name) => match p_expression(ts, q + 1, (f - 1) as nat) {
                        Err(e2) => Err(e2),
                        Ok((v, r)) => Ok((SExpr::Assignment(name, Box::new(v)), r)),
                    },
                    _ => err(ParseErrorKind::InvalidAssignmentTarget, q),
                }
            } else {
                Ok((e, q))
            },
        }
    }
}

/// Operands joined by operators, folded from the left.
pub open spec fn p_binary(ts: Seq<SToken>, p: nat, f: nat) -> PRes<SExpr>
    decreases f, 2nat,
{
    match p_postfix(ts, p, f) {
        Err(e) => Err(e),
        Ok((left, q)) => p_binary_rest(ts, q, f, left),
    }
}

pub open spec fn p_binary_rest(ts: Seq<SToken>, p: nat, f: nat, left: SExpr) -> PRes<SExpr>
    decreases f, 1nat, ts.len() - p,
{
    match tok(ts, p) {
        SToken::Operator(text) => if text == seq!['='] {
            Ok((left, p))
        } else {
            match op_of(text) {
                None => err(ParseErrorKind::UnknownOperator, p),
                Some(op) => match p_postfix(ts, p + 1, f) {
                    Err(e) => Err(e),
                    Ok((right, q)) => if q <= p || q > ts.len() {
                        err(ParseErrorKind::NoProgress, p)
                    } else {
                        p_binary_rest(
                            ts,
                            q,
                            f,
                            SExpr::BinaryOp(Box::new(left), op, Box::new(right)),
                        )
                    },
                },
            }
        },
        _ => Ok((left, p)),
    }
}

/// A primary expression followed by any number of `[ index ]`.
pub open spec fn p_postfix(ts: Seq<SToken>, p: nat, f: nat) -> PRes<SExpr>
    decreases f, 1nat, 0nat,
{
    if f == 0 {
        err(ParseErrorKind::TooDeep, p)
    } else {
        match p_primary(ts, p, (f - 1) as nat) {
            Err(e) => Err(e),
            Ok((e, q)) => p_index_rest(ts, q, (f - 1) as nat, e),
        }
    }
}

pub open spec fn p_index_rest(ts: Seq<SToken>, p: nat, f: nat, base: SExpr) -> PRes<SExpr>
    decreases f, 1nat, ts.len() - p,
{
    if is_sym(ts, p, '[') {
        match p_expression(ts, p + 1, f) {
            Err(e) => Err(e),
            Ok((i, q)) => if !is_sym(ts, q, ']') {
                err(ParseErrorKind::ExpectedSymbol(']'), q)
            } else if q + 1 <= p || q + 1 > ts.len() {
                err(ParseErrorKind::NoProgress, p)
            } else {
                p_index_rest(ts, q + 1, f, SExpr::Index(Box::new(base), Box::new(i)))
            },
        }
    } else {
        Ok((base, p))
    }
}

pub open spec fn p_primary(ts: Seq<SToken>, p: nat, f: nat) -> PRes<SExpr>
    decreases f, 3nat,
{
    match tok(ts, p) {
        SToken::Number(n) => Ok((SExpr::Literal(SLiteral::Number(n)), p + 1)),
        SToken::String(s) => Ok((SExpr::Literal(SLiteral::String(s)), p + 1)),
        SToken::Boolean(b) => Ok((SExpr::Literal(SLiteral::Boolean(b)), p + 1)),
        SToken::Identifier(_) => p_call_or_variable(ts, p, f),
        SToken::Symbol('[') => match p_arguments(ts, p + 1, f, ']') {
            Err(e) => Err(e),
            Ok((items, q)) => Ok((SExpr::Array(items), q)),
        },
        _ => err(ParseErrorKind::UnexpectedToken, p),
    }
}

/// A dotted name `a.b.c` continued from `name`, whose last part ends before `p`.
pub open spec fn p_dotted(ts: Seq<SToken>, p: nat, name: Seq<char>) -> PRes<Seq<char>>
    decreases ts.len() - p,
{
    if is_sym(ts, p, '.') {
        match tok(ts, p + 1) {
            SToken::Identifier(part) => p_dotted(ts, p + 2, name + seq!['.'] + part),
            _ => err(ParseErrorKind::ExpectedIdentifier, p + 1),
        }
    } else {
        Ok((name, p))
    }
}

/// A name, dotted or not, and then a call's arguments or nothing.
pub open spec fn p_call_or_variable(ts: Seq<SToken>, p: nat, f: nat) -> PRes<SExpr>
    decreases f, 2nat,
{
    match tok(ts, p) {
        SToken::Identifier(first) => match p_dotted(ts, p + 1, first) {
            Err(e) => Err(e),
            Ok((name, q)) => if is_sym(ts, q, '(') {
                match p_arguments(ts, q + 1, f, ')') {
                    Err(e) => Err(e),
                    Ok((args, r)) => Ok((SExpr::Call(name, args), r)),
                }
            } else {
                Ok((SExpr::Variable(name), q))
            },
        },
        _ => err(ParseErrorKind::ExpectedIdentifier, p),
    }
}

/// Expressions separated by `,`, up to and including `close`.
pub open spec fn p_arguments(ts: Seq<SToken>, p: nat, f: nat, close: char) -> PRes<Seq<SExpr>>
    decreases f, 1nat, ts.len() - p,
{
    if is_sym(ts, p, close) {
        Ok((Seq::empty(), p + 1))
    } else {
        match p_expression(ts, p, f) {
            Err(e) => Err(e),
            Ok((e, q)) => if !is_sym(ts, q, ',') && !is_sym(ts, q, close) {
                err(ParseErrorKind::ExpectedSymbol(','), q)
            } else {
                let q2 = if is_sym(ts, q, ',') {
                    q + 1
                } else {
                    q
                };
                if q2 <= p || q2 > ts.len() {
                    err(ParseErrorKind::NoProgress, p)
                } else {
                    match p_arguments(ts, q2, f, close) {
                        Err(e) => Err(e),
                        Ok((rest, r)) => Ok((seq![e] + rest, r)),
                    }
                }
            },
        }
    }
}

/// The program that a token stream holds.
pub open spec fn parse_tokens(ts: Seq<SToken>) -> Result<Seq<SStmt>, ParseError> {
    match p_sequence(ts, 0, PARSE_DEPTH as nat, false) {
        Err(e) => Err(e),
        Ok((stmts, _)) => Ok(stmts),
    }
}

/// A parse that succeeds consumes at least one token and ends inside the
/// stream; one that fails never fails for want of
/// progress.
pub open spec fn advances<T>(r: PRes<T>, p: nat, n: nat) -> bool {
    match r {
        Ok((_, q)) => p < q <= n,
        Err(e) => e.kind != ParseErrorKind::NoProgress,
    }
}

/// As `advances`, for parses that may consume nothing.
pub open spec fn keeps<T>(r: PRes<T>, p: nat, n: nat) -> bool {
    match r {
        Ok((_, q)) => p <= q && (p <= n ==> q <= n),
        Err(e) => e.kind != ParseErrorKind::NoProgress,
    }
}

pub(crate) proof fn lemma_statement(ts: Seq<SToken>, p: nat, f: nat)
    ensures
        advances(p_statement(ts, p, f), p, ts.len()),
    decreases f, 0nat,
{
    if f > 0 {
        let g = (f - 1) as nat;
        match tok(ts, p) {
            SToken::Let | SToken::Const => lemma_var_decl(ts, p, g),
            SToken::If => lemma_if(ts, p, g),
            SToken::Looping | SToken::While => lemma_looping(ts, p, g),
            SToken::For => lemma_for(ts, p, g),
            SToken::Break | SToken::Continue => {},
            SToken::Fn => lemma_function(ts, p, g),
            SToken::Return => lemma_return(ts, p, g),
            SToken::Symbol('{') => lemma_block(ts, p, g),
            _ => lemma_expr_stmt(ts, p, g),
        }
    }
}

pub(crate) proof fn lemma_var_decl(ts: Seq<SToken>, p: nat, f: nat)
    ensures
        advances(p_var_decl(ts, p, f), p, ts.len()),
    decreases f, 1nat,
{
    lemma_expression(ts, p + 3, f);
}

pub(crate) proof fn lemma_body(ts: Seq<SToken>, p: nat, f: nat)
    ensures
        advances(p_body(ts, p, f), p, ts.len()),
    decreases f, 1nat,
{
    lemma_statement(ts, p, f);
}

pub(crate) proof fn lemma_condition(ts: Seq<SToken>, p: nat, f: nat)
    ensures
        advances(p_condition(ts, p, f), p, ts.len()),
    decreases f, 1nat,
{
    lemma_expression(ts, p + 1, f);
}

pub(crate) proof fn lemma_if(ts: Seq<SToken>, p: nat, f: nat)
    ensures
        advances(p_if(ts, p, f), p, ts.len()),
    decreases f, 2nat,
{
    lemma_condition(ts, p + 1, f);
    if let Ok((_, q)) = p_condition(ts, p + 1, f) {
        lemma_body(ts, q, f);
        if let Ok((_, r)) = p_body(ts, q, f) {
            lemma_body(ts, r + 1, f);
        }
    }
}

pub(crate) proof fn lemma_looping(ts: Seq<SToken>, p: nat, f: nat)
    ensures
        advances(p_looping(ts, p, f), p, ts.len()),
    decreases f, 2nat,
{
    lemma_condition(ts, p + 1, f);
    if let Ok((_, q)) = p_condition(ts, p + 1, f) {
        lemma_body(ts, q, f);
    }
}

pub(crate) proof fn lemma_for(ts: Seq<SToken>, p: nat, f: nat)
    ensures
        advances(p_for(ts, p, f), p, ts.len()),
    decreases f, 2nat,
{
    lemma_var_decl(ts, p + 2, f);
    if let Ok((_, q1)) = p_var_decl(ts, p + 2, f) {
        lemma_expression(ts, q1, f);
        if let Ok((_, q2)) = p_expression(ts, q1, f) {
            lemma_expression(ts, q2 + 1, f);
            if let Ok((_, q3)) = p_expression(ts, q2 + 1, f) {
                lemma_body(ts, q3 + 1, f);
            }
        }
    }
}

pub(crate) proof fn lemma_params(ts: Seq<SToken>, p: nat)
    ensures
        keeps(p_params(ts, p), p, ts.len()),
    decreases ts.len() - p,
{
    if !is_sym(ts, p, ')') {
        if let SToken::Identifier(_) = tok(ts, p) {
            if is_sym(ts, p + 1, ',') || is_sym(ts, p + 1, ')') {
                let q = if is_sym(ts, p + 1, ',') { p + 2 } else { p + 1 };
                lemma_params(ts, q);
            }
        }
    }
}

pub(crate) proof fn lemma_function(ts: Seq<SToken>, p: nat, f: nat)
    ensures
        advances(p_function(ts, p, f), p, ts.len()),
    decreases f, 2nat,
{
    lemma_params(ts, p + 3);
    if let Ok((_, q)) = p_params(ts, p + 3) {
        lemma_body(ts, q + 1, f);
    }
}

pub(crate) proof fn lemma_return(ts: Seq<SToken>, p: nat, f: nat)
    ensures
        advances(p_return(ts, p, f), p, ts.len()),
    decreases f, 2nat,
{
    lemma_expression(ts, p + 1, f);
}

pub(crate) proof fn lemma_block(ts: Seq<SToken>, p: nat, f: nat)
    ensures
        advances(p_block(ts, p, f), p, ts.len()),
    decreases f, 2nat,
{
    lemma_sequence(ts, p + 1, f, true);
}

pub(crate) proof fn lemma_expr_stmt(ts: Seq<SToken>, p: nat, f: nat)
    ensures
        advances(p_expr_stmt(ts, p, f), p, ts.len()),
    decreases f, 2nat,
{
    lemma_expression(ts, p, f);
}

pub(crate) proof fn lemma_sequence(ts: Seq<SToken>, p: nat, f: nat, in_block: bool)
    ensures
        keeps(p_sequence(ts, p, f, in_block), p, ts.len()),
    decreases f, 1nat, ts.len() - p,
{
    if !(tok(ts, p) is EOF || (in_block && is_sym(ts, p, '}'))) {
        lemma_statement(ts, p, f);
        if let Ok((_, q)) = p_statement(ts, p, f) {
            if !(q <= p || q > ts.len()) {
                lemma_sequence(ts, q, f, in_block);
            }
        }
    }
}

pub(crate) proof fn lemma_expression(ts: Seq<SToken>, p: nat, f: nat)
    ensures
        advances(p_expression(ts, p, f), p, ts.len()),
    decreases f, 0nat,
{
    if f > 0 {
        let g = (f - 1) as nat;
        lemma_binary(ts, p, g);
        if let Ok((_, q)) = p_binary(ts, p, g) {
            lemma_expression(ts, q + 1, g);
        }
    }
}

pub(crate) proof fn lemma_binary(ts: Seq<SToken>, p: nat, f: nat)
    ensures
        advances(p_binary(ts, p, f), p, ts.len()),
    decreases f, 2nat,
{
    lemma_postfix(ts, p, f);
    if let Ok((left, q)) = p_postfix(ts, p, f) {
        lemma_binary_rest(ts, q, f, left);
    }
}

pub(crate) proof fn lemma_binary_rest(ts: Seq<SToken>, p: nat, f: nat, left: SExpr)
    ensures
        keeps(p_binary_rest(ts, p, f, left), p, ts.len()),
    decreases f, 1nat, ts.len() - p,
{
    if let SToken::Operator(text) = tok(ts, p) {
        if text != seq!['='] {
            if let Some(op) = op_of(text) {
                lemma_postfix(ts, p + 1, f);
                if let Ok((right, q)) = p_postfix(ts, p + 1, f) {
                    if !(q <= p || q > ts.len()) {
                        lemma_binary_rest(ts, q, f, SExpr::BinaryOp(Box::new(left), op, Box::new(right)));
                    }
                }
            }
        }
    }
}

pub(crate) proof fn lemma_postfix(ts: Seq<SToken>, p: nat, f: nat)
    ensures
        advances(p_postfix(ts, p, f), p, ts.len()),
    decreases f, 1nat, 0nat,
{
    if f > 0 {
        let g = (f - 1) as nat;
        lemma_primary(ts, p, g);
        if let Ok((e, q)) = p_primary(ts, p, g) {
            lemma_index_rest(ts, q, g, e);
        }
    }
}

pub(crate) proof fn lemma_index_rest(ts: Seq<SToken>, p: nat, f: nat, base: SExpr)
    ensures
        keeps(p_index_rest(ts, p, f, base), p, ts.len()),
    decreases f, 1nat, ts.len() - p,
{
    if is_sym(ts, p, '[') {
        lemma_expression(ts, p + 1, f);
        if let Ok((i, q)) = p_expression(ts, p + 1, f) {
            if is_sym(ts, q, ']') && !(q + 1 <= p || q + 1 > ts.len()) {
                lemma_index_rest(ts, q + 1, f, SExpr::Index(Box::new(base), Box::new(i)));
            }
        }
    }
}

pub(crate) proof fn lemma_primary(ts: Seq<SToken>, p: nat, f: nat)
    ensures
        advances(p_primary(ts, p, f), p, ts.len()),
    decreases f, 3nat,
{
    match tok(ts, p) {
        SToken::Identifier(_) => lemma_call_or_variable(ts, p, f),
        SToken::Symbol('[') => lemma_arguments(ts, p + 1, f, ']'),
        _ => {},
    }
}

pub(crate) proof fn lemma_dotted(ts: Seq<SToken>, p: nat, name: Seq<char>)
    ensures
        keeps(p_dotted(ts, p, name), p, ts.len()),
    decreases ts.len() - p,
{
    if is_sym(ts, p, '.') {
        if let SToken::Identifier(part) = tok(ts, p + 1) {
            lemma_dotted(ts, p + 2, name + seq!['.'] + part);
        }
    }
}

pub(crate) proof fn lemma_call_or_variable(ts: Seq<SToken>, p: nat, f: nat)
    ensures
        advances(p_call_or_variable(ts, p, f), p, ts.len()),
    decreases f, 2nat,
{
    if let SToken::Identifier(first) = tok(ts, p) {
        lemma_dotted(ts, p + 1, first);
        if let Ok((_, q)) = p_dotted(ts, p + 1, first) {
            lemma_arguments(ts, q + 1, f, ')');
        }
    }
}

pub(crate) proof fn lemma_arguments(ts: Seq<SToken>, p: nat, f: nat, close: char)
    ensures
        advances(p_arguments(ts, p, f, close), p, ts.len()),
    decreases f, 1nat, ts.len() - p,
{
    if !is_sym(ts, p, close) {
        lemma_expression(ts, p, f);
        if let Ok((_, q)) = p_expression(ts, p, f) {
            let q2 = if is_sym(ts, q, ',') { q + 1 } else { q };
            if !(q2 <= p || q2 > ts.len()) {
                lemma_arguments(ts, q2, f, close);
            }
        }
    }
}

/// Whether an exec result matches a spec result, through `m`.
pub open spec fn agrees<T, M>(r: Result<(T, usize), ParseError>, s: PRes<M>, m: spec_fn(T) -> M) -> bool {
    match s {
        Ok((v, q)) => r is Ok && m(r->Ok_0.0) == v && r->Ok_0.1 == q,
        Err(e) => r is Err && r->Err_0 == e,
    }
}

pub open spec fn stmt_m() -> spec_fn(Stmt) -> SStmt {
    |s: Stmt| s.model()
}

pub open spec fn expr_m() -> spec_fn(Expr) -> SExpr {
    |e: Expr| e.model()
}

pub open spec fn stmts_m() -> spec_fn(Vec<Stmt>) -> Seq<SStmt> {
    |v: Vec<Stmt>| stmts_model(v@)
}

pub open spec fn exprs_m() -> spec_fn(Vec<Expr>) -> Seq<SExpr> {
    |v: Vec<Expr>| exprs_model(v@)
}

pub open spec fn names_m() -> spec_fn(Vec<Vec<char>>) -> Seq<Seq<char>> {
    |v: Vec<Vec<char>>| names_model(v@)
}

pub open spec fn text_m() -> spec_fn(Vec<char>) -> Seq<char> {
    |v: Vec<char>| v@
}

pub open spec fn ok_pos<T>(r: Result<(T, usize), ParseError>, n: nat) -> bool {
    r is Ok ==> r->Ok_0.1 <= n
}

fn is_chars1(t: &Vec<char>, a: char) -> (r: bool)
    ensures
        r == (t@ == seq![a]),
{
    let r = t.len() == 1 && t[0] == a;
    assert(r ==> t@ =~= seq![a]);
    r
}

fn is_chars2(t: &Vec<char>, a: char, b: char) -> (r: bool)
    ensures
        r == (t@ == seq![a, b]),
{
    let r = t.len() == 2 && t[0] == a && t[1] == b;
    assert(r ==> t@ =~= seq![a, b]);
    assert(t@ == seq![a, b] ==> t@.len() == 2 && t@[0] == a && t@[1] == b);
    r
}

fn op_of_exec(t: &Vec<char>) -> (r: Option<BinOp>)
    ensures
        r == op_of(t@),
{
    if is_chars1(t, '+') {
        Some(BinOp::Add)
    } else if is_chars1(t, '-') {
        Some(BinOp::Sub)
    } else if is_chars1(t, '*') {
        Some(BinOp::Mul)
    } else if is_chars1(t, '/') {
        Some(BinOp::Div)
    } else if is_chars1(t, '>') {
        Some(BinOp::Gt)
    } else if is_chars1(t, '<') {
        Some(BinOp::Lt)
    } else if is_chars2(t, '>', '=') {
        Some(BinOp::Ge)
    } else if is_chars2(t, '<', '=') {
        Some(BinOp::Le)
    } else if is_chars2(t, '=', '=') {
        Some(BinOp::Eq)
    } else if is_chars2(t, '!', '=') {
        Some(BinOp::Ne)
    } else {
        None
    }
}

pub struct Parser {
    tokens: Vec<Token>,
}

impl Parser {
    /// The token stream being parsed.
    pub closed spec fn ts(&self) -> Seq<SToken> {
        models(self.tokens@)
    }

    pub closed spec fn wf(&self) -> bool {
        &&& self.tokens.len() >= 1
        &&& self.tokens.len() + 4 < usize::MAX
        &&& models(self.tokens@).last() == SToken::EOF
    }

    /// A parser over all the tokens that `lexer` has left.
    pub fn new(lexer: Lexer) -> (r: Parser)
        requires
            lexer.wf(),
        ensures
            r.wf(),
            r.ts() == tokens_from(lexer.text(), lexer.pos()),
    {
        let ghost start = lexer;
        let mut lexer = lexer;
        proof {
            Lexer::lemma_wf_bounds(start);
            lemma_tokens_shape(start.text(), start.pos());
        }
        let tokens = lexer.tokenize();
        Parser { tokens }
    }

    /// Parses the whole token stream into a program.
    pub fn parse(&mut self) -> (r: Result<Vec<Stmt>, ParseError>)
        requires
            old(self).wf(),
        ensures
            final(self).wf(),
            final(self).ts() == old(self).ts(),
            match parse_tokens(old(self).ts()) {
                Ok(m) => r is Ok && stmts_model(r->Ok_0@) == m,
                Err(e) => r is Err && r->Err_0 == e,
            },
    {
        match self.sequence(0, PARSE_DEPTH, false) {
            Ok((stmts, _)) => Ok(stmts),
            Err(e) => Err(e),
        }
    }

    fn tok_at(&self, p: usize) -> (r: &Token)
        requires
            self.wf(),
        ensures
            r.model() == tok(self.ts(), p as nat),
    {
        if p < self.tokens.len() {
            &self.tokens[p]
        } else {
            &self.tokens[self.tokens.len() - 1]
        }
    }

    fn sym_at(&self, p: usize, c: char) -> (r: bool)
        requires
            self.wf(),
        ensures
            r == is_sym(self.ts(), p as nat, c),
            r ==> p < self.tokens.len(),
    {
        match self.tok_at(p) {
            Token::Symbol(d) => *d == c && p < self.tokens.len(),
            _ => false,
        }
    }

    fn statement(&self, p: usize, f: u64) -> (r: Result<(Stmt, usize), ParseError>)
        requires
            self.wf(),
            p <= self.tokens.len(),
        ensures
            agrees(r, p_statement(self.ts(), p as nat, f as nat), stmt_m()),
            ok_pos(r, self.tokens.len() as nat),
        decreases f, 0nat,
    {
        if f == 0 {
            return Err(ParseError { kind: ParseErrorKind::TooDeep, at: p });
        }
        let not_end = p < self.tokens.len();
        match self.tok_at(p) {
            Token::Let | Token::Const => self.variable_decl(p, f - 1),
            Token::If => self.if_statement(p, f - 1),
            Token::Looping | Token::While => self.looping_statement(p, f - 1),
            Token::For => self.for_statement(p, f - 1),
            Token::Break => if self.sym_at(p + 1, ';') {
                Ok((Stmt::Break, p + 2))
            } else {
                Err(ParseError { kind: ParseErrorKind::ExpectedSymbol(';'), at: p + 1 })
            },
            Token::Continue => if self.sym_at(p + 1, ';') {
                Ok((Stmt::Continue, p + 2))
            } else {
                Err(ParseError { kind: ParseErrorKind::ExpectedSymbol(';'), at: p + 1 })
            },
            Token::Fn => self.function_statement(p, f - 1),
            Token::Return => self.return_statement(p, f - 1),
            Token::Symbol('{') => self.block(p, f - 1),
            _ => self.expression_statement(p, f - 1),
        }
    }

    fn variable_decl(&self, p: usize, f: u64) -> (r: Result<(Stmt, usize), ParseError>)
        requires
            self.wf(),
            p < self.tokens.len(),
        ensures
            agrees(r, p_var_decl(self.ts(), p as nat, f as nat), stmt_m()),
            ok_pos(r, self.tokens.len() as nat),
        decreases f, 1nat,
    {
        let is_const = matches!(self.tok_at(p), Token::Const);
        match self.tok_at(p + 1) {
            Token::Identifier(name) => {
                let is_assign = match self.tok_at(p + 2) {
                    Token::Operator(t) => is_chars1(t, '='),
                    _ => false,
                };
                if !is_assign {
                    return Err(ParseError { kind: ParseErrorKind::ExpectedAssign, at: p + 2 });
                }
                match self.expression(p + 3, f) {
                    Err(e) => Err(e),
                    Ok((value, q)) => if !self.sym_at(q, ';') {
                        Err(ParseError { kind: ParseErrorKind::ExpectedSymbol(';'), at: q })
                    } else {
                        Ok((Stmt::VarDecl { name: copy_text(name), value, is_const }, q + 1))
                    },
                }
            },
            _ => Err(ParseError { kind: ParseErrorKind::ExpectedIdentifier, at: p + 1 }),
        }
    }

    fn body(&self, p: usize, f: u64) -> (r: Result<(Vec<Stmt>, usize), ParseError>)
        requires
            self.wf(),
            p <= self.tokens.len(),
        ensures
            agrees(r, p_body(self.ts(), p as nat, f as nat), stmts_m()),
            ok_pos(r, self.tokens.len() as nat),
        decreases f, 1nat,
    {
        match self.statement(p, f) {
            Err(e) => Err(e),
            Ok((s, q)) => {
                let ghost m = s.model();
                match s {
                    Stmt::Block(b) => {
                        proof {
                            lemma_block_model(b);
                        }
                        Ok((b, q))
                    },
                    other => {
                        let v = vec![other];
                        assert(stmts_model(v@) =~= seq![m]);
                        Ok((v, q))
                    },
                }
            },
        }
    }

    fn condition(&self, p: usize, f: u64) -> (r: Result<(Expr, usize), ParseError>)
        requires
            self.wf(),
            p <= self.tokens.len(),
        ensures
            agrees(r, p_condition(self.ts(), p as nat, f as nat), expr_m()),
            ok_pos(r, self.tokens.len() as nat),
        decreases f, 1nat,
    {
        if !self.sym_at(p, '(') {
            return Err(ParseError { kind: ParseErrorKind::ExpectedSymbol('('), at: p });
        }
        match self.expression(p + 1, f) {
            Err(e) => Err(e),
            Ok((c, q)) => if !self.sym_at(q, ')') {
                Err(ParseError { kind: ParseErrorKind::ExpectedSymbol(')'), at: q })
            } else {
                Ok((c, q + 1))
            },
        }
    }

    fn if_statement(&self, p: usize, f: u64) -> (r: Result<(Stmt, usize), ParseError>)
        requires
            self.wf(),
            p < self.tokens.len(),
        ensures
            agrees(r, p_if(self.ts(), p as nat, f as nat), stmt_m()),
            ok_pos(r, self.tokens.len() as nat),
        decreases f, 2nat,
    {
        match self.condition(p + 1, f) {
            Err(e) => Err(e),
            Ok((condition, q)) => match self.body(q, f) {
                Err(e) => Err(e),
                Ok((then_branch, r)) => if matches!(self.tok_at(r), Token::Else) {
                    match self.body(r + 1, f) {
                        Err(e) => Err(e),
                        Ok((els, r2)) => {
                            proof {
                                lemma_if_model(condition, then_branch, Some(els));
                            }
                            Ok((Stmt::If { condition, then_branch, else_branch: Some(els) }, r2))
                        },
                    }
                } else {
                    proof {
                        lemma_if_model(condition, then_branch, None);
                    }
                    Ok((Stmt::If { condition, then_branch, else_branch: None }, r))
                },
            },
        }
    }

    fn looping_statement(&self, p: usize, f: u64) -> (r: Result<(Stmt, usize), ParseError>)
        requires
            self.wf(),
            p < self.tokens.len(),
        ensures
            agrees(r, p_looping(self.ts(), p as nat, f as nat), stmt_m()),
            ok_pos(r, self.tokens.len() as nat),
        decreases f, 2nat,
    {
        match self.condition(p + 1, f) {
            Err(e) => Err(e),
            Ok((condition, q)) => match self.body(q, f) {
                Err(e) => Err(e),
                Ok((body, r)) => {
                    proof {
                        lemma_looping_model(condition, body);
                    }
                    Ok((Stmt::Looping { condition, body }, r))
                },
            },
        }
    }

    fn for_statement(&self, p: usize, f: u64) -> (r: Result<(Stmt, usize), ParseError>)
        requires
            self.wf(),
            p < self.tokens.len(),
        ensures
            agrees(r, p_for(self.ts(), p as nat, f as nat), stmt_m()),
            ok_pos(r, self.tokens.len() as nat),
        decreases f, 2nat,
    {
        if !self.sym_at(p + 1, '(') {
            return Err(ParseError { kind: ParseErrorKind::ExpectedSymbol('('), at: p + 1 });
        }
        match self.variable_decl(p + 2, f) {
            Err(e) => Err(e),
            Ok((init, q1)) => match self.expression(q1, f) {
                Err(e) => Err(e),
                Ok((condition, q2)) => if !self.sym_at(q2, ';') {
                    Err(ParseError { kind: ParseErrorKind::ExpectedSymbol(';'), at: q2 })
                } else {
                    match self.expression(q2 + 1, f) {
                        Err(e) => Err(e),
                        Ok((update, q3)) => if !self.sym_at(q3, ')') {
                            Err(ParseError { kind: ParseErrorKind::ExpectedSymbol(')'), at: q3 })
                        } else {
                            match self.body(q3 + 1, f) {
                                Err(e) => Err(e),
                                Ok((body, r)) => {
                                    let init = Box::new(init);
                                    proof {
                                        lemma_for_model(init, condition, update, body);
                                    }
                                    Ok((Stmt::For { init, condition, update, body }, r))
                                },
                            }
                        },
                    }
                },
            },
        }
    }

    fn params(&self, p: usize) -> (r: Result<(Vec<Vec<char>>, usize), ParseError>)
        requires
            self.wf(),
            p <= self.tokens.len(),
        ensures
            agrees(r, p_params(self.ts(), p as nat), names_m()),
            ok_pos(r, self.tokens.len() as nat),
    {
        let mut acc: Vec<Vec<char>> = Vec::new();
        let mut q = p;
        loop
            invariant
                self.wf(),
                q <= self.tokens.len(),
                p_params(self.ts(), p as nat) == prepend(names_model(acc@), p_params(self.ts(), q as nat)),
            decreases self.tokens.len() - q,
        {
            if self.sym_at(q, ')') {
                return Ok((acc, q));
            }
            match self.tok_at(q) {
                Token::Identifier(s) => {
                    if !self.sym_at(q + 1, ',') && !self.sym_at(q + 1, ')') {
                        return Err(ParseError { kind: ParseErrorKind::ExpectedSymbol(','), at: q + 1 });
                    }
                    let ghost before = acc@;
                    acc.push(copy_text(s));
                    assert(names_model(acc@) =~= names_model(before) + seq![s@]);
                    let next = if self.sym_at(q + 1, ',') {
                        q + 2
                    } else {
                        q + 1
                    };
                    proof {
                        assert(q < self.tokens.len());
                        lemma_prepend_assoc(names_model(before), seq![s@], p_params(self.ts(), next as nat));
                    }
                    q = next;
                },
                _ => {
                    return Err(ParseError { kind: ParseErrorKind::ExpectedParameter, at: q });
                },
            }
        }
    }

    fn function_statement(&self, p: usize, f: u64) -> (r: Result<(Stmt, usize), ParseError>)
        requires
            self.wf(),
            p < self.tokens.len(),
        ensures
            agrees(r, p_function(self.ts(), p as nat, f as nat), stmt_m()),
            ok_pos(r, self.tokens.len() as nat),
        decreases f, 2nat,
    {
        match self.tok_at(p + 1) {
            Token::Identifier(name) => {
                if !self.sym_at(p + 2, '(') {
                    return Err(ParseError { kind: ParseErrorKind::ExpectedSymbol('('), at: p + 2 });
                }
                match self.params(p + 3) {
                    Err(e) => Err(e),
                    Ok((params, q)) => if !self.sym_at(q, ')') {
                        Err(ParseError { kind: ParseErrorKind::ExpectedSymbol(')'), at: q })
                    } else {
                        match self.body(q + 1, f) {
                            Err(e) => Err(e),
                            Ok((body, r)) => {
                                let name = copy_text(name);
                                proof {
                                    lemma_function_model(name, params, body);
                                }
                                Ok((Stmt::Function { name, params, body }, r))
                            },
                        }
                    },
                }
            },
            _ => Err(ParseError { kind: ParseErrorKind::ExpectedIdentifier, at: p + 1 }),
        }
    }

    fn return_statement(&self, p: usize, f: u64) -> (r: Result<(Stmt, usize), ParseError>)
        requires
            self.wf(),
            p < self.tokens.len(),
        ensures
            agrees(r, p_return(self.ts(), p as nat, f as nat), stmt_m()),
            ok_pos(r, self.tokens.len() as nat),
        decreases f, 2nat,
    {
        if self.sym_at(p + 1, ';') {
            return Ok((Stmt::Return(None), p + 2));
        }
        match self.expression(p + 1, f) {
            Err(e) => Err(e),
            Ok((e, q)) => if !self.sym_at(q, ';') {
                Err(ParseError { kind: ParseErrorKind::ExpectedSymbol(';'), at: q })
            } else {
                Ok((Stmt::Return(Some(e)), q + 1))
            },
        }
    }

    fn block(&self, p: usize, f: u64) -> (r: Result<(Stmt, usize), ParseError>)
        requires
            self.wf(),
            p < self.tokens.len(),
        ensures
            agrees(r, p_block(self.ts(), p as nat, f as nat), stmt_m()),
            ok_pos(r, self.tokens.len() as nat),
        decreases f, 2nat,
    {
        match self.sequence(p + 1, f, true) {
            Err(e) => Err(e),
            Ok((stmts, q)) => if !self.sym_at(q, '}') {
                Err(ParseError { kind: ParseErrorKind::ExpectedSymbol('}'), at: q })
            } else {
                proof {
                    lemma_block_model(stmts);
                }
                Ok((Stmt::Block(stmts), q + 1))
            },
        }
    }

    fn expression_statement(&self, p: usize, f: u64) -> (r: Result<(Stmt, usize), ParseError>)
        requires
            self.wf(),
            p <= self.tokens.len(),
        ensures
            agrees(r, p_expr_stmt(self.ts(), p as nat, f as nat), stmt_m()),
            ok_pos(r, self.tokens.len() as nat),
        decreases f, 2nat,
    {
        match self.expression(p, f) {
            Err(e) => Err(e),
            Ok((e, q)) => if self.sym_at(q, ';') {
                Ok((Stmt::Expression(e), q + 1))
            } else {
                Err(ParseError { kind: ParseErrorKind::ExpectedSymbol(';'), at: q })
            },
        }
    }

    fn sequence(&self, p: usize, f: u64, in_block: bool) -> (r: Result<(Vec<Stmt>, usize), ParseError>)
        requires
            self.wf(),
            p <= self.tokens.len(),
        ensures
            agrees(r, p_sequence(self.ts(), p as nat, f as nat, in_block), stmts_m()),
            ok_pos(r, self.tokens.len() as nat),
        decreases f, 1nat, self.tokens.len() - p,
    {
        let mut acc: Vec<Stmt> = Vec::new();
        let mut q = p;
        loop
            invariant
                self.wf(),
                p <= q <= self.tokens.len(),
                p_sequence(self.ts(), p as nat, f as nat, in_block) == prepend(
                    stmts_model(acc@),
                    p_sequence(self.ts(), q as nat, f as nat, in_block),
                ),
            decreases self.tokens.len() - q,
        {
            if matches!(self.tok_at(q), Token::EOF) || (in_block && self.sym_at(q, '}')) {
                return Ok((acc, q));
            }
            match self.statement(q, f) {
                Err(e) => {
                    return Err(e);
                },
                Ok((s, q2)) => {
                    if q2 <= q || q2 > self.tokens.len() {
                        return Err(ParseError { kind: ParseErrorKind::NoProgress, at: q });
                    }
                    let ghost before = acc@;
                    let ghost m = s.model();
                    acc.push(s);
                    proof {
                        assert(stmts_model(acc@) =~= stmts_model(before) + seq![m]);
                        lemma_prepend_assoc(
                            stmts_model(before),
                            seq![m],
                            p_sequence(self.ts(), q2 as nat, f as nat, in_block),
                        );
                    }
                    q = q2;
                },
            }
        }
    }

    fn expression(&self, p: usize, f: u64) -> (r: Result<(Expr, usize), ParseError>)
        requires
            self.wf(),
            p <= self.tokens.len(),
        ensures
            agrees(r, p_expression(self.ts(), p as nat, f as nat), expr_m()),
            ok_pos(r, self.tokens.len() as nat),
        decreases f, 0nat,
    {
        if f == 0 {
            return Err(ParseError { kind: ParseErrorKind::TooDeep, at: p });
        }
        match self.binary_expr(p, f - 1) {
            Err(e) => Err(e),
            Ok((e, q)) => {
                let is_assign = match self.tok_at(q) {
                    Token::Operator(t) => is_chars1(t, '='),
                    _ => false,
                };
                if is_assign {
                    match e {
                        Expr::Variable(name) => match self.expression(q + 1, f - 1) {
                            Err(e2) => Err(e2),
                            Ok((v, r)) => Ok((Expr::Assignment(name, Box::new(v)), r)),
                        },
                        _ => Err(ParseError { kind: ParseErrorKind::InvalidAssignmentTarget, at: q }),
                    }
                } else {
                    Ok((e, q))
                }
            },
        }
    }

    fn binary_expr(&self, p: usize, f: u64) -> (r: Result<(Expr, usize), ParseError>)
        requires
            self.wf(),
            p <= self.tokens.len(),
        ensures
            agrees(r, p_binary(self.ts(), p as nat, f as nat), expr_m()),
            ok_pos(r, self.tokens.len() as nat),
        decreases f, 2nat,
    {
        match self.postfix(p, f) {
            Err(e) => Err(e),
            Ok((left, q)) => self.binary_rest(q, f, left),
        }
    }

    fn binary_rest(&self, p: usize, f: u64, left: Expr) -> (r: Result<(Expr, usize), ParseError>)
        requires
            self.wf(),
            p <= self.tokens.len(),
        ensures
            agrees(r, p_binary_rest(self.ts(), p as nat, f as nat, left.model()), expr_m()),
            ok_pos(r, self.tokens.len() as nat),
        decreases f, 1nat, self.tokens.len() - p,
    {
        let mut acc = left;
        let mut q = p;
        loop
            invariant
                self.wf(),
                p <= q <= self.tokens.len(),
                p_binary_rest(self.ts(), p as nat, f as nat, left.model()) == p_binary_rest(
                    self.ts(),
                    q as nat,
                    f as nat,
                    acc.model(),
                ),
            decreases self.tokens.len() - q,
        {
            let op = match self.tok_at(q) {
                Token::Operator(t) => {
                    if is_chars1(t, '=') {
                        return Ok((acc, q));
                    }
                    match op_of_exec(t) {
                        None => {
                            return Err(ParseError { kind: ParseErrorKind::UnknownOperator, at: q });
                        },
                        Some(op) => op,
                    }
                },
                _ => {
                    return Ok((acc, q));
                },
            };
            assert(q < self.tokens.len());
            match self.postfix(q + 1, f) {
                Err(e) => {
                    return Err(e);
                },
                Ok((right, q2)) => {
                    if q2 <= q || q2 > self.tokens.len() {
                        return Err(ParseError { kind: ParseErrorKind::NoProgress, at: q });
                    }
                    acc = Expr::BinaryOp(Box::new(acc), op, Box::new(right));
                    q = q2;
                },
            }
        }
    }

    fn postfix(&self, p: usize, f: u64) -> (r: Result<(Expr, usize), ParseError>)
        requires
            self.wf(),
            p <= self.tokens.len(),
        ensures
            agrees(r, p_postfix(self.ts(), p as nat, f as nat), expr_m()),
            ok_pos(r, self.tokens.len() as nat),
        decreases f, 1nat, 0nat,
    {
        if f == 0 {
            return Err(ParseError { kind: ParseErrorKind::TooDeep, at: p });
        }
        match self.primary(p, f - 1) {
            Err(e) => Err(e),
            Ok((e, q)) => self.index_rest(q, f - 1, e),
        }
    }

    fn index_rest(&self, p: usize, f: u64, base: Expr) -> (r: Result<(Expr, usize), ParseError>)
        requires
            self.wf(),
            p <= self.tokens.len(),
        ensures
            agrees(r, p_index_rest(self.ts(), p as nat, f as nat, base.model()), expr_m()),
            ok_pos(r, self.tokens.len() as nat),
        decreases f, 1nat, self.tokens.len() - p,
    {
        let mut acc = base;
        let mut q = p;
        loop
            invariant
                self.wf(),
                p <= q <= self.tokens.len(),
                p_index_rest(self.ts(), p as nat, f as nat, base.model()) == p_index_rest(
                    self.ts(),
                    q as nat,
                    f as nat,
                    acc.model(),
                ),
            decreases self.tokens.len() - q,
        {
            if !self.sym_at(q, '[') {
                return Ok((acc, q));
            }
            match self.expression(q + 1, f) {
                Err(e) => {
                    return Err(e);
                },
                Ok((i, q2)) => {
                    if !self.sym_at(q2, ']') {
                        return Err(ParseError { kind: ParseErrorKind::ExpectedSymbol(']'), at: q2 });
                    }
                    if q2 + 1 <= q || q2 + 1 > self.tokens.len() {
                        return Err(ParseError { kind: ParseErrorKind::NoProgress, at: q });
                    }
                    acc = Expr::Index(Box::new(acc), Box::new(i));
                    q = q2 + 1;
                },
            }
        }
    }

    fn primary(&self, p: usize, f: u64) -> (r: Result<(Expr, usize), ParseError>)
        requires
            self.wf(),
            p <= self.tokens.len(),
        ensures
            agrees(r, p_primary(self.ts(), p as nat, f as nat), expr_m()),
            ok_pos(r, self.tokens.len() as nat),
        decreases f, 3nat,
    {
        let not_end = p < self.tokens.len();
        match self.tok_at(p) {
            Token::Number(n) => Ok((Expr::Literal(Literal::Number(*n)), p + 1)),
            Token::String(s) => Ok((Expr::Literal(Literal::String(copy_text(s))), p + 1)),
            Token::Boolean(b) => Ok((Expr::Literal(Literal::Boolean(*b)), p + 1)),
            Token::Identifier(_) => self.parse_call_or_variable(p, f),
            Token::Symbol('[') => match self.arguments(p + 1, f, ']') {
                Err(e) => Err(e),
                Ok((items, q)) => {
                    proof {
                        lemma_array_model(items);
                    }
                    Ok((Expr::Array(items), q))
                },
            },
            _ => Err(ParseError { kind: ParseErrorKind::UnexpectedToken, at: p }),
        }
    }

    fn dotted(&self, p: usize, name: Vec<char>) -> (r: Result<(Vec<char>, usize), ParseError>)
        requires
            self.wf(),
            p <= self.tokens.len(),
        ensures
            agrees(r, p_dotted(self.ts(), p as nat, name@), text_m()),
            ok_pos(r, self.tokens.len() as nat),
    {
        let mut acc = name;
        let mut q = p;
        loop
            invariant
                self.wf(),
                q <= self.tokens.len(),
                p_dotted(self.ts(), p as nat, name@) == p_dotted(self.ts(), q as nat, acc@),
            decreases self.tokens.len() - q,
        {
            if !self.sym_at(q, '.') {
                return Ok((acc, q));
            }
            match self.tok_at(q + 1) {
                Token::Identifier(part) => {
                    let ghost before = acc@;
                    acc.push('.');
                    crate::number::append_chars(&mut acc, part);
                    assert(acc@ =~= before + seq!['.'] + part@);
                    assert(q + 1 < self.tokens.len());
                    q = q + 2;
                },
                _ => {
                    return Err(ParseError { kind: ParseErrorKind::ExpectedIdentifier, at: q + 1 });
                },
            }
        }
    }

    fn parse_call_or_variable(&self, p: usize, f: u64) -> (r: Result<(Expr, usize), ParseError>)
        requires
            self.wf(),
            p <= self.tokens.len(),
        ensures
            agrees(r, p_call_or_variable(self.ts(), p as nat, f as nat), expr_m()),
            ok_pos(r, self.tokens.len() as nat),
        decreases f, 2nat,
    {
        let not_end = p < self.tokens.len();
        match self.tok_at(p) {
            Token::Identifier(first) => match self.dotted(p + 1, copy_text(first)) {
                Err(e) => Err(e),
                Ok((name, q)) => if self.sym_at(q, '(') {
                    match self.arguments(q + 1, f, ')') {
                        Err(e) => Err(e),
                        Ok((args, r)) => {
                            proof {
                                lemma_call_model(name, args);
                            }
                            Ok((Expr::Call(name, args), r))
                        },
                    }
                } else {
                    Ok((Expr::Variable(name), q))
                },
            },
            _ => Err(ParseError { kind: ParseErrorKind::ExpectedIdentifier, at: p }),
        }
    }

    fn arguments(&self, p: usize, f: u64, close: char) -> (r: Result<(Vec<Expr>, usize), ParseError>)
        requires
            self.wf(),
            p <= self.tokens.len(),
        ensures
            agrees(r, p_arguments(self.ts(), p as nat, f as nat, close), exprs_m()),
            ok_pos(r, self.tokens.len() as nat),
        decreases f, 1nat, self.tokens.len() - p,
    {
        let mut acc: Vec<Expr> = Vec::new();
        let mut q = p;
        loop
            invariant
                self.wf(),
                p <= q <= self.tokens.len(),
                p_arguments(self.ts(), p as nat, f as nat, close) == prepend(
                    exprs_model(acc@),
                    p_arguments(self.ts(), q as nat, f as nat, close),
                ),
            decreases self.tokens.len() - q,
        {
            if self.sym_at(q, close) {
                return Ok((acc, q + 1));
            }
            match self.expression(q, f) {
                Err(e) => {
                    return Err(e);
                },
                Ok((e, q1)) => {
                    if !self.sym_at(q1, ',') && !self.sym_at(q1, close) {
                        return Err(ParseError { kind: ParseErrorKind::ExpectedSymbol(','), at: q1 });
                    }
                    let q2 = if self.sym_at(q1, ',') {
                        q1 + 1
                    } else {
                        q1
                    };
                    if q2 <= q || q2 > self.tokens.len() {
                        return Err(ParseError { kind: ParseErrorKind::NoProgress, at: q });
                    }
                    let ghost before = acc@;
                    let ghost m = e.model();
                    acc.push(e);
                    proof {
                        assert(exprs_model(acc@) =~= exprs_model(before) + seq![m]);
                        lemma_prepend_assoc(
                            exprs_model(before),
                            seq![m],
                            p_arguments(self.ts(), q2 as nat, f as nat, close),
                        );
                    }
                    q = q2;
                },
            }
        }
    }
}

/// `xs` put in front of the sequence that `r` holds, if it holds one.
pub open spec fn prepend<M>(xs: Seq<M>, r: PRes<Seq<M>>) -> PRes<Seq<M>> {
    match r {
        Ok((rest, q)) => Ok((xs + rest, q)),
        Err(e) => Err(e),
    }
}

proof fn lemma_prepend_assoc<M>(a: Seq<M>, b: Seq<M>, r: PRes<Seq<M>>)
    ensures
        prepend(a, prepend(b, r)) == prepend(a + b, r),
{
    if let Ok((rest, q)) = r {
        assert(a + (b + rest) =~= (a + b) + rest);
    }
}

} // verus!
