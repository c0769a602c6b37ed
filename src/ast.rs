//! Syntax tree of a program, and its model over sequences.
use vstd::prelude::*;
use crate::number::Number;

verus! {

#[derive(Debug, Clone, PartialEq)]
pub enum Literal {
    Number(Number),
    String(Vec<char>),
    Boolean(bool),
    Null,
}

/// Binary operators, resolved from their text while parsing.
#[derive(Debug, Clone, Copy, PartialEq, Eq, Structural)]
pub enum BinOp {
    Add,
    Sub,
    Mul,
    Div,
    Gt,
    Lt,
    Ge,
    Le,
    Eq,
    Ne,
}

#[derive(Debug)]
pub enum Expr {
    Literal(Literal),
    Variable(Vec<char>),
    BinaryOp(Box<Expr>, BinOp, Box<Expr>),
    Call(Vec<char>, Vec<Expr>),
    Assignment(Vec<char>, Box<Expr>),
    Array(Vec<Expr>),
    Index(Box<Expr>, Box<Expr>),
}

#[derive(Debug)]
pub enum Stmt {
    VarDecl { name: Vec<char>, value: Expr, is_const: bool },
    Assignment(Vec<char>, Box<Expr>),
    Expression(Expr),
    If { condition: Expr, then_branch: Vec<Stmt>, else_branch: Option<Vec<Stmt>> },
    Looping { condition: Expr, body: Vec<Stmt> },
    For { init: Box<Stmt>, condition: Expr, update: Expr, body: Vec<Stmt> },
    Break,
    Continue,
    Function { name: Vec<char>, params: Vec<Vec<char>>, body: Vec<Stmt> },
    Return(Option<Expr>),
    Block(Vec<Stmt>),
}

pub enum SLiteral {
    Number(Number),
    String(Seq<char>),
    Boolean(bool),
    Null,
}

pub enum SExpr {
    Literal(SLiteral),
    Variable(Seq<char>),
    BinaryOp(Box<SExpr>, BinOp, Box<SExpr>),
    Call(Seq<char>, Seq<SExpr>),
    Assignment(Seq<char>, Box<SExpr>),
    Array(Seq<SExpr>),
    Index(Box<SExpr>, Box<SExpr>),
}

pub enum SStmt {
    VarDecl { name: Seq<char>, value: SExpr, is_const: bool },
    Assignment(Seq<char>, Box<SExpr>),
    Expression(SExpr),
    If { condition: SExpr, then_branch: Seq<SStmt>, else_branch: Option<Seq<SStmt>> },
    Looping { condition: SExpr, body: Seq<SStmt> },
    For { init: Box<SStmt>, condition: SExpr, update: SExpr, body: Seq<SStmt> },
    Break,
    Continue,
    Function { name: Seq<char>, params: Seq<Seq<char>>, body: Seq<SStmt> },
    Return(Option<SExpr>),
    Block(Seq<SStmt>),
}

impl Literal {
    pub open spec fn model(&self) -> SLiteral {
        match self {
            Literal::Number(n) => SLiteral::Number(*n),
            Literal::String(s) => SLiteral::String(s@),
            Literal::Boolean(b) => SLiteral::Boolean(*b),
            Literal::Null => SLiteral::Null,
        }
    }
}

pub open spec fn names_model(v: Seq<Vec<char>>) -> Seq<Seq<char>> {
    v.map_values(|n: Vec<char>| n@)
}

impl Expr {
    pub open spec fn model(&self) -> SExpr
        decreases self,
    {
        match self {
            Expr::Literal(l) => SExpr::Literal(l.model()),
            Expr::Variable(n) => SExpr::Variable(n@),
            Expr::BinaryOp(a, op, b) => SExpr::BinaryOp(Box::new(a.model()), *op, Box::new(b.model())),
            Expr::Call(n, args) => SExpr::Call(
                n@,
                Seq::new(
                    args.len() as nat,
                    |i: int|
                        if 0 <= i < args.len() {
                            args[i].model()
                        } else {
                            SExpr::Literal(SLiteral::Null)
                        },
                ),
            ),
            Expr::Assignment(n, e) => SExpr::Assignment(n@, Box::new(e.model())),
            Expr::Array(items) => SExpr::Array(
                Seq::new(
                    items.len() as nat,
                    |i: int|
                        if 0 <= i < items.len() {
                            items[i].model()
                        } else {
                            SExpr::Literal(SLiteral::Null)
                        },
                ),
            ),
            Expr::Index(a, i) => SExpr::Index(Box::new(a.model()), Box::new(i.model())),
        }
    }
}

impl Stmt {
    pub open spec fn model(&self) -> SStmt
        decreases self,
    {
        match self {
            Stmt::VarDecl { name, value, is_const } => SStmt::VarDecl {
                name: name@,
                value: value.model(),
                is_const: *is_const,
            },
            Stmt::Assignment(n, e) => SStmt::Assignment(n@, Box::new(e.model())),
            Stmt::Expression(e) => SStmt::Expression(e.model()),
            Stmt::If { condition, then_branch, else_branch } => SStmt::If {
                condition: condition.model(),
                then_branch: Seq::new(
                    then_branch.len() as nat,
                    |i: int|
                        if 0 <= i < then_branch.len() {
                            then_branch[i].model()
                        } else {
                            SStmt::Break
                        },
                ),
                else_branch: match else_branch {
                    Some(e) => Some(
                        Seq::new(
                            e.len() as nat,
                            |i: int|
                                if 0 <= i < e.len() {
                                    e[i].model()
                                } else {
                                    SStmt::Break
                                },
                        ),
                    ),
                    None => None,
                },
            },
            Stmt::Looping { condition, body } => SStmt::Looping {
                condition: condition.model(),
                body: Seq::new(
                    body.len() as nat,
                    |i: int|
                        if 0 <= i < body.len() {
                            body[i].model()
                        } else {
                            SStmt::Break
                        },
                ),
            },
            Stmt::For { init, condition, update, body } => SStmt::For {
                init: Box::new(init.model()),
                condition: condition.model(),
                update: update.model(),
                body: Seq::new(
                    body.len() as nat,
                    |i: int|
                        if 0 <= i < body.len() {
                            body[i].model()
                        } else {
                            SStmt::Break
                        },
                ),
            },
            Stmt::Break => SStmt::Break,
            Stmt::Continue => SStmt::Continue,
            Stmt::Function { name, params, body } => SStmt::Function {
                name: name@,
                params: names_model(params@),
                body: Seq::new(
                    body.len() as nat,
                    |i: int|
                        if 0 <= i < body.len() {
                            body[i].model()
                        } else {
                            SStmt::Break
                        },
                ),
            },
            Stmt::Return(e) => SStmt::Return(
                match e {
                    Some(x) => Some(x.model()),
                    None => None,
                },
            ),
            Stmt::Block(b) => SStmt::Block(
                Seq::new(
                    b.len() as nat,
                    |i: int|
                        if 0 <= i < b.len() {
                            b[i].model()
                        } else {
                            SStmt::Break
                        },
                ),
            ),
        }
    }
}

/// Models of a sequence of statements.
pub open spec fn stmts_model(v: Seq<Stmt>) -> Seq<SStmt> {
    v.map_values(|s: Stmt| s.model())
}

/// Models of a sequence of expressions.
pub open spec fn exprs_model(v: Seq<Expr>) -> Seq<SExpr> {
    v.map_values(|e: Expr| e.model())
}

pub proof fn lemma_block_model(b: Vec<Stmt>)
    ensures
        Stmt::Block(b).model() == SStmt::Block(stmts_model(b@)),
{
    assert(Stmt::Block(b).model()->Block_0 =~= stmts_model(b@));
}

pub proof fn lemma_looping_model(condition: Expr, body: Vec<Stmt>)
    ensures
        (Stmt::Looping { condition, body }).model() == (SStmt::Looping {
            condition: condition.model(),
            body: stmts_model(body@),
        }),
{
    assert((Stmt::Looping { condition, body }).model()->Looping_body =~= stmts_model(body@));
}

pub proof fn lemma_if_model(condition: Expr, then_branch: Vec<Stmt>, else_branch: Option<Vec<Stmt>>)
    ensures
        (Stmt::If { condition, then_branch, else_branch }).model() == (SStmt::If {
            condition: condition.model(),
            then_branch: stmts_model(then_branch@),
            else_branch: match else_branch {
                Some(e) => Some(stmts_model(e@)),
                None => None,
            },
        }),
{
    let m = (Stmt::If { condition, then_branch, else_branch }).model();
    assert(m->If_then_branch =~= stmts_model(then_branch@));
    if let Some(e) = else_branch {
        assert(m->If_else_branch->Some_0 =~= stmts_model(e@));
    }
}

pub proof fn lemma_for_model(init: Box<Stmt>, condition: Expr, update: Expr, body: Vec<Stmt>)
    ensures
        (Stmt::For { init, condition, update, body }).model() == (SStmt::For {
            init: Box::new(init.model()),
            condition: condition.model(),
            update: update.model(),
            body: stmts_model(body@),
        }),
{
    assert((Stmt::For { init, condition, update, body }).model()->For_body =~= stmts_model(body@));
}

pub proof fn lemma_function_model(name: Vec<char>, params: Vec<Vec<char>>, body: Vec<Stmt>)
    ensures
        (Stmt::Function { name, params, body }).model() == (SStmt::Function {
            name: name@,
            params: names_model(params@),
            body: stmts_model(body@),
        }),
{
    assert((Stmt::Function { name, params, body }).model()->Function_body =~= stmts_model(body@));
}

pub proof fn lemma_call_model(name: Vec<char>, args: Vec<Expr>)
    ensures
        Expr::Call(name, args).model() == SExpr::Call(name@, exprs_model(args@)),
{
    assert(Expr::Call(name, args).model()->Call_1 =~= exprs_model(args@));
}

pub proof fn lemma_array_model(items: Vec<Expr>)
    ensures
        Expr::Array(items).model() == SExpr::Array(exprs_model(items@)),
{
    assert(Expr::Array(items).model()->Array_0 =~= exprs_model(items@));
}

/// A copy of a list of names.
pub fn clone_names(v: &Vec<Vec<char>>) -> (r: Vec<Vec<char>>)
    ensures
        names_model(r@) == names_model(v@),
{
    let mut out: Vec<Vec<char>> = Vec::new();
    let mut i: usize = 0;
    while i < v.len()
        invariant
            i <= v.len(),
            names_model(out@) == names_model(v@.subrange(0, i as int)),
        decreases v.len() - i,
    {
        let ghost before = out@;
        out.push(crate::lexer::copy_text(&v[i]));
        assert(names_model(out@) =~= names_model(before).push(v@[i as int]@));
        assert(names_model(v@.subrange(0, i + 1)) =~= names_model(v@.subrange(0, i as int)).push(v@[i as int]@));
        i += 1;
    }
    assert(v@.subrange(0, i as int) =~= v@);
    out
}

fn clone_literal(l: &Literal) -> (r: Literal)
    ensures
        r.model() == l.model(),
{
    match l {
        Literal::Number(n) => Literal::Number(*n),
        Literal::String(s) => Literal::String(crate::lexer::copy_text(s)),
        Literal::Boolean(b) => Literal::Boolean(*b),
        Literal::Null => Literal::Null,
    }
}

/// A copy of an expression.
pub fn clone_expr(e: &Expr) -> (r: Expr)
    ensures
        r.model() == e.model(),
    decreases e,
{
    match e {
        Expr::Literal(l) => Expr::Literal(clone_literal(l)),
        Expr::Variable(n) => Expr::Variable(crate::lexer::copy_text(n)),
        Expr::BinaryOp(a, op, b) => Expr::BinaryOp(Box::new(clone_expr(a)), *op, Box::new(clone_expr(b))),
        Expr::Call(n, args) => {
            let out = clone_exprs(args);
            let n2 = crate::lexer::copy_text(n);
            proof {
                lemma_call_model(n2, out);
                lemma_call_model(*n, *args);
            }
            Expr::Call(n2, out)
        },
        Expr::Assignment(n, v) => Expr::Assignment(crate::lexer::copy_text(n), Box::new(clone_expr(v))),
        Expr::Array(items) => {
            let out = clone_exprs(items);
            proof {
                lemma_array_model(out);
                lemma_array_model(*items);
            }
            Expr::Array(out)
        },
        Expr::Index(a, i) => Expr::Index(Box::new(clone_expr(a)), Box::new(clone_expr(i))),
    }
}

/// A copy of a list of expressions.
pub fn clone_exprs(v: &Vec<Expr>) -> (r: Vec<Expr>)
    ensures
        exprs_model(r@) == exprs_model(v@),
    decreases v,
{
    let mut out: Vec<Expr> = Vec::new();
    let mut i: usize = 0;
    while i < v.len()
        invariant
            i <= v.len(),
            exprs_model(out@) == exprs_model(v@.subrange(0, i as int)),
        decreases v.len() - i,
    {
        proof {
            assert(decreases_to!(*v => v@[i as int]));
        }
        let c = clone_expr(&v[i]);
        let ghost before = out@;
        out.push(c);
        assert(exprs_model(out@) =~= exprs_model(before).push(v@[i as int].model()));
        assert(exprs_model(v@.subrange(0, i + 1)) =~= exprs_model(v@.subrange(0, i as int)).push(v@[i as int].model()));
        i += 1;
    }
    assert(v@.subrange(0, i as int) =~= v@);
    out
}

/// A copy of a statement.
pub fn clone_stmt(s: &Stmt) -> (r: Stmt)
    ensures
        r.model() == s.model(),
    decreases s,
{
    match s {
        Stmt::VarDecl { name, value, is_const } => Stmt::VarDecl {
            name: crate::lexer::copy_text(name),
            value: clone_expr(value),
            is_const: *is_const,
        },
        Stmt::Assignment(n, e) => Stmt::Assignment(crate::lexer::copy_text(n), Box::new(clone_expr(e))),
        Stmt::Expression(e) => Stmt::Expression(clone_expr(e)),
        Stmt::If { condition, then_branch, else_branch } => {
            let c = clone_expr(condition);
            let t = clone_stmts(then_branch);
            let e = match else_branch {
                Some(b) => Some(clone_stmts(b)),
                None => None,
            };
            proof {
                lemma_if_model(c, t, e);
                lemma_if_model(*condition, *then_branch, *else_branch);
            }
            Stmt::If { condition: c, then_branch: t, else_branch: e }
        },
        Stmt::Looping { condition, body } => {
            let c = clone_expr(condition);
            let b = clone_stmts(body);
            proof {
                lemma_looping_model(c, b);
                lemma_looping_model(*condition, *body);
            }
            Stmt::Looping { condition: c, body: b }
        },
        Stmt::For { init, condition, update, body } => {
            let i = Box::new(clone_stmt(init));
            let c = clone_expr(condition);
            let u = clone_expr(update);
            let b = clone_stmts(body);
            proof {
                lemma_for_model(i, c, u, b);
                lemma_for_model(*init, *condition, *update, *body);
            }
            Stmt::For { init: i, condition: c, update: u, body: b }
        },
        Stmt::Break => Stmt::Break,
        Stmt::Continue => Stmt::Continue,
        Stmt::Function { name, params, body } => {
            let n = crate::lexer::copy_text(name);
            let p = clone_names(params);
            let b = clone_stmts(body);
            proof {
                lemma_function_model(n, p, b);
                lemma_function_model(*name, *params, *body);
            }
            Stmt::Function { name: n, params: p, body: b }
        },
        Stmt::Return(e) => Stmt::Return(
            match e {
                Some(x) => Some(clone_expr(x)),
                None => None,
            },
        ),
        Stmt::Block(b) => {
            let c = clone_stmts(b);
            proof {
                lemma_block_model(c);
                lemma_block_model(*b);
            }
            Stmt::Block(c)
        },
    }
}

/// A copy of a list of statements.
pub fn clone_stmts(v: &Vec<Stmt>) -> (r: Vec<Stmt>)
    ensures
        stmts_model(r@) == stmts_model(v@),
    decreases v,
{
    let mut out: Vec<Stmt> = Vec::new();
    let mut i: usize = 0;
    while i < v.len()
        invariant
            i <= v.len(),
            stmts_model(out@) == stmts_model(v@.subrange(0, i as int)),
        decreases v.len() - i,
    {
        proof {
            assert(decreases_to!(*v => v@[i as int]));
        }
        let c = clone_stmt(&v[i]);
        let ghost before = out@;
        out.push(c);
        assert(stmts_model(out@) =~= stmts_model(before).push(v@[i as int].model()));
        assert(stmts_model(v@.subrange(0, i + 1)) =~= stmts_model(v@.subrange(0, i as int)).push(v@[i as int].model()));
        i += 1;
    }
    assert(v@.subrange(0, i as int) =~= v@);
    out
}

} // verus!
