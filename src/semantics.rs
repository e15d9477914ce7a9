use vstd::prelude::*;

use crate::ast::Ast;
use crate::error::Fault;
use crate::token::Tok;

verus! {

broadcast use vstd::seq::group_seq_axioms;

/// The global variable store: variable names to values.
pub type Store = Map<Seq<char>, i32>;

/// A mathematical integer as a 32-bit value, or an overflow.
pub open spec fn fit(x: int) -> Result<i32, Fault> {
    if i32::MIN <= x <= i32::MAX {
        Ok(x as i32)
    } else {
        Err(Fault::Overflow)
    }
}

pub open spec fn magnitude(x: int) -> int {
    if x < 0 {
        -x
    } else {
        x
    }
}

/// Integer division truncating toward zero.
pub open spec fn trunc_div(a: int, b: int) -> int {
    let q = magnitude(a) / magnitude(b);
    if (a < 0) == (b < 0) {
        q
    } else {
        -q
    }
}

/// A sign applied to a value.
pub open spec fn apply_unary(op: Tok, v: i32) -> Result<i32, Fault> {
    match op {
        Tok::Minus => fit(-v),
        _ => Ok(v),
    }
}

/// An arithmetic operator applied to two values.
pub open spec fn apply_binary(op: Tok, l: i32, r: i32) -> Result<i32, Fault> {
    match op {
        Tok::Plus => fit(l + r),
        Tok::Minus => fit(l - r),
        Tok::Mul => fit(l * r),
        _ => if r == 0 {
            Err(Fault::DivisionByZero)
        } else {
            fit(trunc_div(l as int, r as int))
        },
    }
}

/// A tree that the grammar can produce: signs are `+` or `-`, operators are
/// arithmetic, and every assignment targets a variable.
pub open spec fn wf_ast(a: Ast) -> bool
    decreases a,
{
    match a {
        Ast::UnaryOp { op, expr } => (op == Tok::Plus || op == Tok::Minus) && wf_ast(*expr),
        Ast::BinaryOp { op, left, right } => (op == Tok::Plus || op == Tok::Minus || op == Tok::Mul
            || op == Tok::Div) && wf_ast(*left) && wf_ast(*right),
        Ast::Assignment { op, left, right } => (*left) is Variable && wf_ast(*right),
        Ast::CompoundStatement(stmts) => wf_seq(stmts),
        _ => true,
    }
}

/// Every tree in the sequence is well formed.
pub open spec fn wf_seq(s: Seq<Ast>) -> bool
    decreases s,
{
    if s.len() == 0 {
        true
    } else {
        wf_seq(s.drop_last()) && wf_ast(s.last())
    }
}

pub proof fn lemma_wf_seq(s: Seq<Ast>)
    requires
        wf_seq(s),
    ensures
        forall|i: int| 0 <= i < s.len() ==> wf_ast(#[trigger] s[i]),
    decreases s.len(),
{
    if s.len() > 0 {
        lemma_wf_seq(s.drop_last());
        assert forall|i: int| 0 <= i < s.len() implies wf_ast(#[trigger] s[i]) by {
            if i < s.len() - 1 {
                assert(s[i] == s.drop_last()[i]);
            }
        }
    }
}

pub proof fn lemma_wf_seq_push(s: Seq<Ast>, a: Ast)
    ensures
        wf_seq(s.push(a)) == (wf_seq(s) && wf_ast(a)),
{
    assert(s.push(a).drop_last() =~= s);
}

/// What evaluating a tree leads to: the accumulator and store afterwards, or
/// the error met together with the accumulator and store at that moment.
pub type Outcome = Result<(i32, Store), (Fault, i32, Store)>;

/// The store that an outcome leaves, whether it succeeded or failed.
pub open spec fn outcome_store(o: Outcome) -> Store {
    match o {
        Ok((_, s)) => s,
        Err((_, _, s)) => s,
    }
}

/// Evaluates a tree from the store `store` and the accumulator `acc`.
pub open spec fn eval(a: Ast, store: Store, acc: i32) -> Outcome
    decreases a,
{
    match a {
        Ast::Num(v) => Ok((v, store)),
        Ast::UnaryOp { op, expr } => match eval(*expr, store, acc) {
            Ok((v, s)) => match apply_unary(op, v) {
                Ok(x) => Ok((x, s)),
                Err(e) => Err((e, v, s)),
            },
            Err(e) => Err(e),
        },
        Ast::BinaryOp { op, left, right } => match eval(*left, store, acc) {
            Ok((l, s1)) => match eval(*right, s1, l) {
                Ok((r, s2)) => match apply_binary(op, l, r) {
                    Ok(x) => Ok((x, s2)),
                    Err(e) => Err((e, r, s2)),
                },
                Err(e) => Err(e),
            },
            Err(e) => Err(e),
        },
        Ast::Variable(name) => if store.contains_key(name) {
            Ok((store[name], store))
        } else {
            Err((Fault::UndefinedVariable { name }, acc, store))
        },
        Ast::Assignment { op, left, right } => match eval(*right, store, acc) {
            Ok((v, s)) => match *left {
                Ast::Variable(name) => Ok((v, s.insert(name, v))),
                _ => Ok((v, s)),
            },
            Err(e) => Err(e),
        },
        Ast::CompoundStatement(stmts) => eval_seq(stmts, store, acc),
        Ast::NoOp => Ok((acc, store)),
    }
}

/// Evaluates statements in order, each from the state the previous one left.
pub open spec fn eval_seq(stmts: Seq<Ast>, store: Store, acc: i32) -> Outcome
    decreases stmts,
{
    if stmts.len() == 0 {
        Ok((acc, store))
    } else {
        match eval(stmts[0], store, acc) {
            Ok((v, s)) => eval_seq(stmts.subrange(1, stmts.len() as int), s, v),
            Err(e) => Err(e),
        }
    }
}

} // verus!
