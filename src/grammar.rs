use vstd::prelude::*;

use crate::ast::Ast;
use crate::error::Fault;
use crate::lexer::{digits_end, ident_end, scan, skip_ws};
use crate::token::Tok;

verus! {

// The grammar below is a set of spec functions over the parser state. The
// repetitions check that the part parsed before them consumed no input beyond
// what was left, and leave the outcome unspecified (`arbitrary()`) otherwise.
// That check always holds (the executable parser proves it at every step, and
// the result of every parse it makes is specified); it is what lets the
// definitions terminate.

/// Where the parser stands: the current token (`None` at the end of the
/// input) and the scanner position just after it.
pub type PState = (Option<Tok>, int);

/// The scanner position lies within the text.
pub open spec fn valid(text: Seq<char>, st: PState) -> bool {
    0 <= st.1 <= text.len()
}

/// What is left to parse: shrinks with every token consumed.
pub open spec fn measure(text: Seq<char>, st: PState) -> int {
    2 * (text.len() - st.1) + if st.0 is Some {
        1int
    } else {
        0int
    }
}

/// Reads the token after the scanner position.
pub open spec fn next_state(text: Seq<char>, pos: int) -> Result<PState, Fault> {
    match scan(text, pos) {
        Ok((t, p)) => Ok((t, p)),
        Err(e) => Err(Fault::Lex(e)),
    }
}

/// Consumes the current token if it is of the kind of `kind`.
pub open spec fn eat(text: Seq<char>, st: PState, kind: Tok) -> Result<PState, Fault> {
    if st.0 is Some && crate::token::same_kind(kind, st.0->0) {
        next_state(text, st.1)
    } else {
        Err(Fault::Syntax { expected: kind, found: st.0 })
    }
}

pub proof fn lemma_skip_ws(text: Seq<char>, pos: int)
    requires
        0 <= pos <= text.len(),
    ensures
        pos <= skip_ws(text, pos) <= text.len(),
    decreases text.len() - pos,
{
    if pos < text.len() {
        lemma_skip_ws(text, pos + 1);
    }
}

pub proof fn lemma_ident_end(text: Seq<char>, pos: int)
    requires
        0 <= pos <= text.len(),
    ensures
        pos <= ident_end(text, pos) <= text.len(),
    decreases text.len() - pos,
{
    if pos < text.len() {
        lemma_ident_end(text, pos + 1);
    }
}

pub proof fn lemma_digits_end(text: Seq<char>, pos: int)
    requires
        0 <= pos <= text.len(),
    ensures
        pos <= digits_end(text, pos) <= text.len(),
    decreases text.len() - pos,
{
    if pos < text.len() {
        lemma_digits_end(text, pos + 1);
    }
}

/// A scanner step stays within the text, and consumes input when it yields a token.
pub proof fn lemma_next_state(text: Seq<char>, pos: int)
    requires
        0 <= pos <= text.len(),
    ensures
        next_state(text, pos) matches Ok(s) ==> pos <= s.1 <= text.len() && (s.0 is Some ==> pos
            < s.1),
{
    lemma_skip_ws(text, pos);
    let p = skip_ws(text, pos);
    if p < text.len() {
        lemma_ident_end(text, p + 1);
        lemma_digits_end(text, p + 1);
    }
}

/// Consuming a token leaves a valid state with less left to parse.
pub proof fn lemma_eat(text: Seq<char>, st: PState, kind: Tok)
    requires
        valid(text, st),
    ensures
        eat(text, st, kind) matches Ok(s) ==> valid(text, s) && measure(text, s) < measure(
            text,
            st,
        ),
{
    lemma_next_state(text, st.1);
}

/// Wraps a parsed operand in a sign.
pub open spec fn unary(op: Tok, r: Result<(Ast, PState), Fault>) -> Result<(Ast, PState), Fault> {
    match r {
        Ok((n, s)) => Ok((Ast::UnaryOp { op, expr: Box::new(n) }, s)),
        Err(e) => Err(e),
    }
}

/// `factor := ('+' | '-') factor | INTEGER | '(' expr ')' | variable`
pub open spec fn p_factor(text: Seq<char>, st: PState) -> Result<(Ast, PState), Fault>
    decreases measure(text, st), 0int
    when valid(text, st)
{
    match st.0 {
        Some(Tok::Plus) => match eat(text, st, Tok::Plus) {
            Ok(s1) => {
                proof {
                    lemma_eat(text, st, Tok::Plus);
                }
                unary(Tok::Plus, p_factor(text, s1))
            },
            Err(e) => Err(e),
        },
        Some(Tok::Minus) => match eat(text, st, Tok::Minus) {
            Ok(s1) => {
                proof {
                    lemma_eat(text, st, Tok::Minus);
                }
                unary(Tok::Minus, p_factor(text, s1))
            },
            Err(e) => Err(e),
        },
        Some(Tok::Integer(v)) => match eat(text, st, Tok::Integer(0)) {
            Ok(s1) => Ok((Ast::Num(v), s1)),
            Err(e) => Err(e),
        },
        Some(Tok::Lparen) => match eat(text, st, Tok::Lparen) {
            Ok(s1) => {
                proof {
                    lemma_eat(text, st, Tok::Lparen);
                }
                match p_expr(text, s1) {
                    Ok((n, s2)) => match eat(text, s2, Tok::Rparen) {
                        Ok(s3) => Ok((n, s3)),
                        Err(e) => Err(e),
                    },
                    Err(e) => Err(e),
                }
            },
            Err(e) => Err(e),
        },
        Some(Tok::Id(name)) => p_variable(text, st),
        _ => Err(Fault::UnexpectedToken { found: st.0 }),
    }
}

/// `variable := IDENTIFIER`
pub open spec fn p_variable(text: Seq<char>, st: PState) -> Result<(Ast, PState), Fault> {
    match st.0 {
        Some(Tok::Id(name)) => match eat(text, st, Tok::Id(Seq::empty())) {
            Ok(s1) => Ok((Ast::Variable(name), s1)),
            Err(e) => Err(e),
        },
        _ => Err(Fault::Syntax { expected: Tok::Id(Seq::empty()), found: st.0 }),
    }
}

/// Is the token a multiplicative operator?
pub open spec fn is_mul_op(t: Option<Tok>) -> bool {
    t == Some(Tok::Mul) || t == Some(Tok::Div)
}

/// Is the token an additive operator?
pub open spec fn is_add_op(t: Option<Tok>) -> bool {
    t == Some(Tok::Plus) || t == Some(Tok::Minus)
}

/// The repetition `(('*' | '/') factor)*`, folded to the left onto `left`.
pub open spec fn p_term_rest(text: Seq<char>, left: Ast, st: PState) -> Result<(Ast, PState), Fault>
    decreases measure(text, st), 1int
    when valid(text, st)
{
    if is_mul_op(st.0) {
        let op = st.0->0;
        match eat(text, st, op) {
            Ok(s1) => {
                proof {
                    lemma_eat(text, st, op);
                }
                match p_factor(text, s1) {
                    Ok((right, s2)) => {
                        let node = Ast::BinaryOp { op, left: Box::new(left), right: Box::new(right) };
                        if valid(text, s2) && measure(text, s2) <= measure(text, s1) {
                            p_term_rest(text, node, s2)
                        } else {
                            arbitrary()
                        }
                    },
                    Err(e) => Err(e),
                }
            },
            Err(e) => Err(e),
        }
    } else {
        Ok((left, st))
    }
}

/// `term := factor (('*' | '/') factor)*`
pub open spec fn p_term(text: Seq<char>, st: PState) -> Result<(Ast, PState), Fault>
    decreases measure(text, st), 2int
    when valid(text, st)
{
    match p_factor(text, st) {
        Ok((n, s1)) => if valid(text, s1) && measure(text, s1) <= measure(text, st) {
            p_term_rest(text, n, s1)
        } else {
            arbitrary()
        },
        Err(e) => Err(e),
    }
}

/// The repetition `(('+' | '-') term)*`, folded to the left onto `left`.
pub open spec fn p_expr_rest(text: Seq<char>, left: Ast, st: PState) -> Result<(Ast, PState), Fault>
    decreases measure(text, st), 3int
    when valid(text, st)
{
    if is_add_op(st.0) {
        let op = st.0->0;
        match eat(text, st, op) {
            Ok(s1) => {
                proof {
                    lemma_eat(text, st, op);
                }
                match p_term(text, s1) {
                    Ok((right, s2)) => {
                        let node = Ast::BinaryOp { op, left: Box::new(left), right: Box::new(right) };
                        if valid(text, s2) && measure(text, s2) <= measure(text, s1) {
                            p_expr_rest(text, node, s2)
                        } else {
                            arbitrary()
                        }
                    },
                    Err(e) => Err(e),
                }
            },
            Err(e) => Err(e),
        }
    } else {
        Ok((left, st))
    }
}

/// `expr := term (('+' | '-') term)*`
pub open spec fn p_expr(text: Seq<char>, st: PState) -> Result<(Ast, PState), Fault>
    decreases measure(text, st), 4int
    when valid(text, st)
{
    match p_term(text, st) {
        Ok((n, s1)) => if valid(text, s1) && measure(text, s1) <= measure(text, st) {
            p_expr_rest(text, n, s1)
        } else {
            arbitrary()
        },
        Err(e) => Err(e),
    }
}


/// `assignment := variable ':=' expr`
pub open spec fn p_assignment(text: Seq<char>, st: PState) -> Result<(Ast, PState), Fault> {
    match p_variable(text, st) {
        Ok((target, s1)) => match eat(text, s1, Tok::Assign) {
            Ok(s2) => if valid(text, s2) {
                match p_expr(text, s2) {
                    Ok((value, s3)) => Ok(
                        (
                            Ast::Assignment {
                                op: Tok::Assign,
                                left: Box::new(target),
                                right: Box::new(value),
                            },
                            s3,
                        ),
                    ),
                    Err(e) => Err(e),
                }
            } else {
                arbitrary()
            },
            Err(e) => Err(e),
        },
        Err(e) => Err(e),
    }
}

/// The repetition `(';' statement)*`, appended to `nodes`.
pub open spec fn p_statement_rest(text: Seq<char>, nodes: Seq<Ast>, st: PState) -> Result<
    (Seq<Ast>, PState),
    Fault,
>
    decreases measure(text, st), 0int
    when valid(text, st)
{
    if st.0 == Some(Tok::Semicolon) {
        match eat(text, st, Tok::Semicolon) {
            Ok(s1) => {
                proof {
                    lemma_eat(text, st, Tok::Semicolon);
                }
                match p_statement(text, s1) {
                    Ok((n, s2)) => if valid(text, s2) && measure(text, s2) <= measure(text, s1) {
                        p_statement_rest(text, nodes.push(n), s2)
                    } else {
                        arbitrary()
                    },
                    Err(e) => Err(e),
                }
            },
            Err(e) => Err(e),
        }
    } else {
        Ok((nodes, st))
    }
}

/// `program := 'PROGRAM' statement_list 'END_PROGRAM'`, giving a compound statement.
pub open spec fn p_program(text: Seq<char>, st: PState) -> Result<(Ast, PState), Fault>
    decreases measure(text, st), 1int
    when valid(text, st)
{
    match eat(text, st, Tok::Program) {
        Ok(s1) => {
            proof {
                lemma_eat(text, st, Tok::Program);
            }
            match p_statement_list(text, s1) {
                Ok((nodes, s2)) => match eat(text, s2, Tok::EndProgram) {
                    Ok(s3) => Ok((Ast::CompoundStatement(nodes), s3)),
                    Err(e) => Err(e),
                },
                Err(e) => Err(e),
            }
        },
        Err(e) => Err(e),
    }
}

/// `statement := program | assignment | empty`
pub open spec fn p_statement(text: Seq<char>, st: PState) -> Result<(Ast, PState), Fault>
    decreases measure(text, st), 2int
    when valid(text, st)
{
    match st.0 {
        Some(Tok::Program) => p_program(text, st),
        Some(Tok::Id(_)) => p_assignment(text, st),
        _ => Ok((Ast::NoOp, st)),
    }
}

/// `statement_list := statement (';' statement)*`
pub open spec fn p_statement_list(text: Seq<char>, st: PState) -> Result<(Seq<Ast>, PState), Fault>
    decreases measure(text, st), 3int
    when valid(text, st)
{
    match p_statement(text, st) {
        Ok((n, s1)) => if valid(text, s1) && measure(text, s1) <= measure(text, st) {
            p_statement_rest(text, seq![n], s1)
        } else {
            arbitrary()
        },
        Err(e) => Err(e),
    }
}

/// The whole input from scanner position `pos`: a program block when it
/// starts with `PROGRAM`, else a bare expression; nothing may follow.
pub open spec fn p_parse(text: Seq<char>, pos: int) -> Result<Ast, Fault> {
    match next_state(text, pos) {
        Ok(s0) => {
            let r = if s0.0 == Some(Tok::Program) {
                p_program(text, s0)
            } else {
                p_expr(text, s0)
            };
            match r {
                Ok((n, s1)) => match s1.0 {
                    None => Ok(n),
                    Some(t) => Err(Fault::TrailingInput { found: t }),
                },
                Err(e) => Err(e),
            }
        },
        Err(e) => Err(e),
    }
}

/// The syntax tree of a complete source text.
pub open spec fn parse_text(text: Seq<char>) -> Result<Ast, Fault> {
    p_parse(text, 0)
}

} // verus!
