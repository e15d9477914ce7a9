use vstd::prelude::*;

use crate::ast::{Ast, Node};
use crate::error::{opt_tok, Error, Fault, LexError};
use crate::grammar::{
    measure, next_state, p_expr, p_expr_rest, p_factor, p_parse, p_term, p_term_rest, parse_text,
    valid,
};
use crate::interpreter::run;
use crate::lexer::{
    digits_end, digits_value, is_digit, scan, skip_ws, step_outcome, symbol_token,
};
use crate::parser::parse_outcome;
use crate::semantics::{apply_binary, eval, fit, outcome_store, trunc_div, Store};
use crate::token::{Tok, Token};

verus! {

/// The character of a decimal digit.
pub open spec fn digit_char(d: int) -> char {
    if d == 0 {
        '0'
    } else if d == 1 {
        '1'
    } else if d == 2 {
        '2'
    } else if d == 3 {
        '3'
    } else if d == 4 {
        '4'
    } else if d == 5 {
        '5'
    } else if d == 6 {
        '6'
    } else if d == 7 {
        '7'
    } else if d == 8 {
        '8'
    } else {
        '9'
    }
}

/// A natural number written in decimal, most significant digit first.
pub open spec fn digit_chars(n: nat) -> Seq<char>
    decreases n,
{
    if n < 10 {
        seq![digit_char(n as int)]
    } else {
        digit_chars(n / 10).push(digit_char((n % 10) as int))
    }
}

/// An integer as source text: a `-` sign before the digits of a negative one.
pub open spec fn int_text(v: int) -> Seq<char> {
    if v < 0 {
        seq!['-'] + digit_chars((-v) as nat)
    } else {
        digit_chars(v as nat)
    }
}

/// The character of an arithmetic operator.
pub open spec fn op_char(op: Tok) -> char {
    match op {
        Tok::Plus => '+',
        Tok::Minus => '-',
        Tok::Mul => '*',
        _ => '/',
    }
}

/// The source text `"a op b"`.
pub open spec fn binary_text(a: int, op: Tok, b: int) -> Seq<char> {
    int_text(a) + seq![' ', op_char(op), ' '] + int_text(b)
}

/// The native result of an arithmetic operator, `/` truncating toward zero.
pub open spec fn native(op: Tok, a: int, b: int) -> int {
    match op {
        Tok::Plus => a + b,
        Tok::Minus => a - b,
        Tok::Mul => a * b,
        _ => trunc_div(a, b),
    }
}

/// The tree that the parser gives for an integer written as `int_text(v)`.
pub open spec fn operand(v: int) -> Ast {
    if v < 0 {
        Ast::UnaryOp { op: Tok::Minus, expr: Box::new(Ast::Num((-v) as i32)) }
    } else {
        Ast::Num(v as i32)
    }
}

proof fn lemma_digit_char(d: int)
    requires
        0 <= d <= 9,
    ensures
        is_digit(digit_char(d)),
        digit_char(d) as int - '0' as int == d,
{
}

proof fn lemma_digit_chars(n: nat)
    ensures
        digit_chars(n).len() >= 1,
        forall|i: int| 0 <= i < digit_chars(n).len() ==> is_digit(#[trigger] digit_chars(n)[i]),
    decreases n,
{
    if n < 10 {
        lemma_digit_char(n as int);
    } else {
        lemma_digit_chars(n / 10);
        lemma_digit_char((n % 10) as int);
        assert forall|i: int| 0 <= i < digit_chars(n).len() implies is_digit(
            #[trigger] digit_chars(n)[i],
        ) by {
            if i < digit_chars(n).len() - 1 {
                assert(digit_chars(n)[i] == digit_chars(n / 10)[i]);
            }
        }
    }
}

proof fn lemma_digits_run(text: Seq<char>, i: int, e: int)
    requires
        0 <= i <= e <= text.len(),
        forall|j: int| i <= j < e ==> is_digit(#[trigger] text[j]),
        e == text.len() || !is_digit(text[e]),
    ensures
        digits_end(text, i) == e,
    decreases e - i,
{
    if i < e {
        lemma_digits_run(text, i + 1, e);
    }
}

proof fn lemma_digits_value(text: Seq<char>, s: int, n: nat)
    requires
        0 <= s,
        s + digit_chars(n).len() <= text.len(),
        text.subrange(s, s + digit_chars(n).len()) == digit_chars(n),
    ensures
        digits_value(text, s, s + digit_chars(n).len()) == n,
    decreases n,
{
    let k = digit_chars(n).len() as int;
    if n < 10 {
        lemma_digit_char(n as int);
        assert(text[s] == text.subrange(s, s + k)[0]);
        assert(digits_value(text, s, s) == 0);
    } else {
        let m = n / 10;
        lemma_digit_char((n % 10) as int);
        assert(digit_chars(m).len() == k - 1);
        assert(text.subrange(s, s + k - 1) =~= text.subrange(s, s + k).subrange(0, k - 1));
        assert(digit_chars(n).subrange(0, k - 1) =~= digit_chars(m));
        lemma_digits_value(text, s, m);
        assert(text[s + k - 1] == text.subrange(s, s + k)[k - 1]);
        assert(n == m * 10 + n % 10);
    }
}

/// Scanning a literal that stands at `s`, after whitespace from `p`, gives its value.
proof fn lemma_scan_number(text: Seq<char>, p: int, s: int, n: nat)
    requires
        0 <= p <= s,
        skip_ws(text, p) == s,
        s + digit_chars(n).len() <= text.len(),
        text.subrange(s, s + digit_chars(n).len()) == digit_chars(n),
        s + digit_chars(n).len() == text.len() || text[s + digit_chars(n).len()] == ' ',
        n <= i32::MAX,
    ensures
        next_state(text, p) == Ok::<(Option<Tok>, int), Fault>(
            (Some(Tok::Integer(n as i32)), s + digit_chars(n).len()),
        ),
{
    let k = digit_chars(n).len() as int;
    lemma_digit_chars(n);
    assert forall|j: int| s <= j < s + k implies is_digit(#[trigger] text[j]) by {
        assert(text[j] == text.subrange(s, s + k)[j - s]);
    }
    assert(is_digit(text[s]));
    lemma_digits_run(text, s, s + k);
    lemma_digits_value(text, s, n);
}

/// Parsing a factor that is the integer `int_text(v)`, standing at `s` after
/// whitespace from `p` and followed by a space or the end.
proof fn lemma_factor_operand(text: Seq<char>, p: int, s: int, v: int)
    requires
        0 <= p <= s,
        skip_ws(text, p) == s,
        i32::MIN < v <= i32::MAX,
        s + int_text(v).len() <= text.len(),
        text.subrange(s, s + int_text(v).len()) == int_text(v),
        s + int_text(v).len() == text.len() || text[s + int_text(v).len()] == ' ',
    ensures
        next_state(text, p) is Ok,
        valid(text, next_state(text, p)->Ok_0),
        next_state(text, p)->Ok_0.0 is Some,
        next_state(text, p)->Ok_0.1 <= s + int_text(v).len(),
        p_factor(text, next_state(text, p)->Ok_0) == match next_state(
            text,
            s + int_text(v).len(),
        ) {
            Ok(st) => Ok::<(Ast, (Option<Tok>, int)), Fault>((operand(v), st)),
            Err(f) => Err(f),
        },
{
    let e = s + int_text(v).len();
    if v >= 0 {
        lemma_scan_number(text, p, s, v as nat);
        let st = next_state(text, p)->Ok_0;
        assert(st == (Some(Tok::Integer(v as i32)), e));
        assert(crate::token::same_kind(Tok::Integer(0), Tok::Integer(v as i32)));
        assert(valid(text, st));
    } else {
        let n = (-v) as nat;
        let k = digit_chars(n).len() as int;
        lemma_digit_chars(n);
        assert(text[s] == text.subrange(s, e)[0]);
        assert(text[s] == '-');
        assert(symbol_token('-') == Some(Tok::Minus));
        assert(next_state(text, p) == Ok::<(Option<Tok>, int), Fault>((Some(Tok::Minus), s + 1)));
        assert(text.subrange(s + 1, s + 1 + k) =~= text.subrange(s, e).subrange(1, 1 + k));
        assert(int_text(v).subrange(1, 1 + k) =~= digit_chars(n));
        assert(text[s + 1] == text.subrange(s, e)[1]);
        assert(is_digit(digit_chars(n)[0]));
        assert(skip_ws(text, s + 1) == s + 1);
        lemma_scan_number(text, s + 1, s + 1, n);
        let st1 = next_state(text, p)->Ok_0;
        let st2 = next_state(text, s + 1)->Ok_0;
        assert(st2 == (Some(Tok::Integer(n as i32)), e));
        assert(valid(text, st1) && valid(text, st2));
        assert(crate::token::same_kind(Tok::Integer(0), Tok::Integer(n as i32)));
        assert(crate::token::same_kind(Tok::Minus, Tok::Minus));
        assert(p_factor(text, st2) == match next_state(text, e) {
            Ok(st) => Ok::<(Ast, (Option<Tok>, int)), Fault>((Ast::Num(n as i32), st)),
            Err(f) => Err(f),
        });
    }
}

/// The scanner reads the operator of `"a op b"`.
proof fn lemma_scan_operator(text: Seq<char>, l: int, op: Tok)
    requires
        0 <= l,
        l + 3 <= text.len(),
        text[l] == ' ',
        text[l + 1] == op_char(op),
        text[l + 2] == ' ',
        op == Tok::Plus || op == Tok::Minus || op == Tok::Mul || op == Tok::Div,
    ensures
        next_state(text, l) == Ok::<(Option<Tok>, int), Fault>((Some(op), l + 2)),
{
    assert(skip_ws(text, l + 1) == l + 1);
    assert(skip_ws(text, l) == l + 1);
}

/// The grammar steps of `"a op b"`, given how its two factors parse.
proof fn lemma_expr_binary(
    text: Seq<char>,
    op: Tok,
    left: Ast,
    right: Ast,
    s0: (Option<Tok>, int),
    s1: (Option<Tok>, int),
    s2: (Option<Tok>, int),
    s3: (Option<Tok>, int),
)
    requires
        op == Tok::Plus || op == Tok::Minus || op == Tok::Mul || op == Tok::Div,
        valid(text, s0),
        valid(text, s1),
        valid(text, s2),
        valid(text, s3),
        p_factor(text, s0) == Ok::<(Ast, (Option<Tok>, int)), Fault>((left, s1)),
        s1.0 == Some(op),
        measure(text, s1) <= measure(text, s0),
        next_state(text, s1.1) == Ok::<(Option<Tok>, int), Fault>(s2),
        measure(text, s2) < measure(text, s1),
        p_factor(text, s2) == Ok::<(Ast, (Option<Tok>, int)), Fault>((right, s3)),
        s3.0 is None,
        measure(text, s3) <= measure(text, s2),
    ensures
        p_expr(text, s0) == Ok::<(Ast, (Option<Tok>, int)), Fault>(
            (Ast::BinaryOp { op, left: Box::new(left), right: Box::new(right) }, s3),
        ),
{
    let node = Ast::BinaryOp { op, left: Box::new(left), right: Box::new(right) };
    assert(crate::token::same_kind(op, op));
    assert(p_term_rest(text, right, s3) == Ok::<(Ast, (Option<Tok>, int)), Fault>((right, s3)));
    assert(p_term_rest(text, node, s3) == Ok::<(Ast, (Option<Tok>, int)), Fault>((node, s3)));
    assert(p_expr_rest(text, node, s3) == Ok::<(Ast, (Option<Tok>, int)), Fault>((node, s3)));
    if op == Tok::Mul || op == Tok::Div {
        assert(p_term_rest(text, left, s1) == Ok::<(Ast, (Option<Tok>, int)), Fault>(
            (node, s3),
        ));
        assert(p_term(text, s0) == Ok::<(Ast, (Option<Tok>, int)), Fault>((node, s3)));
    } else {
        assert(p_term_rest(text, left, s1) == Ok::<(Ast, (Option<Tok>, int)), Fault>((left, s1)));
        assert(p_term(text, s0) == Ok::<(Ast, (Option<Tok>, int)), Fault>((left, s1)));
        assert(p_term(text, s2) == Ok::<(Ast, (Option<Tok>, int)), Fault>((right, s3)));
        assert(p_expr_rest(text, left, s1) == Ok::<(Ast, (Option<Tok>, int)), Fault>(
            (node, s3),
        ));
    }
}

/// Parsing `"a op b"` gives the operator applied to the two operands.
pub proof fn lemma_parse_binary(a: int, op: Tok, b: int)
    requires
        i32::MIN < a <= i32::MAX,
        i32::MIN < b <= i32::MAX,
        op == Tok::Plus || op == Tok::Minus || op == Tok::Mul || op == Tok::Div,
    ensures
        p_parse(binary_text(a, op, b), 0) == Ok::<Ast, Fault>(
            Ast::BinaryOp { op, left: Box::new(operand(a)), right: Box::new(operand(b)) },
        ),
{
    let ta = int_text(a);
    let tb = int_text(b);
    let text = binary_text(a, op, b);
    let l = ta.len() as int;
    let m = tb.len() as int;
    assert(text.len() == l + 3 + m);
    assert(text.subrange(0, l) =~= ta);
    assert(text.subrange(l + 3, l + 3 + m) =~= tb);
    assert(text[l] == ' ');
    assert(text[l + 1] == op_char(op));
    assert(text[l + 2] == ' ');
    // The first operand.
    assert(ta[0] == '-' || is_digit(ta[0])) by {
        if a >= 0 {
            lemma_digit_chars(a as nat);
        }
    }
    assert(text[0] == ta[0]);
    assert(skip_ws(text, 0) == 0);
    lemma_factor_operand(text, 0, 0, a);
    lemma_scan_operator(text, l, op);
    let s0 = next_state(text, 0)->Ok_0;
    let s1 = (Some(op), l + 2);
    assert(p_factor(text, s0) == Ok::<(Ast, (Option<Tok>, int)), Fault>((operand(a), s1)));
    // The second operand.
    assert(text[l + 3] == tb[0]);
    assert(tb[0] == '-' || is_digit(tb[0])) by {
        if b >= 0 {
            lemma_digit_chars(b as nat);
        }
    }
    assert(skip_ws(text, l + 3) == l + 3);
    assert(skip_ws(text, l + 2) == l + 3);
    lemma_factor_operand(text, l + 2, l + 3, b);
    let s2 = next_state(text, l + 2)->Ok_0;
    assert(skip_ws(text, l + 3 + m) == l + 3 + m);
    assert(next_state(text, l + 3 + m) == Ok::<(Option<Tok>, int), Fault>((None, l + 3 + m)));
    let s3: (Option<Tok>, int) = (None, l + 3 + m);
    assert(p_factor(text, s2) == Ok::<(Ast, (Option<Tok>, int)), Fault>((operand(b), s3)));
    assert(valid(text, s0) && valid(text, s1) && valid(text, s2) && valid(text, s3));
    lemma_expr_binary(text, op, operand(a), operand(b), s0, s1, s2, s3);
    assert(s0.0 != Some(Tok::Program));
}

proof fn lemma_eval_operand(v: int, store: Store, acc: i32)
    requires
        i32::MIN < v <= i32::MAX,
    ensures
        eval(operand(v), store, acc) == Ok::<(i32, Store), (Fault, i32, Store)>((v as i32, store)),
{
    if v < 0 {
        assert(eval(Ast::Num((-v) as i32), store, acc) == Ok::<(i32, Store), (Fault, i32, Store)>(
            ((-v) as i32, store),
        ));
    }
}

/// A tree made of literals, variables, signs and arithmetic operators only.
pub open spec fn is_expression(a: Ast) -> bool
    decreases a,
{
    match a {
        Ast::Num(_) => true,
        Ast::Variable(_) => true,
        Ast::UnaryOp { op, expr } => is_expression(*expr),
        Ast::BinaryOp { op, left, right } => is_expression(*left) && is_expression(*right),
        _ => false,
    }
}

/// Evaluating an expression, whether it succeeds or fails, leaves the store
/// as it was: only an assignment writes to it.
pub proof fn lemma_expression_keeps_store(a: Ast, store: Store, acc: i32)
    requires
        is_expression(a),
    ensures
        outcome_store(eval(a, store, acc)) == store,
    decreases a,
{
    match a {
        Ast::UnaryOp { op, expr } => {
            lemma_expression_keeps_store(*expr, store, acc);
        },
        Ast::BinaryOp { op, left, right } => {
            lemma_expression_keeps_store(*left, store, acc);
            match eval(*left, store, acc) {
                Ok((l, s1)) => {
                    lemma_expression_keeps_store(*right, s1, l);
                },
                Err(_) => {},
            }
        },
        _ => {},
    }
}

/// For integers `a` and `b` that can be written as literals (above `i32::MIN`),
/// running `"a op b"` yields the native result of the operator, division
/// truncating toward zero, or an overflow error when that result does not fit
/// in 32 bits (the accumulator then holding `b`). The store is left as it was.
pub proof fn lemma_binary_arithmetic(a: i32, op: Tok, b: i32, store: Store, acc: i32)
    requires
        a != i32::MIN,
        b != i32::MIN,
        op == Tok::Plus || op == Tok::Minus || op == Tok::Mul || op == Tok::Div,
        op == Tok::Div ==> b != 0,
    ensures
        run(binary_text(a as int, op, b as int), 0, store, acc) == if i32::MIN <= native(
            op,
            a as int,
            b as int,
        ) <= i32::MAX {
            Ok::<(i32, Store), (Fault, i32, Store)>((native(op, a as int, b as int) as i32, store))
        } else {
            Err((Fault::Overflow, b, store))
        },
{
    lemma_parse_binary(a as int, op, b as int);
    lemma_eval_operand(a as int, store, acc);
    lemma_eval_operand(b as int, store, a);
    assert(apply_binary(op, a, b) == fit(native(op, a as int, b as int)));
}

/// For every integer `a` that can be written as a literal (above `i32::MIN`),
/// running `"a / 0"` fails with a division by zero, leaving the store as it
/// was and the accumulator at the right operand, 0.
pub proof fn lemma_divide_by_zero(a: i32, store: Store, acc: i32)
    requires
        a != i32::MIN,
    ensures
        run(binary_text(a as int, Tok::Div, 0), 0, store, acc) == Err::<
            (i32, Store),
            (Fault, i32, Store),
        >((Fault::DivisionByZero, 0, store)),
{
    lemma_parse_binary(a as int, Tok::Div, 0);
    lemma_eval_operand(a as int, store, acc);
    lemma_eval_operand(0, store, a);
}

/// Parsing has no hidden state: any two results that `parse` may give for the
/// same source text, read from its start, are the same tree or the same error.
pub proof fn lemma_reparse_identical(text: Seq<char>, r1: Result<Node, Error>, r2: Result<Node, Error>)
    requires
        parse_outcome(r1, parse_text(text)),
        parse_outcome(r2, parse_text(text)),
    ensures
        r1 is Ok <==> r2 is Ok,
        r1 is Ok ==> r1->Ok_0@ == r2->Ok_0@,
        r1 is Err ==> r1->Err_0@ == r2->Err_0@,
{
}

/// Where a lexer made by `Lexer::new` on `text` stands after `k` calls of
/// `get_next_token`, whatever those calls returned.
pub open spec fn pos_after(text: Seq<char>, k: nat) -> int
    decreases k,
{
    if k == 0 {
        0
    } else {
        let p = pos_after(text, (k - 1) as nat);
        match scan(text, p) {
            Ok((_, q)) => q,
            Err(_) => p,
        }
    }
}

/// The scanner has no hidden state. A call made where a fresh lexer stands
/// after `k` calls leaves it where one stands after `k + 1` calls; and two
/// such calls, on two lexers over one text, give the same token or the same
/// error and stop at the same place.
pub proof fn lemma_lexers_agree(
    text: Seq<char>,
    k: nat,
    r1: Result<Option<Token>, LexError>,
    next1: int,
    r2: Result<Option<Token>, LexError>,
    next2: int,
)
    requires
        step_outcome(text, pos_after(text, k), r1, next1),
        step_outcome(text, pos_after(text, k), r2, next2),
    ensures
        next1 == pos_after(text, k + 1),
        next1 == next2,
        r1 is Ok <==> r2 is Ok,
        r1 is Ok ==> opt_tok(r1->Ok_0) == opt_tok(r2->Ok_0),
        r1 is Err ==> r1 == r2,
{
}

} // verus!
