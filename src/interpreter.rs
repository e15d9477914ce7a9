use vstd::prelude::*;

use crate::ast::{
    lemma_nodes_view_index, nodes_view, Assignment, Ast, BinaryOp, CompoundStatement, Node, Num,
    UnaryOp, Variable,
};
use crate::error::Error;
use crate::grammar::{p_parse, PState};
use crate::parser::Parser;
use crate::scope::Scope;
use crate::semantics::{eval, eval_seq, lemma_wf_seq, wf_ast, Outcome, Store};
use crate::token::Token;

verus! {

broadcast use vstd::std_specs::vec::group_vec_axioms, vstd::seq::group_seq_axioms;

/// The executable outcome `r`, with the accumulator `acc` and store `store`
/// afterwards, agrees with the evaluation outcome `e`, failures included.
pub open spec fn outcome_matches(r: Result<(), Error>, acc: i32, store: Store, e: Outcome) -> bool {
    match e {
        Ok((v, s)) => r is Ok && acc == v && store == s,
        Err((f, v, s)) => r is Err && r->Err_0@ == f && acc == v && store == s,
    }
}

/// The decimal digits of a natural number, most significant first, as ASCII bytes.
pub open spec fn digit_bytes(n: nat) -> Seq<u8>
    decreases n,
{
    if n < 10 {
        seq![(n + 48) as u8]
    } else {
        digit_bytes(n / 10).push((n % 10 + 48) as u8)
    }
}

/// An integer written in decimal as ASCII bytes, with a leading `-` when negative.
pub open spec fn decimal(v: int) -> Seq<u8> {
    if v < 0 {
        seq![45u8] + digit_bytes((-v) as nat)
    } else {
        digit_bytes(v as nat)
    }
}

/// The outcome of parsing the text from scanner position `pos` and
/// evaluating the tree from the given store and accumulator.
/// A parse error leaves the accumulator and the store untouched.
pub open spec fn run(text: Seq<char>, pos: int, store: Store, acc: i32) -> Outcome {
    match p_parse(text, pos) {
        Ok(a) => eval(a, store, acc),
        Err(f) => Err((f, acc, store)),
    }
}

/// Appends `v` in decimal to `out`.
fn write_decimal(out: &mut Vec<u8>, v: i32)
    ensures
        final(out)@ == old(out)@ + decimal(v as int),
{
    let mut m: u32 = if v < 0 {
        (-(v as i64)) as u32
    } else {
        v as u32
    };
    let ghost n0 = m as nat;
    let mut buf: Vec<u8> = Vec::new();
    if m == 0 {
        buf.push(48u8);
        assert(buf@ =~= digit_bytes(0));
    } else {
        assert(digit_bytes(n0) =~= digit_bytes(m as nat) + buf@);
    }
    while m > 0
        invariant
            m > 0 ==> digit_bytes(n0) == digit_bytes(m as nat) + buf@,
            m == 0 ==> digit_bytes(n0) == buf@,
        decreases m,
    {
        let d = (m % 10) as u8 + 48u8;
        proof {
            let ghost old_buf = buf@;
            assert(old_buf.insert(0, d) =~= seq![d] + old_buf);
            if m >= 10 {
                assert(digit_bytes(m as nat) == digit_bytes((m / 10) as nat).push(d));
                assert(digit_bytes((m / 10) as nat).push(d) + old_buf =~= digit_bytes(
                    (m / 10) as nat,
                ) + (seq![d] + old_buf));
            } else {
                assert(digit_bytes(m as nat) == seq![d]);
            }
        }
        buf.insert(0, d);
        m = m / 10;
    }
    if v < 0 {
        out.push(45u8);
    }
    let ghost before = out@;
    out.append(&mut buf);
    proof {
        if v < 0 {
            assert(out@ =~= old(out)@ + decimal(v as int));
        } else {
            assert(out@ =~= old(out)@ + decimal(v as int));
        }
    }
}

/// The tree-walking evaluator: an accumulator holding the value of the
/// expression visited last, and the global variable store.
pub struct Interpreter {
    /// The parser of the program to run.
    pub parser: Parser,
    /// The accumulator: the value of the expression evaluated last.
    pub object: i32,
    /// The global variable store.
    pub global_scope: Scope,
}

impl Interpreter {
    /// The accumulator.
    pub open spec fn acc(&self) -> i32 {
        self.object
    }

    /// The global variable store.
    pub open spec fn store(&self) -> Store {
        self.global_scope@
    }

    /// The source text of the program to run.
    pub open spec fn source(&self) -> Seq<char> {
        self.parser.text()
    }

    /// Where the parser of the program stands.
    pub open spec fn parser_state(&self) -> PState {
        self.parser.state()
    }

    /// An evaluator for what `parser` reads, with accumulator 0 and an empty store.
    pub fn new(parser: Parser) -> (r: Interpreter)
        ensures
            r.acc() == 0,
            r.store() == Map::<Seq<char>, i32>::empty(),
            r.source() == parser.text(),
            r.parser_state() == parser.state(),
    {
        Interpreter { parser, object: 0, global_scope: Scope::new() }
    }

    /// The accumulator: the value of the expression evaluated last.
    pub fn result(&self) -> (r: i32)
        ensures
            r == self.acc(),
    {
        self.object
    }

    /// Evaluates a node, dispatching on its kind.
    pub fn visit(&mut self, node: &Node) -> (r: Result<(), Error>)
        requires
            wf_ast(node@),
        ensures
            final(self).source() == old(self).source(),
            final(self).parser_state() == old(self).parser_state(),
            outcome_matches(
                r,
                final(self).acc(),
                final(self).store(),
                eval(node@, old(self).store(), old(self).acc()),
            ),
        decreases node,
    {
        match node {
            Node::UnaryOp(unary_op) => self.visit_unary_op(unary_op),
            Node::BinaryOp(binary_op) => self.visit_binary_op(binary_op),
            Node::Num(num) => {
                self.visit_num(num);
                Ok(())
            },
            Node::Assignment(assignment) => self.visit_assignment(assignment),
            Node::Variable(variable) => self.visit_variable(variable),
            Node::CompoundStatement(compound_statement) => self.visit_compound_statement(
                compound_statement,
            ),
            Node::NoOp => Ok(()),
        }
    }

    /// `+e` leaves the value of `e`; `-e` negates it.
    pub fn visit_unary_op(&mut self, unary_op: &UnaryOp) -> (r: Result<(), Error>)
        requires
            wf_ast(Node::UnaryOp(*unary_op)@),
        ensures
            final(self).source() == old(self).source(),
            final(self).parser_state() == old(self).parser_state(),
            outcome_matches(
                r,
                final(self).acc(),
                final(self).store(),
                eval(Node::UnaryOp(*unary_op)@, old(self).store(), old(self).acc()),
            ),
        decreases unary_op,
    {
        match self.visit(&unary_op.expr) {
            Ok(()) => {},
            Err(e) => return Err(e),
        }
        match unary_op.op {
            Token::Minus => {
                if self.object == i32::MIN {
                    return Err(Error::Overflow);
                }
                self.object = -self.object;
            },
            _ => {},
        }
        Ok(())
    }

    /// Evaluates the left operand, then the right one, then applies the operator.
    pub fn visit_binary_op(&mut self, binary_op: &BinaryOp) -> (r: Result<(), Error>)
        requires
            wf_ast(Node::BinaryOp(*binary_op)@),
        ensures
            final(self).source() == old(self).source(),
            final(self).parser_state() == old(self).parser_state(),
            outcome_matches(
                r,
                final(self).acc(),
                final(self).store(),
                eval(Node::BinaryOp(*binary_op)@, old(self).store(), old(self).acc()),
            ),
        decreases binary_op,
    {
        match self.visit(&binary_op.left) {
            Ok(()) => {},
            Err(e) => return Err(e),
        }
        let lhs = self.object;
        match self.visit(&binary_op.right) {
            Ok(()) => {},
            Err(e) => return Err(e),
        }
        let rhs = self.object;
        let (l, r) = (lhs as i64, rhs as i64);
        let value: i64 = match binary_op.op {
            Token::Plus => l + r,
            Token::Minus => l - r,
            Token::Mul => {
                assert(-0x8000_0000_0000_0000 <= l * r <= 0x7fff_ffff_ffff_ffff) by (nonlinear_arith)
                    requires
                        -0x8000_0000 <= l <= 0x7fff_ffff,
                        -0x8000_0000 <= r <= 0x7fff_ffff,
                ;
                l * r
            },
            _ => {
                if r == 0 {
                    return Err(Error::DivisionByZero);
                }
                let la: i64 = if l < 0 {
                    -l
                } else {
                    l
                };
                let ra: i64 = if r < 0 {
                    -r
                } else {
                    r
                };
                let q = la / ra;
                if (l < 0) == (r < 0) {
                    q
                } else {
                    -q
                }
            },
        };
        if value < i32::MIN as i64 || value > i32::MAX as i64 {
            return Err(Error::Overflow);
        }
        self.object = value as i32;
        Ok(())
    }

    /// A literal sets the accumulator to its value.
    pub fn visit_num(&mut self, num: &Num)
        ensures
            final(self).source() == old(self).source(),
            final(self).parser_state() == old(self).parser_state(),
            final(self).acc() == num.value,
            final(self).store() == old(self).store(),
    {
        self.object = num.value;
    }

    /// Evaluates the right-hand side and stores it under the variable's name.
    pub fn visit_assignment(&mut self, assignment: &Assignment) -> (r: Result<(), Error>)
        requires
            wf_ast(Node::Assignment(*assignment)@),
        ensures
            final(self).source() == old(self).source(),
            final(self).parser_state() == old(self).parser_state(),
            outcome_matches(
                r,
                final(self).acc(),
                final(self).store(),
                eval(Node::Assignment(*assignment)@, old(self).store(), old(self).acc()),
            ),
        decreases assignment,
    {
        match self.visit(&assignment.right) {
            Ok(()) => {},
            Err(e) => return Err(e),
        }
        match &*assignment.left {
            Node::Variable(variable) => {
                let name = variable.id.clone();
                assert(name@ == variable.id@);
                assert(assignment.left@ == Ast::Variable(name@));
                self.global_scope.insert(name, self.object);
            },
            _ => {},
        }
        Ok(())
    }

    /// Reads a variable from the store; fails when it was never assigned.
    pub fn visit_variable(&mut self, variable: &Variable) -> (r: Result<(), Error>)
        ensures
            final(self).source() == old(self).source(),
            final(self).parser_state() == old(self).parser_state(),
            outcome_matches(
                r,
                final(self).acc(),
                final(self).store(),
                eval(Node::Variable(*variable)@, old(self).store(), old(self).acc()),
            ),
    {
        match self.global_scope.get(&variable.id) {
            Some(value) => {
                self.object = *value;
                Ok(())
            },
            None => Err(Error::UndefinedVariable { name: variable.id.clone() }),
        }
    }

    /// Evaluates the statements in order.
    pub fn visit_compound_statement(&mut self, compound_statement: &CompoundStatement) -> (r: Result<
        (),
        Error,
    >)
        requires
            wf_ast(Node::CompoundStatement(*compound_statement)@),
        ensures
            final(self).source() == old(self).source(),
            final(self).parser_state() == old(self).parser_state(),
            outcome_matches(
                r,
                final(self).acc(),
                final(self).store(),
                eval(
                    Node::CompoundStatement(*compound_statement)@,
                    old(self).store(),
                    old(self).acc(),
                ),
            ),
        decreases compound_statement,
    {
        let ghost stmts = nodes_view(compound_statement.statements@);
        proof {
            lemma_nodes_view_index(compound_statement.statements@);
            lemma_wf_seq(stmts);
        }
        let n = compound_statement.statements.len();
        let mut i: usize = 0;
        proof {
            assert(stmts.subrange(0, n as int) =~= stmts);
        }
        while i < n
            invariant
                n == compound_statement.statements@.len(),
                n == stmts.len(),
                i <= n,
                stmts == nodes_view(compound_statement.statements@),
                forall|j: int| 0 <= j < n ==> wf_ast(#[trigger] stmts[j]),
                forall|j: int|
                    0 <= j < n ==> #[trigger] stmts[j] == compound_statement.statements@[j]@,
                self.source() == old(self).source(),
                self.parser_state() == old(self).parser_state(),
                eval_seq(stmts, old(self).store(), old(self).acc()) == eval_seq(
                    stmts.subrange(i as int, n as int),
                    self.store(),
                    self.acc(),
                ),
            decreases n - i,
        {
            proof {
                let rest = stmts.subrange(i as int, n as int);
                assert(rest[0] == stmts[i as int]);
                assert(rest.subrange(1, rest.len() as int) =~= stmts.subrange(
                    i + 1,
                    n as int,
                ));
            }
            match self.visit(&compound_statement.statements[i]) {
                Ok(()) => {},
                Err(e) => return Err(e),
            }
            i = i + 1;
        }
        proof {
            assert(stmts =~= stmts.subrange(0, n as int));
        }
        Ok(())
    }

    /// Parses the program and evaluates it; on success writes the final
    /// accumulator in decimal and a newline to `writer`.
    pub fn interpreter_writer(&mut self, writer: &mut Vec<u8>) -> (r: Result<(), Error>)
        ensures
            final(self).source() == old(self).source(),
            match run(old(self).source(), old(self).parser_state().1, old(self).store(), old(self).acc()) {
                Ok((v, s)) => {
                    &&& r is Ok
                    &&& final(self).acc() == v
                    &&& final(self).store() == s
                    &&& final(writer)@ == old(writer)@ + decimal(v as int) + seq![10u8]
                },
                Err((f, v, s)) => {
                    &&& r is Err
                    &&& r->Err_0@ == f
                    &&& final(self).acc() == v
                    &&& final(self).store() == s
                    &&& final(writer)@ == old(writer)@
                },
            },
    {
        let tree = match self.parser.parse() {
            Ok(tree) => tree,
            Err(e) => return Err(e),
        };
        match self.visit(&tree) {
            Ok(()) => {},
            Err(e) => return Err(e),
        }
        write_decimal(writer, self.object);
        writer.push(10u8);
        Ok(())
    }
}

} // verus!
