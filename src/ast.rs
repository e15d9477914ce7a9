use vstd::prelude::*;

use crate::token::{Tok, Token};

verus! {

broadcast use vstd::std_specs::vec::group_vec_axioms, vstd::seq::group_seq_axioms;

/// A node of the syntax tree. Every node owns its children.
#[derive(Debug, PartialEq)]
pub enum Node {
    UnaryOp(UnaryOp),
    BinaryOp(BinaryOp),
    Num(Num),
    Assignment(Assignment),
    Variable(Variable),
    CompoundStatement(CompoundStatement),
    NoOp,
}

/// An ordered sequence of statements.
#[derive(Debug, PartialEq)]
pub struct CompoundStatement {
    pub statements: Vec<Node>,
}

/// A reference to a variable by name.
#[derive(Debug, PartialEq)]
pub struct Variable {
    pub id: String,
}

/// `left := right`; the grammar only ever puts a `Variable` on the left.
#[derive(Debug, PartialEq)]
pub struct Assignment {
    pub left: Box<Node>,
    pub right: Box<Node>,
    pub op: Token,
}

/// A sign applied to one expression.
#[derive(Debug, PartialEq)]
pub struct UnaryOp {
    pub expr: Box<Node>,
    pub op: Token,
}

/// An arithmetic operator applied to two expressions.
#[derive(Debug, PartialEq)]
pub struct BinaryOp {
    pub left: Box<Node>,
    pub right: Box<Node>,
    pub op: Token,
}

/// An integer literal.
#[derive(Debug, PartialEq)]
pub struct Num {
    pub value: i32,
}

/// The mathematical model of a syntax tree.
pub enum Ast {
    UnaryOp { op: Tok, expr: Box<Ast> },
    BinaryOp { op: Tok, left: Box<Ast>, right: Box<Ast> },
    Num(i32),
    Assignment { op: Tok, left: Box<Ast>, right: Box<Ast> },
    Variable(Seq<char>),
    CompoundStatement(Seq<Ast>),
    NoOp,
}

impl View for Node {
    type V = Ast;

    open spec fn view(&self) -> Ast {
        node_view(self)
    }
}

/// The model of one node.
pub open spec fn node_view(n: &Node) -> Ast
    decreases n,
{
    match n {
        Node::UnaryOp(u) => Ast::UnaryOp { op: u.op@, expr: Box::new(node_view(&u.expr)) },
        Node::BinaryOp(b) => Ast::BinaryOp {
            op: b.op@,
            left: Box::new(node_view(&b.left)),
            right: Box::new(node_view(&b.right)),
        },
        Node::Num(x) => Ast::Num(x.value),
        Node::Assignment(a) => Ast::Assignment {
            op: a.op@,
            left: Box::new(node_view(&a.left)),
            right: Box::new(node_view(&a.right)),
        },
        Node::Variable(v) => Ast::Variable(v.id@),
        Node::CompoundStatement(c) => Ast::CompoundStatement(nodes_view(c.statements@)),
        Node::NoOp => Ast::NoOp,
    }
}

/// The models of a sequence of nodes, in order.
pub open spec fn nodes_view(s: Seq<Node>) -> Seq<Ast>
    decreases s,
{
    if s.len() == 0 {
        Seq::empty()
    } else {
        nodes_view(s.drop_last()).push(node_view(&s.last()))
    }
}

/// The models of a sequence of nodes, read position by position.
pub proof fn lemma_nodes_view_index(s: Seq<Node>)
    ensures
        nodes_view(s).len() == s.len(),
        forall|i: int| 0 <= i < s.len() ==> #[trigger] nodes_view(s)[i] == s[i]@,
    decreases s.len(),
{
    if s.len() > 0 {
        lemma_nodes_view_index(s.drop_last());
        assert forall|i: int| 0 <= i < s.len() implies #[trigger] nodes_view(s)[i] == s[i]@ by {
            if i < s.len() - 1 {
                assert(s[i] == s.drop_last()[i]);
            }
        }
    }
}

impl CompoundStatement {
    /// An empty statement sequence.
    pub fn new() -> (r: CompoundStatement)
        ensures
            r.statements@.len() == 0,
    {
        CompoundStatement { statements: Vec::new() }
    }
}

impl Variable {
    /// A variable named by an identifier token.
    pub fn new(token: Token) -> (r: Variable)
        requires
            token is Id,
        ensures
            token@ == Tok::Id(r.id@),
    {
        match token {
            Token::Id(id) => Variable { id },
            _ => Variable { id: String::new() },
        }
    }
}

impl Assignment {
    pub fn new(op: Token, left: Node, right: Node) -> (r: Assignment)
        ensures
            r.op == op,
            *r.left == left,
            *r.right == right,
    {
        Assignment { left: Box::new(left), right: Box::new(right), op }
    }
}

impl UnaryOp {
    pub fn new(op: Token, expr: Node) -> (r: UnaryOp)
        ensures
            r.op == op,
            *r.expr == expr,
    {
        UnaryOp { expr: Box::new(expr), op }
    }
}

impl BinaryOp {
    pub fn new(left: Node, right: Node, op: Token) -> (r: BinaryOp)
        ensures
            r.op == op,
            *r.left == left,
            *r.right == right,
    {
        BinaryOp { left: Box::new(left), right: Box::new(right), op }
    }
}

impl Num {
    /// A literal holding the value of an integer token.
    pub fn new(token: Token) -> (r: Num)
        requires
            token is Integer,
        ensures
            token@ == Tok::Integer(r.value),
    {
        match token {
            Token::Integer(value) => Num { value },
            _ => Num { value: 0 },
        }
    }
}

} // verus!
