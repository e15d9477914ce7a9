use vstd::prelude::*;

use crate::ast::{nodes_view, Assignment, Ast, BinaryOp, CompoundStatement, Node, Num, UnaryOp, Variable};
use crate::error::{opt_tok, Error, Fault};
use crate::grammar::{
    eat, is_add_op, is_mul_op, lemma_eat, lemma_next_state, measure, next_state, p_expr, p_expr_rest,
    p_factor, p_parse, p_program, p_statement, p_statement_list, p_statement_rest, p_term,
    p_term_rest, p_variable, p_assignment, valid, PState,
};
use crate::lexer::Lexer;
use crate::semantics::{lemma_wf_seq_push, wf_ast, wf_seq};
use crate::token::{Tok, Token};

verus! {

/// The executable result `r` and the state `after` agree with the grammar's outcome `s`.
pub open spec fn node_matches(r: Result<Node, Error>, s: Result<(Ast, PState), Fault>, after: PState) -> bool {
    match s {
        Ok((a, st)) => r is Ok && r->Ok_0@ == a && after == st,
        Err(f) => r is Err && r->Err_0@ == f,
    }
}

/// The executable result `r` of a whole parse agrees with the grammar's outcome `s`.
pub open spec fn parse_outcome(r: Result<Node, Error>, s: Result<Ast, Fault>) -> bool {
    match s {
        Ok(a) => r is Ok && r->Ok_0@ == a,
        Err(f) => r is Err && r->Err_0@ == f,
    }
}

/// The model of a sequence extended by one node is the extended sequence of models.
pub proof fn lemma_nodes_view_push(s: Seq<Node>, n: Node)
    ensures
        nodes_view(s.push(n)) == nodes_view(s).push(n@),
{
    assert(s.push(n).drop_last() =~= s);
}

/// The recursive-descent parser: reads tokens from its scanner one at a time.
pub struct Parser {
    lexer: Lexer,
    current_token: Option<Token>,
}

impl Parser {
    /// The source text being parsed.
    pub closed spec fn text(&self) -> Seq<char> {
        self.lexer.text()
    }

    /// The current token and the scanner position after it.
    pub closed spec fn state(&self) -> PState {
        (opt_tok(self.current_token), self.lexer.pos())
    }

    /// A parser over `lexer`; no token has been read yet.
    pub fn new(lexer: Lexer) -> (r: Parser)
        ensures
            r.text() == lexer.text(),
            r.state() == (None::<Tok>, lexer.pos()),
            0 <= r.state().1 <= r.text().len(),
    {
        proof {
            use_type_invariant(&lexer);
            lexer.lemma_pos_in_text();
        }
        Parser { lexer, current_token: None }
    }

    /// Reads the next token into the current one.
    fn advance(&mut self) -> (r: Result<(), Error>)
        ensures
            final(self).text() == old(self).text(),
            match next_state(old(self).text(), old(self).state().1) {
                Ok(s) => r is Ok && final(self).state() == s,
                Err(f) => r is Err && r->Err_0@ == f && final(self).state() == old(self).state(),
            },
    {
        match self.lexer.get_next_token() {
            Ok(t) => {
                self.current_token = t;
                Ok(())
            },
            Err(e) => Err(Error::Lex(e)),
        }
    }

    /// A copy of the current token.
    fn current(&self) -> (r: Option<Token>)
        ensures
            opt_tok(r) == self.state().0,
    {
        match &self.current_token {
            Some(t) => Some(t.duplicate()),
            None => None,
        }
    }

    /// Consumes the current token if it is of the kind of `token`; fails otherwise.
    fn eat(&mut self, token: Token) -> (r: Result<(), Error>)
        ensures
            final(self).text() == old(self).text(),
            match eat(old(self).text(), old(self).state(), token@) {
                Ok(s) => r is Ok && final(self).state() == s,
                Err(f) => r is Err && r->Err_0@ == f && final(self).state() == old(self).state(),
            },
    {
        let matched = match &self.current_token {
            Some(t) => Token::variant_eq(token.duplicate(), t),
            None => false,
        };
        if matched {
            self.advance()
        } else {
            Err(Error::Syntax { expected: token, found: self.current() })
        }
    }

    /// Parses the whole input: a program block when it starts with
    /// `PROGRAM`, else a bare expression. Nothing may follow it.
    pub fn parse(&mut self) -> (r: Result<Node, Error>)
        ensures
            final(self).text() == old(self).text(),
            r is Ok ==> wf_ast(r->Ok_0@),
            parse_outcome(r, p_parse(old(self).text(), old(self).state().1)),
    {
        let ghost text = self.text();
        proof {
            use_type_invariant(&self.lexer);
            self.lexer.lemma_pos_in_text();
            lemma_next_state(text, self.state().1);
        }
        match self.advance() {
            Ok(()) => {},
            Err(e) => return Err(e),
        }
        let is_program = match &self.current_token {
            Some(Token::Program) => true,
            _ => false,
        };
        let node = if is_program {
            self.program()
        } else {
            self.expr()
        };
        match node {
            Ok(n) => match self.current() {
                None => Ok(n),
                Some(t) => Err(Error::TrailingInput { found: t }),
            },
            Err(e) => Err(e),
        }
    }

    /// `factor := ('+' | '-') factor | INTEGER | '(' expr ')' | variable`
    fn factor(&mut self) -> (r: Result<Node, Error>)
        requires
            valid(old(self).text(), old(self).state()),
        ensures
            final(self).text() == old(self).text(),
            r is Ok ==> wf_ast(r->Ok_0@),
            node_matches(r, p_factor(old(self).text(), old(self).state()), final(self).state()),
            r is Ok ==> valid(final(self).text(), final(self).state()) && measure(
                final(self).text(),
                final(self).state(),
            ) <= measure(old(self).text(), old(self).state()),
        decreases measure(self.text(), self.state()), 0int,
    {
        let ghost text = self.text();
        let ghost st = self.state();
        let sign = match &self.current_token {
            Some(Token::Plus) => Some(Token::Plus),
            Some(Token::Minus) => Some(Token::Minus),
            _ => None,
        };
        if let Some(op) = sign {
            proof {
                lemma_eat(text, st, op@);
            }
            match self.eat(op.duplicate()) {
                Ok(()) => {},
                Err(e) => return Err(e),
            }
            return match self.factor() {
                Ok(n) => Ok(Node::UnaryOp(UnaryOp::new(op, n))),
                Err(e) => Err(e),
            };
        }
        let literal = match &self.current_token {
            Some(Token::Integer(v)) => Some(*v),
            _ => None,
        };
        if let Some(v) = literal {
            proof {
                lemma_eat(text, st, Tok::Integer(0));
            }
            return match self.eat(Token::Integer(0)) {
                Ok(()) => Ok(Node::Num(Num::new(Token::Integer(v)))),
                Err(e) => Err(e),
            };
        }
        let (is_lparen, is_id) = match &self.current_token {
            Some(Token::Lparen) => (true, false),
            Some(Token::Id(_)) => (false, true),
            _ => (false, false),
        };
        if is_lparen {
            proof {
                lemma_eat(text, st, Tok::Lparen);
            }
            match self.eat(Token::Lparen) {
                Ok(()) => {},
                Err(e) => return Err(e),
            }
            let node = match self.expr() {
                Ok(n) => n,
                Err(e) => return Err(e),
            };
            proof {
                lemma_eat(text, self.state(), Tok::Rparen);
            }
            match self.eat(Token::Rparen) {
                Ok(()) => Ok(node),
                Err(e) => Err(e),
            }
        } else if is_id {
            self.variable()
        } else {
            Err(Error::UnexpectedToken { found: self.current() })
        }
    }

    /// `variable := IDENTIFIER`
    fn variable(&mut self) -> (r: Result<Node, Error>)
        requires
            valid(old(self).text(), old(self).state()),
        ensures
            final(self).text() == old(self).text(),
            r is Ok ==> wf_ast(r->Ok_0@),
            node_matches(r, p_variable(old(self).text(), old(self).state()), final(self).state()),
            r is Ok ==> valid(final(self).text(), final(self).state()) && measure(
                final(self).text(),
                final(self).state(),
            ) < measure(old(self).text(), old(self).state()),
    {
        proof {
            lemma_eat(self.text(), self.state(), Tok::Id(Seq::empty()));
        }
        let name = match &self.current_token {
            Some(Token::Id(name)) => name.clone(),
            _ => {
                return Err(
                    Error::Syntax { expected: Token::Id(String::new()), found: self.current() },
                );
            },
        };
        match self.eat(Token::Id(String::new())) {
            Ok(()) => Ok(Node::Variable(Variable::new(Token::Id(name)))),
            Err(e) => Err(e),
        }
    }

    /// The current token, when it is `*` or `/`.
    fn at_mul_op(&self) -> (r: Option<Token>)
        ensures
            r is Some <==> is_mul_op(self.state().0),
            r is Some ==> Some(r->0@) == self.state().0,
    {
        match &self.current_token {
            Some(Token::Mul) => Some(Token::Mul),
            Some(Token::Div) => Some(Token::Div),
            _ => None,
        }
    }

    /// The current token, when it is `+` or `-`.
    fn at_add_op(&self) -> (r: Option<Token>)
        ensures
            r is Some <==> is_add_op(self.state().0),
            r is Some ==> Some(r->0@) == self.state().0,
    {
        match &self.current_token {
            Some(Token::Plus) => Some(Token::Plus),
            Some(Token::Minus) => Some(Token::Minus),
            _ => None,
        }
    }

    /// `term := factor (('*' | '/') factor)*`, associating to the left.
    fn term(&mut self) -> (r: Result<Node, Error>)
        requires
            valid(old(self).text(), old(self).state()),
        ensures
            final(self).text() == old(self).text(),
            r is Ok ==> wf_ast(r->Ok_0@),
            node_matches(r, p_term(old(self).text(), old(self).state()), final(self).state()),
            r is Ok ==> valid(final(self).text(), final(self).state()) && measure(
                final(self).text(),
                final(self).state(),
            ) <= measure(old(self).text(), old(self).state()),
        decreases measure(self.text(), self.state()), 2int,
    {
        let ghost text = self.text();
        let ghost st0 = self.state();
        let mut node = match self.factor() {
            Ok(n) => n,
            Err(e) => return Err(e),
        };
        loop
            invariant
                self.text() == text,
                text == old(self).text(),
                st0 == old(self).state(),
                valid(text, st0),
                valid(text, self.state()),
                measure(text, self.state()) <= measure(text, st0),
                wf_ast(node@),
                p_term(text, st0) == p_term_rest(text, node@, self.state()),
            decreases measure(text, self.state()),
        {
            let op = match self.at_mul_op() {
                Some(op) => op,
                None => return Ok(node),
            };
            let ghost s = self.state();
            proof {
                lemma_eat(text, s, op@);
            }
            match self.eat(op.duplicate()) {
                Ok(()) => {},
                Err(e) => return Err(e),
            }
            let right = match self.factor() {
                Ok(n) => n,
                Err(e) => return Err(e),
            };
            node = Node::BinaryOp(BinaryOp::new(node, right, op));
        }
    }

    /// `expr := term (('+' | '-') term)*`, associating to the left.
    fn expr(&mut self) -> (r: Result<Node, Error>)
        requires
            valid(old(self).text(), old(self).state()),
        ensures
            final(self).text() == old(self).text(),
            r is Ok ==> wf_ast(r->Ok_0@),
            node_matches(r, p_expr(old(self).text(), old(self).state()), final(self).state()),
            r is Ok ==> valid(final(self).text(), final(self).state()) && measure(
                final(self).text(),
                final(self).state(),
            ) <= measure(old(self).text(), old(self).state()),
        decreases measure(self.text(), self.state()), 4int,
    {
        let ghost text = self.text();
        let ghost st0 = self.state();
        let mut node = match self.term() {
            Ok(n) => n,
            Err(e) => return Err(e),
        };
        loop
            invariant
                self.text() == text,
                text == old(self).text(),
                st0 == old(self).state(),
                valid(text, st0),
                valid(text, self.state()),
                measure(text, self.state()) <= measure(text, st0),
                wf_ast(node@),
                p_expr(text, st0) == p_expr_rest(text, node@, self.state()),
            decreases measure(text, self.state()),
        {
            let op = match self.at_add_op() {
                Some(op) => op,
                None => return Ok(node),
            };
            let ghost s = self.state();
            proof {
                lemma_eat(text, s, op@);
            }
            match self.eat(op.duplicate()) {
                Ok(()) => {},
                Err(e) => return Err(e),
            }
            let right = match self.term() {
                Ok(n) => n,
                Err(e) => return Err(e),
            };
            node = Node::BinaryOp(BinaryOp::new(node, right, op));
        }
    }

    fn no_op(&self) -> (r: Node)
        ensures
            r@ == Ast::NoOp,
    {
        Node::NoOp
    }

    /// `assignment := variable ':=' expr`
    fn assignment(&mut self) -> (r: Result<Node, Error>)
        requires
            valid(old(self).text(), old(self).state()),
        ensures
            final(self).text() == old(self).text(),
            r is Ok ==> wf_ast(r->Ok_0@),
            node_matches(r, p_assignment(old(self).text(), old(self).state()), final(self).state()),
            r is Ok ==> valid(final(self).text(), final(self).state()) && measure(
                final(self).text(),
                final(self).state(),
            ) <= measure(old(self).text(), old(self).state()),
    {
        let ghost text = self.text();
        let left = match self.variable() {
            Ok(n) => n,
            Err(e) => return Err(e),
        };
        proof {
            lemma_eat(text, self.state(), Tok::Assign);
        }
        match self.eat(Token::Assign) {
            Ok(()) => {},
            Err(e) => return Err(e),
        }
        match self.expr() {
            Ok(right) => Ok(Node::Assignment(Assignment::new(Token::Assign, left, right))),
            Err(e) => Err(e),
        }
    }

    /// `statement := program | assignment | empty`
    fn statement(&mut self) -> (r: Result<Node, Error>)
        requires
            valid(old(self).text(), old(self).state()),
        ensures
            final(self).text() == old(self).text(),
            r is Ok ==> wf_ast(r->Ok_0@),
            node_matches(r, p_statement(old(self).text(), old(self).state()), final(self).state()),
            r is Ok ==> valid(final(self).text(), final(self).state()) && measure(
                final(self).text(),
                final(self).state(),
            ) <= measure(old(self).text(), old(self).state()),
        decreases measure(self.text(), self.state()), 2int,
    {
        let (is_program, is_id) = match &self.current_token {
            Some(Token::Program) => (true, false),
            Some(Token::Id(_)) => (false, true),
            _ => (false, false),
        };
        if is_program {
            self.program()
        } else if is_id {
            self.assignment()
        } else {
            Ok(self.no_op())
        }
    }

    /// `statement_list := statement (';' statement)*`
    fn statement_list(&mut self) -> (r: Result<Vec<Node>, Error>)
        requires
            valid(old(self).text(), old(self).state()),
        ensures
            final(self).text() == old(self).text(),
            r is Ok ==> wf_seq(nodes_view(r->Ok_0@)),
            match p_statement_list(old(self).text(), old(self).state()) {
                Ok((nodes, st)) => r is Ok && nodes_view(r->Ok_0@) == nodes && final(self).state()
                    == st,
                Err(f) => r is Err && r->Err_0@ == f,
            },
            r is Ok ==> valid(final(self).text(), final(self).state()) && measure(
                final(self).text(),
                final(self).state(),
            ) <= measure(old(self).text(), old(self).state()),
        decreases measure(self.text(), self.state()), 3int,
    {
        let ghost text = self.text();
        let ghost st0 = self.state();
        let mut list: Vec<Node> = Vec::new();
        let first = match self.statement() {
            Ok(n) => n,
            Err(e) => return Err(e),
        };
        proof {
            lemma_nodes_view_push(list@, first);
            lemma_wf_seq_push(nodes_view(list@), first@);
        }
        list.push(first);
        proof {
            assert(nodes_view(list@) =~= seq![first@]);
        }
        loop
            invariant
                self.text() == text,
                text == old(self).text(),
                st0 == old(self).state(),
                valid(text, st0),
                valid(text, self.state()),
                measure(text, self.state()) <= measure(text, st0),
                wf_seq(nodes_view(list@)),
                p_statement_list(text, st0) == p_statement_rest(
                    text,
                    nodes_view(list@),
                    self.state(),
                ),
            decreases measure(text, self.state()),
        {
            let at_semicolon = match &self.current_token {
                Some(Token::Semicolon) => true,
                _ => false,
            };
            if !at_semicolon {
                return Ok(list);
            }
            proof {
                lemma_eat(text, self.state(), Tok::Semicolon);
            }
            match self.eat(Token::Semicolon) {
                Ok(()) => {},
                Err(e) => return Err(e),
            }
            let next = match self.statement() {
                Ok(n) => n,
                Err(e) => return Err(e),
            };
            proof {
                lemma_nodes_view_push(list@, next);
                lemma_wf_seq_push(nodes_view(list@), next@);
            }
            list.push(next);
        }
    }

    /// The statements of a program block, as one compound statement.
    fn compound_statement(&mut self) -> (r: Result<Node, Error>)
        requires
            valid(old(self).text(), old(self).state()),
        ensures
            final(self).text() == old(self).text(),
            r is Ok ==> wf_ast(r->Ok_0@),
            node_matches(
                r,
                match p_statement_list(old(self).text(), old(self).state()) {
                    Ok((nodes, st)) => Ok((Ast::CompoundStatement(nodes), st)),
                    Err(f) => Err(f),
                },
                final(self).state(),
            ),
            r is Ok ==> valid(final(self).text(), final(self).state()) && measure(
                final(self).text(),
                final(self).state(),
            ) <= measure(old(self).text(), old(self).state()),
        decreases measure(self.text(), self.state()), 4int,
    {
        let nodes = match self.statement_list() {
            Ok(nodes) => nodes,
            Err(e) => return Err(e),
        };
        let mut compound_statement = CompoundStatement::new();
        compound_statement.statements = nodes;
        Ok(Node::CompoundStatement(compound_statement))
    }

    /// `program := 'PROGRAM' statement_list 'END_PROGRAM'`
    fn program(&mut self) -> (r: Result<Node, Error>)
        requires
            valid(old(self).text(), old(self).state()),
        ensures
            final(self).text() == old(self).text(),
            r is Ok ==> wf_ast(r->Ok_0@),
            node_matches(r, p_program(old(self).text(), old(self).state()), final(self).state()),
            r is Ok ==> valid(final(self).text(), final(self).state()) && measure(
                final(self).text(),
                final(self).state(),
            ) <= measure(old(self).text(), old(self).state()),
        decreases measure(self.text(), self.state()), 1int,
    {
        let ghost text = self.text();
        proof {
            lemma_eat(text, self.state(), Tok::Program);
        }
        match self.eat(Token::Program) {
            Ok(()) => {},
            Err(e) => return Err(e),
        }
        let node = match self.compound_statement() {
            Ok(n) => n,
            Err(e) => return Err(e),
        };
        proof {
            lemma_eat(text, self.state(), Tok::EndProgram);
        }
        match self.eat(Token::EndProgram) {
            Ok(()) => Ok(node),
            Err(e) => Err(e),
        }
    }
}

} // verus!
