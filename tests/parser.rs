use pascal_interpreter::ast::{Assignment, BinaryOp, CompoundStatement, Node, Num, UnaryOp, Variable};
use pascal_interpreter::error::{Error, LexError};
use pascal_interpreter::lexer::Lexer;
use pascal_interpreter::parser::Parser;
use pascal_interpreter::token::Token;

fn parse(text: &str) -> Result<Node, Error> {
    Parser::new(Lexer::new(text.to_string())).parse()
}

fn num(v: i32) -> Node {
    Node::Num(Num::new(Token::Integer(v)))
}

fn var(name: &str) -> Node {
    Node::Variable(Variable::new(Token::Id(name.to_string())))
}

#[test]
fn parse_addition() {
    let text = "1+2".to_string();
    let lexer = Lexer::new(text);
    let mut parser = Parser::new(lexer);
    if let Ok(Node::BinaryOp(binary_op)) = parser.parse() {
        assert_eq!(*binary_op.left, Node::Num(Num::new(Token::Integer(1))));
        assert_eq!(*binary_op.right, Node::Num(Num::new(Token::Integer(2))));
        assert_eq!(binary_op.op, Token::Plus);
    }
}

#[test]
fn parse_assignment() {
    let text = "PROGRAM x := 3 END_PROGRAM".to_string();
    let lexer = Lexer::new(text);
    let mut parser = Parser::new(lexer);
    if let Ok(Node::Assignment(assignment)) = parser.parse() {
        assert_eq!(
            *assignment.left,
            Node::Variable(Variable::new(Token::Id("x".to_string())))
        );
        assert_eq!(*assignment.right, Node::Num(Num::new(Token::Integer(3))));
        assert_eq!(assignment.op, Token::Assign);
    }
}

#[test]
fn addition_tree_is_exact() {
    let expected = Node::BinaryOp(BinaryOp::new(num(1), num(2), Token::Plus));
    assert_eq!(parse("1+2").unwrap(), expected);
}

#[test]
fn program_block_is_a_compound_statement() {
    let mut block = CompoundStatement::new();
    block
        .statements
        .push(Node::Assignment(Assignment::new(Token::Assign, var("x"), num(3))));
    assert_eq!(
        parse("PROGRAM x := 3 END_PROGRAM").unwrap(),
        Node::CompoundStatement(block)
    );
}

#[test]
fn empty_statements_become_no_ops() {
    let mut block = CompoundStatement::new();
    block
        .statements
        .push(Node::Assignment(Assignment::new(Token::Assign, var("x"), num(2))));
    block.statements.push(Node::NoOp);
    assert_eq!(
        parse("PROGRAM x := 2; END_PROGRAM").unwrap(),
        Node::CompoundStatement(block)
    );
    let mut empty = CompoundStatement::new();
    empty.statements.push(Node::NoOp);
    assert_eq!(parse("PROGRAM END_PROGRAM").unwrap(), Node::CompoundStatement(empty));
}

#[test]
fn multiplication_binds_tighter() {
    let product = Node::BinaryOp(BinaryOp::new(num(3), num(4), Token::Mul));
    let expected = Node::BinaryOp(BinaryOp::new(num(2), product, Token::Plus));
    assert_eq!(parse("2 + 3 * 4").unwrap(), expected);
}

#[test]
fn subtraction_folds_left() {
    let first = Node::BinaryOp(BinaryOp::new(num(10), num(2), Token::Minus));
    let expected = Node::BinaryOp(BinaryOp::new(first, num(3), Token::Minus));
    assert_eq!(parse("10 - 2 - 3").unwrap(), expected);
}

#[test]
fn unary_signs_nest() {
    let inner = Node::UnaryOp(UnaryOp::new(Token::Minus, num(5)));
    let middle = Node::UnaryOp(UnaryOp::new(Token::Plus, inner));
    let expected = Node::UnaryOp(UnaryOp::new(Token::Minus, middle));
    assert_eq!(parse("-+-5").unwrap(), expected);
}

#[test]
fn reparsing_gives_identical_trees() {
    let text = "PROGRAM x := (1 + 2) * -y; z := x / 3; END_PROGRAM";
    assert_eq!(parse(text).unwrap(), parse(text).unwrap());
    assert_eq!(parse("2 + 3 * 4").unwrap(), parse("2 + 3 * 4").unwrap());
}

#[test]
fn missing_end_program_is_a_syntax_error() {
    match parse("PROGRAM x := 1") {
        Err(Error::Syntax { expected, found }) => {
            assert_eq!(expected, Token::EndProgram);
            assert_eq!(found, None);
        }
        other => panic!("expected a syntax error, got {:?}", other),
    }
}

#[test]
fn unclosed_parenthesis_is_a_syntax_error() {
    match parse("(1 + 2") {
        Err(Error::Syntax { expected, found }) => {
            assert_eq!(expected, Token::Rparen);
            assert_eq!(found, None);
        }
        other => panic!("expected a syntax error, got {:?}", other),
    }
}

#[test]
fn missing_operand_is_reported() {
    assert!(matches!(parse("1 +"), Err(Error::UnexpectedToken { found: None })));
    assert!(matches!(parse(""), Err(Error::UnexpectedToken { found: None })));
    match parse("* 2") {
        Err(Error::UnexpectedToken { found }) => assert_eq!(found, Some(Token::Mul)),
        other => panic!("expected an unexpected token, got {:?}", other),
    }
}

#[test]
fn trailing_input_is_rejected() {
    match parse("1 2") {
        Err(Error::TrailingInput { found }) => assert_eq!(found, Token::Integer(2)),
        other => panic!("expected trailing input, got {:?}", other),
    }
}

#[test]
fn lexical_errors_reach_the_parser() {
    match parse("1 + $") {
        Err(Error::Lex(LexError::UnexpectedChar { ch, pos })) => {
            assert_eq!(ch, '$');
            assert_eq!(pos, 4);
        }
        other => panic!("expected a lexical error, got {:?}", other),
    }
}
