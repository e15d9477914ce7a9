use pascal_interpreter::error::Error;
use pascal_interpreter::interpreter::Interpreter;
use pascal_interpreter::lexer::Lexer;
use pascal_interpreter::parser::Parser;

fn interpreter_for(text: &str) -> Interpreter {
    Interpreter::new(Parser::new(Lexer::new(text.to_string())))
}

fn run(text: &str) -> (Result<(), Error>, Vec<u8>, Interpreter) {
    let mut interpreter = interpreter_for(text);
    let mut buffer: Vec<u8> = Vec::new();
    let result = interpreter.interpreter_writer(&mut buffer);
    (result, buffer, interpreter)
}

fn value_of(text: &str) -> Result<i32, Error> {
    let (result, _, interpreter) = run(text);
    result.map(|_| interpreter.result())
}

#[test]
fn interpret_addition() {
    let text = "1+2".to_string();
    let lexer = Lexer::new(text);
    let parser = Parser::new(lexer);
    let mut interpreter = Interpreter::new(parser);

    let mut buffer: Vec<u8> = Vec::new();

    let _ = interpreter.interpreter_writer(&mut buffer);

    assert_eq!(buffer[0], b'3');
}

#[test]
fn interpret_program() {
    // A bare expression is no statement: the block is a syntax error and nothing is written.
    let text = "PROGRAM
        1+2
    END_PROGRAM"
        .to_string();

    let lexer = Lexer::new(text);
    let parser = Parser::new(lexer);
    let mut interpreter = Interpreter::new(parser);
    let mut buffer: Vec<u8> = Vec::new();

    let result = interpreter.interpreter_writer(&mut buffer);

    assert!(matches!(result, Err(Error::Syntax { .. })));
    assert!(buffer.is_empty());
}

#[test]
fn interpret_program_with_assignment() {
    let text = "PROGRAM
        x := 2;
    END_PROGRAM"
        .to_string();

    let lexer = Lexer::new(text);
    let parser = Parser::new(lexer);
    let mut interpreter = Interpreter::new(parser);
    let mut buffer: Vec<u8> = Vec::new();

    let _ = interpreter.interpreter_writer(&mut buffer);

    assert_eq!(*interpreter.global_scope.get(&"x".to_string()).unwrap(), 2);
}

#[test]
fn writes_result_and_newline() {
    let (result, buffer, _) = run("1+2");
    assert!(result.is_ok());
    assert_eq!(buffer, b"3\n".to_vec());
}

#[test]
fn writes_negative_and_multi_digit_results() {
    let (_, buffer, _) = run("-1234");
    assert_eq!(buffer, b"-1234\n".to_vec());
    let (_, buffer, _) = run("100 * 10");
    assert_eq!(buffer, b"1000\n".to_vec());
    let (_, buffer, _) = run("0");
    assert_eq!(buffer, b"0\n".to_vec());
    let (_, buffer, _) = run("-2147483647 - 1");
    assert_eq!(buffer, b"-2147483648\n".to_vec());
}

#[test]
fn binary_operators_match_native_arithmetic() {
    assert_eq!(value_of("7 + 5").unwrap(), 12);
    assert_eq!(value_of("7 - 5").unwrap(), 2);
    assert_eq!(value_of("7 * 5").unwrap(), 35);
    assert_eq!(value_of("7 / 5").unwrap(), 1);
    assert_eq!(value_of("-7 / 2").unwrap(), -3);
    assert_eq!(value_of("7 / -2").unwrap(), -3);
    assert_eq!(value_of("-7 / -2").unwrap(), 3);
    assert_eq!(value_of("-3 * 4").unwrap(), -12);
    assert_eq!(value_of("3 - -4").unwrap(), 7);
}

#[test]
fn division_by_zero_fails() {
    assert!(matches!(value_of("5 / 0"), Err(Error::DivisionByZero)));
    assert!(matches!(value_of("0 / 0"), Err(Error::DivisionByZero)));
    assert!(matches!(value_of("-5 / 0"), Err(Error::DivisionByZero)));
    assert!(matches!(value_of("2147483647 / 0"), Err(Error::DivisionByZero)));
    assert!(matches!(value_of("-9 / (3 - 3)"), Err(Error::DivisionByZero)));
}

#[test]
fn parentheses_change_precedence() {
    assert_eq!(value_of("2 + 3 * 4").unwrap(), 14);
    assert_eq!(value_of("(2 + 3) * 4").unwrap(), 20);
}

#[test]
fn operators_associate_to_the_left() {
    assert_eq!(value_of("10 - 2 - 3").unwrap(), 5);
    assert_eq!(value_of("100 / 10 / 5").unwrap(), 2);
}

#[test]
fn unary_signs_chain() {
    assert_eq!(value_of("--5").unwrap(), 5);
    assert_eq!(value_of("-+-5").unwrap(), 5);
    assert_eq!(value_of("+5").unwrap(), 5);
    assert_eq!(value_of("-(2 + 3)").unwrap(), -5);
}

#[test]
fn assignments_persist_across_statements() {
    let (result, buffer, interpreter) = run("PROGRAM x := 2; y := x + 3; END_PROGRAM");
    assert!(result.is_ok());
    assert_eq!(*interpreter.global_scope.get(&"x".to_string()).unwrap(), 2);
    assert_eq!(*interpreter.global_scope.get(&"y".to_string()).unwrap(), 5);
    assert_eq!(interpreter.result(), 5);
    assert_eq!(buffer, b"5\n".to_vec());
}

#[test]
fn reassignment_overwrites() {
    let (result, _, interpreter) = run("PROGRAM x := 1; x := x * 10 + 1 END_PROGRAM");
    assert!(result.is_ok());
    assert_eq!(*interpreter.global_scope.get(&"x".to_string()).unwrap(), 11);
}

#[test]
fn nested_program_blocks_run_in_order() {
    let (result, _, interpreter) =
        run("PROGRAM a := 1; PROGRAM b := a + 1; END_PROGRAM; c := b * 3 END_PROGRAM");
    assert!(result.is_ok());
    assert_eq!(*interpreter.global_scope.get(&"c".to_string()).unwrap(), 6);
}

#[test]
fn empty_program_keeps_accumulator() {
    let (result, buffer, interpreter) = run("PROGRAM END_PROGRAM");
    assert!(result.is_ok());
    assert_eq!(interpreter.result(), 0);
    assert_eq!(buffer, b"0\n".to_vec());
    assert!(interpreter.global_scope.get(&"x".to_string()).is_none());
}

#[test]
fn unassigned_variable_fails() {
    let (result, _, _) = run("PROGRAM z := q; END_PROGRAM");
    match result {
        Err(Error::UndefinedVariable { name }) => assert_eq!(name, "q"),
        other => panic!("expected an undefined variable, got {:?}", other),
    }
}

#[test]
fn arithmetic_overflow_fails() {
    assert!(matches!(value_of("2147483647 + 1"), Err(Error::Overflow)));
    assert!(matches!(value_of("-2147483647 - 2"), Err(Error::Overflow)));
    assert!(matches!(value_of("65536 * 65536"), Err(Error::Overflow)));
    assert!(matches!(value_of("-(-2147483647 - 1)"), Err(Error::Overflow)));
    assert!(matches!(value_of("(-2147483647 - 1) / -1"), Err(Error::Overflow)));
}

#[test]
fn failed_run_writes_nothing() {
    let (result, buffer, _) = run("1 / 0");
    assert!(result.is_err());
    assert!(buffer.is_empty());
}

#[test]
fn failed_statement_leaves_store_untouched() {
    let (result, buffer, interpreter) = run("PROGRAM z := q; END_PROGRAM");
    assert!(matches!(result, Err(Error::UndefinedVariable { .. })));
    assert!(interpreter.global_scope.get(&"z".to_string()).is_none());
    assert!(buffer.is_empty());

    let (result, _, interpreter) = run("PROGRAM x := 4; x := x / 0 END_PROGRAM");
    assert!(matches!(result, Err(Error::DivisionByZero)));
    assert_eq!(*interpreter.global_scope.get(&"x".to_string()).unwrap(), 4);
    assert_eq!(interpreter.result(), 0);
}

#[test]
fn parse_error_leaves_accumulator() {
    let (result, _, interpreter) = run("PROGRAM x := 1 y := 2 END_PROGRAM");
    assert!(matches!(result, Err(Error::Syntax { .. })));
    assert_eq!(interpreter.result(), 0);
    assert!(interpreter.global_scope.get(&"x".to_string()).is_none());
}
