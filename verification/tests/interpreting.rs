use lang::errors::LanguageError;
use lang::interpreter::{Interpreter, MEMORY_SIZE};
use lang::lexer::Lexer;
use lang::parser::Parser;
use lang::statements::Statement;

const FUEL: u64 = 10_000_000;

fn run_program(source: &str, input: Vec<u8>) -> Result<Vec<u8>, LanguageError> {
    let tokens = Lexer::new(source).lex().unwrap();
    let ast = Parser::new(&tokens).parse().unwrap();
    let mut interpreter = Interpreter::new(&ast, input);
    match interpreter.run(FUEL)? {
        true => Ok(interpreter.output_bytes().clone()),
        false => panic!("step budget exhausted"),
    }
}

#[test]
fn increment_wraps_after_256_steps() {
    let mut source = String::new();
    for _ in 0..256 {
        source.push('+');
    }
    source.push('.');
    assert_eq!(run_program(&source, vec![]), Ok(vec![0]));
}

#[test]
fn pointer_wraps_after_capacity_moves() {
    let mut source = String::from("+");
    for _ in 0..MEMORY_SIZE {
        source.push('>');
    }
    source.push('.');
    assert_eq!(run_program(&source, vec![]), Ok(vec![1]));
}

#[test]
fn clear_loop_empties_cell() {
    assert_eq!(run_program("+++++++[-].", vec![]), Ok(vec![0]));
    assert_eq!(run_program("[-].", vec![]), Ok(vec![0]));
}

#[test]
fn decrement_wraps_below_zero() {
    assert_eq!(run_program("-.", vec![]), Ok(vec![255]));
}

#[test]
fn move_left_wraps_at_edge() {
    assert_eq!(run_program("<+.", vec![]), Ok(vec![1]));
    assert_eq!(run_program("<+>.", vec![]), Ok(vec![0]));
}

#[test]
fn input_stores_byte() {
    assert_eq!(run_program(",.", vec![65]), Ok(vec![65]));
    assert_eq!(run_program(",+.", vec![9]), Ok(vec![10]));
}

#[test]
fn input_past_end_is_io_error() {
    assert_eq!(run_program(",", vec![]), Err(LanguageError::IoError));
    assert_eq!(run_program(".,,.", vec![1]), Err(LanguageError::IoError));
}

#[test]
fn output_before_failure_is_kept() {
    let tokens = Lexer::new("+.,").lex().unwrap();
    let ast = Parser::new(&tokens).parse().unwrap();
    let mut interpreter = Interpreter::new(&ast, vec![]);
    assert_eq!(interpreter.run(FUEL), Err(LanguageError::IoError));
    assert_eq!(interpreter.output_bytes(), &vec![1]);
}

#[test]
fn infinite_loop_exhausts_fuel() {
    let tokens = Lexer::new("+[]").lex().unwrap();
    let ast = Parser::new(&tokens).parse().unwrap();
    let mut interpreter = Interpreter::new(&ast, vec![]);
    assert_eq!(interpreter.run(10_000), Ok(false));
}

#[test]
fn loop_condition_reads_entry_cell() {
    // Under the captured-index semantics the condition keeps re-reading
    // cell 0, which stays 1, so this program never ends; under
    // current-pointer re-evaluation it would halt on the first zero cell.
    let tokens = Lexer::new("+[>]").lex().unwrap();
    let ast = Parser::new(&tokens).parse().unwrap();
    let mut interpreter = Interpreter::new(&ast, vec![]);
    assert_eq!(interpreter.run(100_000), Ok(false));
}

#[test]
fn runs_forest_built_by_hand() {
    let ast = vec![
        Statement::Increment,
        Statement::Increment,
        Statement::Output,
    ];
    let mut interpreter = Interpreter::new(&ast, vec![]);
    assert_eq!(interpreter.run(FUEL), Ok(true));
    assert_eq!(interpreter.output_bytes(), &vec![2]);
}
