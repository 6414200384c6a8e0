use tapelang::interp::{run, Interpreter};
use tapelang::lexer::{Lexer, TokenType};
use tapelang::parser::Parser;
use tapelang::semantics::InterpError;

fn parse_source(source: &str) -> tapelang::ast::Ast {
    let mut lexer = Lexer::new(source);
    let tokens = lexer.tokenize();
    let mut parser = Parser::new(tokens);
    parser.parse()
}

fn interpret_source(source: &str, input: Vec<u8>, fuel: u64) -> (Interpreter, Result<(), InterpError>) {
    let ast = parse_source(source);
    let mut interpreter = Interpreter::new(ast, input, fuel);
    let r = interpreter.interpret(None);
    (interpreter, r)
}

#[test]
fn tokenize_one_token_per_character_plus_end_marker() {
    let source = "+x[ ]-.\u{0}y";
    let mut lexer = Lexer::new(source);
    let tokens = lexer.tokenize();
    assert_eq!(tokens.len(), source.chars().count() + 1);
    let last = tokens[tokens.len() - 1];
    assert_eq!(last.kind, TokenType::EOF);
    assert_eq!(last.lexeme, '\0');
    assert_eq!(last.pos, source.chars().count() + 1);
    for (i, t) in tokens[..tokens.len() - 1].iter().enumerate() {
        assert_eq!(t.pos, i + 1);
    }
}

#[test]
fn lexeme_round_trip_reproduces_source() {
    let source = "say << hi >> [-+.,] \t!";
    let mut lexer = Lexer::new(source);
    let tokens = lexer.tokenize();
    let rebuilt: String = tokens[..tokens.len() - 1].iter().map(|t| t.lexeme).collect();
    assert_eq!(rebuilt, source);
}

#[test]
fn loop_body_reconstruction_round_trip() {
    // the bracketed substring of a well-bracketed source is reproduced by
    // its loop node: reconstruct the whole tree and compare
    fn rebuild(nodes: &[tapelang::ast::Node], out: &mut String) {
        for n in nodes {
            match &n.body {
                Some(b) => {
                    out.push('[');
                    rebuild(&b.body, out);
                    out.push(']');
                }
                None => out.push(n.token.lexeme),
            }
        }
    }
    let source = "+[ab[-]x[[,]].]<";
    let ast = parse_source(source);
    let mut rebuilt = String::new();
    rebuild(&ast.body, &mut rebuilt);
    assert_eq!(rebuilt, source);
}

#[test]
fn rerun_yields_identical_output() {
    let source = "++[>+++<-]>.";
    let first = run(source);
    let second = run(source);
    assert_eq!(first, second);
}

#[test]
fn cell_increment_wraps_after_256_steps() {
    let source: String = std::iter::repeat('+').take(256).collect();
    let (interpreter, r) = interpret_source(&source, Vec::new(), u64::MAX);
    assert!(r.is_ok());
    assert_eq!(interpreter.cells[0], 0);
}

#[test]
fn cell_decrement_wraps_below_zero() {
    let (interpreter, r) = interpret_source("-", Vec::new(), u64::MAX);
    assert!(r.is_ok());
    assert_eq!(interpreter.cells[0], 255);
}

#[test]
fn pointer_decrement_at_zero_wraps_to_last_cell() {
    let (interpreter, r) = interpret_source("<", Vec::new(), u64::MAX);
    assert!(r.is_ok());
    assert_eq!(interpreter.pointer, 29999);
}

#[test]
fn pointer_increment_at_last_cell_wraps_to_zero() {
    let (interpreter, r) = interpret_source("<>", Vec::new(), u64::MAX);
    assert!(r.is_ok());
    assert_eq!(interpreter.pointer, 0);
}

#[test]
fn loop_with_zero_entry_cell_runs_zero_times() {
    let (interpreter, r) = interpret_source("[.+.]", Vec::new(), u64::MAX);
    assert!(r.is_ok());
    assert_eq!(interpreter.output, Vec::<u8>::new());
    assert_eq!(interpreter.cells[0], 0);
}

#[test]
fn hello_world_end_to_end() {
    let source = "++++++++++[>+++++++>++++++++++>+++>+<<<<-]>++.>+.+++++++..+++.>++.<<+++++++++++++++.>.+++.------.--------.>+.>.";
    assert_eq!(run(source), "Hello World!\n");
}

#[test]
fn empty_source_empty_output_zero_tape() {
    assert_eq!(run(""), "");
    let (interpreter, r) = interpret_source("", Vec::new(), u64::MAX);
    assert!(r.is_ok());
    assert_eq!(interpreter.output.len(), 0);
    assert_eq!(interpreter.pointer, 0);
    assert!(interpreter.cells.iter().all(|&c| c == 0));
}

#[test]
fn unmatched_open_bracket_is_accepted() {
    assert_eq!(run("["), "");
}

#[test]
fn unmatched_open_bracket_nonzero_cell_hits_step_limit() {
    // the loop never terminates; a small step budget bounds the run
    let (interpreter, r) = interpret_source("+[", Vec::new(), 100);
    assert_eq!(r, Err(InterpError::StepLimit));
    assert_eq!(interpreter.output.len(), 0);
}

#[test]
fn input_fills_cells_in_order() {
    let (interpreter, r) = interpret_source(",>,<.>.", vec![65, 66], u64::MAX);
    assert!(r.is_ok());
    assert_eq!(interpreter.output, vec![65, 66]);
}

#[test]
fn input_on_exhausted_source_fails() {
    let (interpreter, r) = interpret_source(".,.", Vec::new(), u64::MAX);
    assert_eq!(r, Err(InterpError::InputExhausted));
    // output produced before the fatal condition is kept
    assert_eq!(interpreter.output, vec![0]);
}

#[test]
fn run_reads_output_bytes_as_characters() {
    let source: String = std::iter::repeat('+').take(65).collect::<String>() + ".";
    assert_eq!(run(&source), "A");
}

#[test]
fn stray_close_bracket_is_inert() {
    let source = "]+.";
    let (interpreter, r) = interpret_source(source, Vec::new(), u64::MAX);
    assert!(r.is_ok());
    assert_eq!(interpreter.output, vec![1]);
}

#[test]
fn whitespace_and_comments_are_no_ops() {
    assert_eq!(run("+ + hello . world"), run("++."));
}
