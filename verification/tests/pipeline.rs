use tapelang::ast::{Ast, Node, NodeType};
use tapelang::interp::{run, Interpreter};
use tapelang::lexer::{Lexer, Token, TokenType};
use tapelang::parser::Parser;

const OLA_MUNDO: &str = "++++++++++[>++++++++>+++++++++++>++++++++++>++++>+++>++++++++>++++++++++++>+++++++++++>++++++++++>+++++++++++>+++>+<<<<<<<<<<<<-]>-.>--.>---.>++++.>++.>---.>---.>.>.>+.>+++.>.\0";

#[test]
fn test_tokenize() {
    let mut lexer = Lexer::new(OLA_MUNDO);
    let tokens = lexer.tokenize();
    // one token per character (the literal NUL is a comment) plus the
    // synthetic end marker
    assert_eq!(tokens.len(), 177);
    assert_eq!(tokens[0].kind, TokenType::IncrementValue);
    assert_eq!(tokens[0].lexeme, '+');
}

#[test]
fn test_parser() {
    let mut parser = Parser::new(vec![
        Token {
            pos: 0,
            kind: TokenType::IncrementValue,
            lexeme: '+',
        },
        Token {
            pos: 1,
            kind: TokenType::EOF,
            lexeme: '\0',
        },
    ]);
    let ast = parser.parse();
    assert_eq!(
        ast,
        Ast {
            body: vec![Node {
                token: Token {
                    pos: 0,
                    kind: TokenType::IncrementValue,
                    lexeme: '+',
                },
                kind: NodeType::CellIncrement,
                body: None,
            }],
        }
    );
}

#[test]
fn test_interpreter() {
    let mut lexer = Lexer::new(OLA_MUNDO);
    let tokens = lexer.tokenize();
    let mut parser = Parser::new(tokens);
    let ast = parser.parse();
    let mut interpreter = Interpreter::new(ast, Vec::new(), u64::MAX);
    interpreter.interpret(None).unwrap();
    assert_eq!(
        interpreter.output.iter().map(|&c| c as char).collect::<String>(),
        "Ola, Mundo!\n".to_string()
    );
}

#[test]
fn test_run() {
    run(OLA_MUNDO);
}
