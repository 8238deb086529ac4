use lpp::ast::expressions::{Call, Expression, Func, Ident, Infix, Int};
use lpp::ast::node::{AstNode, NodeFormatter};
use lpp::ast::statements::{Block, ExpressionStatement, Program, Statement};
use lpp::branch::BranchRoot;
use lpp::lexer::Lexer;
use lpp::literal::Literal;
use lpp::parser::Parser;
use lpp::source::Source;
use lpp::token::{Token, TokenKind};
use lpp::utils::{char_len, is_digit, is_letter};

#[test]
fn infix_renders_with_single_spaces() {
    let source = "a + b";
    let infix = Infix::new(
        Token::new(TokenKind::Plus, 2, 3),
        Expression::Ident(Ident::new(Token::new(TokenKind::Ident, 0, 1))),
        "+".to_owned(),
        Expression::Ident(Ident::new(Token::new(TokenKind::Ident, 4, 5))),
    );
    let text = NodeFormatter::new(source, &infix).to_string();
    assert_eq!(text, "a + b");
}

#[test]
fn func_renders_params_and_body() {
    let source = "fn(x, y) { x; }";
    let body = Block::new(
        Token::new(TokenKind::LBrace, 9, 10),
        vec![Statement::Expression(ExpressionStatement::new(Expression::Ident(Ident::new(
            Token::new(TokenKind::Ident, 11, 12),
        ))))],
    );
    let func = Func::new(
        Token::new(TokenKind::Func, 0, 2),
        vec![
            Ident::new(Token::new(TokenKind::Ident, 3, 4)),
            Ident::new(Token::new(TokenKind::Ident, 6, 7)),
        ],
        Some(body),
    );
    let text = NodeFormatter::new(source, &func).to_string();
    assert_eq!(text, "fn(x, y) {x;}");
}

#[test]
fn func_without_body_renders_empty_braces() {
    let source = "fn()";
    let func = Func::new(Token::new(TokenKind::Func, 0, 2), vec![], None);
    let text = NodeFormatter::new(source, &func).to_string();
    assert_eq!(text, "fn() {}");
}

#[test]
fn call_renders_args() {
    let source = "add(a, 5)";
    let call = Call::new(
        Token::new(TokenKind::LParen, 3, 4),
        Expression::Ident(Ident::new(Token::new(TokenKind::Ident, 0, 3))),
        Some(vec![
            Expression::Ident(Ident::new(Token::new(TokenKind::Ident, 4, 5))),
            Expression::Int(Int::new(Token::new(TokenKind::Int, 7, 8), 5)),
        ]),
    );
    let text = NodeFormatter::new(source, &call).to_string();
    assert_eq!(text, "add(a, 5)");
}

#[test]
fn token_literal_spans_multibyte_text() {
    // the span is in bytes; the enye takes two
    let source = "a\u{f1}b c";
    let token = Token::new(TokenKind::Ident, 0, 4);
    assert_eq!(token.literal(&source), "a\u{f1}b");
}

#[test]
fn program_token_literal_is_first_statement() {
    let source = " let a = 5; ";
    let lexer = Lexer::new(&source);
    let mut parser = Parser::new(lexer);
    let program: Program = parser.branch().inspect(&mut parser).unwrap();
    assert_eq!(program.token_literal(&source), "let");

    let empty = Program::new(vec![]);
    assert_eq!(empty.token_literal(&""), "");
}

#[test]
fn source_hands_out_text_and_suffix() {
    let text = "hello";
    let source: &str = text;
    assert_eq!(source.source(), "hello");
    assert_eq!(source.after(2), "llo");
    let owned = String::from("hello");
    let source = &owned;
    assert_eq!(source.source(), "hello");
    assert_eq!(source.after(4), "o");
}

#[test]
fn character_classes() {
    assert!(is_letter('a'));
    assert!(is_letter('Z'));
    assert!(is_letter('_'));
    assert!(is_letter('\u{f1}'));
    assert!(!is_letter('1'));
    assert!(!is_letter(' '));
    assert!(is_digit('0'));
    assert!(is_digit('9'));
    assert!(!is_digit('a'));
    assert_eq!(char_len('a'), 1);
    assert_eq!(char_len('\u{f1}'), 2);
}

#[test]
fn contained_at_start_takes_maximal_prefix() {
    let lit = Literal::contained_at_start("abc12 x").unwrap();
    assert_eq!(lit.as_ref(), "abc12");
    assert!(Literal::contained_at_start("").is_none());
    assert!(Literal::contained_at_start("9abc").is_none());
}
