use lpp::ast::expressions::{Bool, Expression, Ident, If, Int, Prefix, StringLiteral};
use lpp::ast::node::{AstNode, NodeFormatter};
use lpp::ast::statements::{Block, LetStatement, Program, ReturnStatement, Statement};
use lpp::branch::BranchRoot;
use lpp::lexer::Lexer;
use lpp::parser::{ParseError, Parser};
use lpp::token::{Token, TokenKind};

#[test]
fn ident_parse_test() {
    let source = " my_ident other_ident ";
    let lexer = Lexer::new(&source);

    let mut parser = Parser::new(lexer);
    let mut branch = parser.branch();

    let ident: Ident = branch.inspect(&mut parser).unwrap();
    let ident_name = ident.token_literal(&source);
    assert_eq!(ident_name, "my_ident");

    let ident: Ident = branch.inspect(&mut parser).unwrap();
    let ident_name = ident.token_literal(&source);
    assert_eq!(ident_name, "other_ident")
}

#[test]
fn int_parse_test() {
    let source = " 54321 ";
    let lexer = Lexer::new(&source);

    let mut parser = Parser::new(lexer);
    let int: Int = parser.branch().inspect(&mut parser).unwrap();
    let int_text = NodeFormatter::new(source, &int).to_string();
    assert_eq!(int_text, "54321");
}

#[test]
fn bool_parse_test() {
    let source = " false true ";
    let lexer = Lexer::new(&source);

    let mut parser = Parser::new(lexer);
    let mut branch = parser.branch();

    let boolean: Bool = branch.inspect(&mut parser).unwrap();
    assert_eq!(boolean.value(), false);

    let boolean: Bool = branch.inspect(&mut parser).unwrap();
    assert_eq!(boolean.value(), true);
}

#[test]
fn string_parse_test() {
    let source = " \"hello world\"  ";
    let lexer = Lexer::new(&source);

    let mut parser = Parser::new(lexer);
    let string_literal: StringLiteral = parser.branch().inspect(&mut parser).unwrap();
    assert_eq!(&*string_literal.value(), "hello world");
}

#[test]
fn if_test() {
    let source = "\n  if(true) {\n    let a = 5;\n    return a;\n  }\n";
    let lexer = Lexer::new(&source);

    let mut parser = Parser::new(lexer);
    let st: If = parser.branch().inspect(&mut parser).unwrap();
    let (condition, _consequence, alternative) = st.parts();

    assert!(matches!(condition, Expression::Bool(_)));
    assert!(alternative.is_none());
}

#[test]
fn if_else_test() {
    let source = "\n  if(false) {\n    let a = 5;\n    return a;\n  } else {\n    return 4;\n  }\n";
    let lexer = Lexer::new(&source);

    let mut parser = Parser::new(lexer);
    let st: If = parser.branch().inspect(&mut parser).unwrap();
    let (condition, _consequence, alternative) = st.parts();

    assert!(matches!(condition, Expression::Bool(_)));
    assert!(alternative.is_some());
}

#[test]
fn let_statement_test() {
    let source = "  let my_var = other_var; ";
    let lexer = Lexer::new(&source);

    let mut parser = Parser::new(lexer);
    let st: LetStatement = parser.branch().inspect(&mut parser).unwrap();
    let st_token_literal = NodeFormatter::new(source, &st).to_string();
    assert_eq!(st_token_literal, "let my_var = other_var");
}

#[test]
fn prefix_negation_parse_test() {
    let source = " !false ";
    let lexer = Lexer::new(&source);

    let mut parser = Parser::new(lexer);
    let prefix: Prefix = parser.branch().inspect(&mut parser).unwrap();
    let prefix = NodeFormatter::new(source, &prefix).to_string();
    assert_eq!(prefix, "!false");
}

#[test]
fn prefix_minus_parse_test() {
    let source = " -5 ";
    let lexer = Lexer::new(&source);

    let mut parser = Parser::new(lexer);
    let prefix: Prefix = parser.branch().inspect(&mut parser).unwrap();
    let prefix = NodeFormatter::new(source, &prefix).to_string();
    assert_eq!(prefix, "-5");
}

#[test]
fn return_round_trip() {
    let source = "  return 42; ";
    let lexer = Lexer::new(&source);

    let mut parser = Parser::new(lexer);
    let st: ReturnStatement = parser.branch().inspect(&mut parser).unwrap();
    let text = NodeFormatter::new(source, &st).to_string();
    assert_eq!(text, "return 42");
}

#[test]
fn if_else_round_trip() {
    let source = " if(true) { let a = 5; return a; } else { return 4; } ";
    let lexer = Lexer::new(&source);

    let mut parser = Parser::new(lexer);
    let st: If = parser.branch().inspect(&mut parser).unwrap();
    let text = NodeFormatter::new(source, &st).to_string();
    assert_eq!(text, "if(true) {let a = 5;return a;} else {return 4;}");
}

#[test]
fn program_round_trip() {
    let source = " let a = 5; return a; ";
    let lexer = Lexer::new(&source);

    let mut parser = Parser::new(lexer);
    let program: Program = parser.branch().inspect(&mut parser).unwrap();
    assert_eq!(program.statements.len(), 2);
    let text = NodeFormatter::new(source, &program).to_string();
    assert_eq!(text, "let a = 5;return a;");
}

#[test]
fn branch_rollback_on_failure() {
    // `let` without `=`: the let rule fails and the cursor is exactly
    // where it was before the attempt
    let source = " let a 5; ";
    let lexer = Lexer::new(&source);

    let mut parser = Parser::new(lexer);
    let mut branch = parser.branch();
    let before = branch.data;
    let st: Option<LetStatement> = branch.inspect(&mut parser);
    assert!(st.is_none());
    assert_eq!(branch.data.token_pos, before.token_pos);
    assert_eq!(branch.data.value_idx, before.value_idx);
}

#[test]
fn partial_block_reports_diagnostic() {
    let source = "{ let a = 5; @ }";
    let lexer = Lexer::new(&source);

    let mut parser = Parser::new(lexer);
    let mut branch = parser.branch();
    let block: Option<Block> = branch.inspect(&mut parser);
    assert!(block.is_none());
    let has_expected_statement_msg = parser.errors.iter().any(
        |e| matches!(e, ParseError::Msg(m) if m == "Expected a statement"),
    );
    assert!(has_expected_statement_msg);
}

#[test]
fn empty_block_backtracks_silently() {
    let source = "{ @ }";
    let lexer = Lexer::new(&source);

    let mut parser = Parser::new(lexer);
    let mut branch = parser.branch();
    let block: Option<Block> = branch.inspect(&mut parser);
    assert!(block.is_none());
    let has_expected_statement_msg = parser.errors.iter().any(
        |e| matches!(e, ParseError::Msg(m) if m == "Expected a statement"),
    );
    assert!(!has_expected_statement_msg);
}

#[test]
fn end_to_end_if_scenario() {
    let source = " if(true) { let a = 5; return a; } ";
    let lexer = Lexer::new(&source);

    let mut parser = Parser::new(lexer);
    let expression: Expression = parser.branch().inspect(&mut parser).unwrap();
    match expression {
        Expression::If(st) => {
            let (condition, consequence, alternative) = st.parts();
            match condition {
                Expression::Bool(b) => assert_eq!(b.value(), true),
                _ => panic!("expected a boolean condition"),
            }
            assert_eq!(consequence.statements.len(), 2);
            assert!(matches!(consequence.statements[0], Statement::Let(_)));
            assert!(matches!(consequence.statements[1], Statement::Return(_)));
            assert!(alternative.is_none());
        },
        _ => panic!("expected an if expression"),
    }
}

#[test]
fn no_more_tokens_is_recorded() {
    let source = " let a = ";
    let lexer = Lexer::new(&source);

    let mut parser = Parser::new(lexer);
    let mut branch = parser.branch();
    let st: Option<LetStatement> = branch.inspect(&mut parser);
    assert!(st.is_none());
    assert!(parser.errors.iter().any(|e| matches!(e, ParseError::NoMoreTokens)));
}

#[test]
fn expression_statement_parse() {
    let source = " my_var; ";
    let lexer = Lexer::new(&source);

    let mut parser = Parser::new(lexer);
    let program: Program = parser.branch().inspect(&mut parser).unwrap();
    assert_eq!(program.statements.len(), 1);
    assert!(matches!(program.statements[0], Statement::Expression(_)));
}

#[test]
fn zero_renders_as_zero() {
    let source = "0";
    let int = Int::new(Token::new(TokenKind::Int, 0, 1), 0);
    let text = NodeFormatter::new(source, &int).to_string();
    assert_eq!(text, "0");
}
