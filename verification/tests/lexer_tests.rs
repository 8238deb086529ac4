use lpp::lexer::{Lexer, LexerStatus};
use lpp::literal::Literal;
use lpp::token::{Token, TokenKind, TokenValue};

fn kinds_of(source: &str) -> Vec<TokenKind> {
    let mut lexer = Lexer::new(&source);
    let mut kinds = Vec::new();
    while let Some((token, _value)) = lexer.next() {
        kinds.push(token.kind());
    }
    kinds
}

#[test]
fn parse_file() {
    let source = "let five = 5;\nlet add = fn(x, y) { x + y; };\nif (five < 10) { return true; } else { return false; }\n\"hola\" != \"chau\";";
    let expected: Vec<(TokenKind, Option<TokenValue>)> = vec![
        (TokenKind::Let, None),
        (TokenKind::Ident, None),
        (TokenKind::Assign, None),
        (TokenKind::Int, Some(TokenValue::Int(5))),
        (TokenKind::Semicolon, None),
        (TokenKind::Let, None),
        (TokenKind::Ident, None),
        (TokenKind::Assign, None),
        (TokenKind::Func, None),
        (TokenKind::LParen, None),
        (TokenKind::Ident, None),
        (TokenKind::Comma, None),
        (TokenKind::Ident, None),
        (TokenKind::RParen, None),
        (TokenKind::LBrace, None),
        (TokenKind::Ident, None),
        (TokenKind::Plus, None),
        (TokenKind::Ident, None),
        (TokenKind::Semicolon, None),
        (TokenKind::RBrace, None),
        (TokenKind::Semicolon, None),
        (TokenKind::If, None),
        (TokenKind::LParen, None),
        (TokenKind::Ident, None),
        (TokenKind::LT, None),
        (TokenKind::Int, Some(TokenValue::Int(10))),
        (TokenKind::RParen, None),
        (TokenKind::LBrace, None),
        (TokenKind::Return, None),
        (TokenKind::True, None),
        (TokenKind::Semicolon, None),
        (TokenKind::RBrace, None),
        (TokenKind::Else, None),
        (TokenKind::LBrace, None),
        (TokenKind::Return, None),
        (TokenKind::False, None),
        (TokenKind::Semicolon, None),
        (TokenKind::RBrace, None),
        (TokenKind::String, Some(TokenValue::String("hola".to_owned()))),
        (TokenKind::NotEq, None),
        (TokenKind::String, Some(TokenValue::String("chau".to_owned()))),
        (TokenKind::Semicolon, None),
    ];
    let mut lexer = Lexer::new(&source);
    assert_eq!(lexer.status(), LexerStatus::Open);

    let mut idx = 0;
    while let Some((token, value)) = lexer.next() {
        assert!(idx < expected.len(), "more tokens than expected");
        let (want_kind, want_value) = &expected[idx];
        assert_eq!(token.kind(), *want_kind, "kind at {idx}");
        match (value, want_value) {
            (None, None) => {}
            (Some(TokenValue::Int(a)), Some(TokenValue::Int(b))) => assert_eq!(a, *b),
            (Some(TokenValue::String(a)), Some(TokenValue::String(b))) => assert_eq!(&a, b),
            other => panic!("value mismatch at {idx}: {other:?}"),
        }
        idx += 1;
        assert_eq!(lexer.status(), LexerStatus::Open);
    }
    assert_eq!(lexer.status(), LexerStatus::Ended);
    assert_eq!(idx, expected.len(), "there shouldn't be more expected tokens");
}

#[test]
fn greedy_two_char_operators() {
    assert_eq!(kinds_of("=="), vec![TokenKind::Eq]);
    assert_eq!(kinds_of("!="), vec![TokenKind::NotEq]);
    assert_eq!(kinds_of("="), vec![TokenKind::Assign]);
    assert_eq!(kinds_of("!"), vec![TokenKind::Neg]);
}

#[test]
fn keyword_vs_identifier() {
    assert_eq!(kinds_of("let"), vec![TokenKind::Let]);
    assert_eq!(kinds_of("fn"), vec![TokenKind::Func]);
    assert_eq!(kinds_of("if"), vec![TokenKind::If]);
    assert_eq!(kinds_of("else"), vec![TokenKind::Else]);
    assert_eq!(kinds_of("return"), vec![TokenKind::Return]);
    assert_eq!(kinds_of("true"), vec![TokenKind::True]);
    assert_eq!(kinds_of("false"), vec![TokenKind::False]);
    assert_eq!(kinds_of("letter"), vec![TokenKind::Ident]);
}

#[test]
fn from_literal_resolves_keywords() {
    let lit = Literal { text: "return" };
    assert_eq!(TokenKind::from_literal(lit), TokenKind::Return);
    let lit = Literal { text: "returns" };
    assert_eq!(TokenKind::from_literal(lit), TokenKind::Ident);
}

#[test]
fn unterminated_string_blocks_lexer() {
    let source = "\"abc";
    let mut lexer = Lexer::new(&source);
    assert_eq!(lexer.status(), LexerStatus::Open);
    assert!(lexer.next().is_none());
    assert_eq!(lexer.status(), LexerStatus::ErrorAt(4));
    // terminal: nothing more ever comes out
    assert!(lexer.next().is_none());
    assert_eq!(lexer.status(), LexerStatus::ErrorAt(4));
}

#[test]
fn int_then_ident() {
    let source = "1234sdf";
    let mut lexer = Lexer::new(&source);
    let (token, value) = lexer.next().unwrap();
    assert_eq!(token.kind(), TokenKind::Int);
    let range = token.range();
    assert_eq!(range.end - range.start, 4);
    assert_eq!(value.unwrap().to_int(), Some(1234));
    let (token, value) = lexer.next().unwrap();
    assert_eq!(token.kind(), TokenKind::Ident);
    assert!(value.is_none());
    assert_eq!(token.literal(&source), "sdf");
    assert!(lexer.next().is_none());
    assert_eq!(lexer.status(), LexerStatus::Ended);
}

#[test]
fn relexing_yields_identical_tokens() {
    let source = " let a = \"dos\"; if(a != b) { -5; } ";
    let mut first = Vec::new();
    let mut lexer = Lexer::new(&source);
    while let Some((token, value)) = lexer.next() {
        first.push((token, value.and_then(TokenValue::to_int)));
    }
    let mut second = Vec::new();
    let mut lexer = Lexer::new(&source);
    while let Some((token, value)) = lexer.next() {
        second.push((token, value.and_then(TokenValue::to_int)));
    }
    assert_eq!(first, second);
}

#[test]
fn token_accessors() {
    let token = Token::new(TokenKind::Plus, 3, 4);
    assert_eq!(token.kind(), TokenKind::Plus);
    let range = token.range();
    assert_eq!(range.start, 3);
    assert_eq!(range.end, 4);
}

#[test]
fn token_value_accessors() {
    assert_eq!(TokenValue::Int(7).to_int(), Some(7));
    assert_eq!(TokenValue::Int(7).to_string(), None);
    let v = TokenValue::String("abc".to_owned());
    assert_eq!(v.to_string(), Some("abc".to_owned()));
    let v = TokenValue::String("abc".to_owned());
    assert_eq!(v.to_int(), None);
}

#[test]
fn illegal_takes_one_code_point() {
    assert_eq!(kinds_of("@"), vec![TokenKind::Illegal]);
    assert_eq!(kinds_of("@@"), vec![TokenKind::Illegal, TokenKind::Illegal]);
}
