use slug::error::ErrorKind;
use slug::lexer::{lex, Token, TokenType};
use slug::traveler::{kind_eq, Traveler};

fn tokens(src: &str) -> Vec<Token> {
    match lex(src, 4).unwrap().token_type {
        TokenType::Block(c) => c,
        _ => panic!("no block"),
    }
}

#[test]
fn moves_and_bounds() {
    let mut t = Traveler::new(tokens("a b"));
    assert_eq!(t.remaining(), 3);
    assert!(!t.prev());
    assert_eq!(t.current().content, "a");
    assert!(matches!(t.current_kind(), TokenType::Identifier));
    assert_eq!(t.peek(1).unwrap().content, "b");
    assert!(t.peek(3).is_none());
    assert!(t.next());
    assert_eq!(t.current_content(), "b");
    assert!(t.next());
    assert!(t.next());
    assert!(!t.next());
    assert_eq!(t.current_content(), "");
    assert!(t.prev());
    assert_eq!(t.remaining(), 1);
}

#[test]
fn expectations() {
    let t = Traveler::new(tokens("x ="));
    assert_eq!(t.expect(TokenType::Identifier).unwrap(), "x");
    assert_eq!(t.expect(TokenType::Symbol).unwrap_err().kind, ErrorKind::ExpectedKind);
    assert!(t.expect_content("x").is_ok());
    assert_eq!(t.expect_content("y").unwrap_err().kind, ErrorKind::ExpectedContent);
    assert!(kind_eq(&TokenType::Block(vec![]), &TokenType::Block(vec![])));
    assert!(!kind_eq(&TokenType::EOL, &TokenType::Symbol));
}
