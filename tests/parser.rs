use cerussite::ast::expr::Expr;
use cerussite::ast::stmt::Stmt;
use cerussite::token::{Token, Tokens};

#[test]
fn parse_expr() {
    let tests = vec![
        Tokens::new(&[Token::Literal("42")]),
        Tokens::new(&[Token::Literal("40"), Token::OpAdd, Token::Literal("2")]),
        Tokens::new(&[
            Token::Literal("42"),
            Token::OpAdd,
            Token::Literal("3"),
            Token::OpMul,
            Token::Literal("7"),
        ]),
        Tokens::new(&[
            Token::Literal("42"),
            Token::OpAdd,
            Token::SyLPar,
            Token::Literal("30"),
            Token::OpSub,
            Token::SyLPar,
            Token::Literal("30"),
            Token::OpSub,
            Token::Literal("15"),
            Token::SyRPar,
            Token::SyRPar,
        ]),
    ];

    for mut tokens in tests {
        println!("{:?}", Expr::parse(&mut tokens));
        assert!(tokens.is_empty());
    }
}

#[test]
fn parse_return() {
    let tokens = &mut Tokens::new(&[Token::KwReturn, Token::Literal("42"), Token::SySemicolon]);
    let _ = Stmt::parse(tokens);
}

#[test]
fn test_tokens() {
    let tokens = Tokens::new(&[]);
    assert!(tokens.is_empty());
    let mut tokens = Tokens::new(&[Token::TyVoid]);
    assert!(!tokens.is_empty());
    assert_eq!(Some(Token::TyVoid), tokens.peek());
    let _ = tokens.eat(Token::TyVoid);
    assert!(tokens.is_empty());
}
