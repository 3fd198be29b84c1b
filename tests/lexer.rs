use cerussite::lexer::{is_whitespace, tokenize, Lexer};
use cerussite::token::{same_text, CompileError, Token};

#[test]
fn lexes_a_whole_program() {
    let tokens = tokenize("int main(void) {\n\tint x1 = 40;\n  return x1 + 2;\n}").unwrap();
    assert_eq!(
        tokens,
        vec![
            Token::TyInt,
            Token::Ident("main"),
            Token::SyLPar,
            Token::TyVoid,
            Token::SyRPar,
            Token::SyLBrace,
            Token::TyInt,
            Token::Ident("x1"),
            Token::OpAssign,
            Token::Literal("40"),
            Token::SySemicolon,
            Token::KwReturn,
            Token::Ident("x1"),
            Token::OpAdd,
            Token::Literal("2"),
            Token::SySemicolon,
            Token::SyRBrace,
        ]
    );
}

#[test]
fn longest_match_tells_keywords_from_identifiers() {
    assert_eq!(tokenize("int intx returns return").unwrap(), vec![
        Token::TyInt,
        Token::Ident("intx"),
        Token::Ident("returns"),
        Token::KwReturn,
    ]);
}

#[test]
fn literal_then_identifier() {
    assert_eq!(tokenize("42abc").unwrap(), vec![Token::Literal("42"), Token::Ident("abc")]);
}

#[test]
fn operators_and_symbols() {
    assert_eq!(tokenize("+-*/%=(){};").unwrap(), vec![
        Token::OpAdd,
        Token::OpSub,
        Token::OpMul,
        Token::OpDiv,
        Token::OpRem,
        Token::OpAssign,
        Token::SyLPar,
        Token::SyRPar,
        Token::SyLBrace,
        Token::SyRBrace,
        Token::SySemicolon,
    ]);
}

#[test]
fn empty_and_blank_sources() {
    assert_eq!(tokenize("").unwrap(), vec![]);
    assert_eq!(tokenize(" \t\n\u{3000}\u{a0}").unwrap(), vec![]);
}

#[test]
fn unrecognized_character_is_fatal() {
    assert!(matches!(tokenize("return 1 # 2;"), Err(CompileError::UnrecognizedChar('#'))));
}

#[test]
fn lexer_steps_one_token_at_a_time() {
    let mut lexer = Lexer::from_source("  a1 ;");
    assert!(matches!(lexer.next(), Some(Ok(Token::Ident("a1")))));
    assert!(matches!(lexer.next(), Some(Ok(Token::SySemicolon))));
    assert!(lexer.next().is_none());
    let mut lexer = Lexer::from_source("`");
    assert!(matches!(lexer.next(), Some(Err(CompileError::UnrecognizedChar('`')))));
    assert!(lexer.next().is_none());
}

#[test]
fn classification_of_whole_texts() {
    assert_eq!(Token::from_str("int"), Some(Token::TyInt));
    assert_eq!(Token::from_str("_x9"), Some(Token::Ident("_x9")));
    assert_eq!(Token::from_str("007"), Some(Token::Literal("007")));
    assert_eq!(Token::from_str("9x"), None);
    assert_eq!(Token::from_str("a b"), None);
    assert_eq!(Token::from_str(""), None);
    assert_eq!(Token::from_str("é"), None);
}

#[test]
fn whitespace_follows_the_unicode_property() {
    assert!(is_whitespace(' '));
    assert!(is_whitespace('\u{2028}'));
    assert!(!is_whitespace('x'));
    assert!(!is_whitespace('\u{200b}'));
}

#[test]
fn texts_compare_by_characters() {
    assert!(same_text("abc", "abc"));
    assert!(!same_text("abc", "abd"));
    assert!(!same_text("ab", "abc"));
}

#[test]
fn tokenizer_splits_into_pieces() {
    let mut t = cerussite::tokenizer::Tokenizer::from_source("int main ( ) {return 42 + +7;}");
    let mut pieces = vec![];
    while let Some(p) = t.next() {
        pieces.push(p);
    }
    assert_eq!(pieces, vec!["int", "main", "(", ")", "{", "return", "42", "+", "+7", ";", "}"]);
}

#[test]
fn tokenizer_stops_where_no_piece_starts() {
    let mut t = cerussite::tokenizer::Tokenizer::from_source("int x");
    assert_eq!(t.next(), Some("int"));
    assert_eq!(t.next(), None);
    let mut t = cerussite::tokenizer::Tokenizer::from_source("-7");
    assert_eq!(t.next(), None);
    assert!(cerussite::tokenizer::parses_as_i32("-2147483648"));
    assert!(!cerussite::tokenizer::parses_as_i32("2147483648"));
    assert!(cerussite::tokenizer::parses_as_i32("+12"));
    assert!(!cerussite::tokenizer::parses_as_i32("-"));
}
