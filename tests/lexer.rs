use interpreter::error::Error;
use interpreter::scanner::{fill_keywords, scan, Scanner};
use interpreter::token::{Literal, TokenType};

#[test]
fn operators_and_comments() {
    let ts = scan("!= == <= >= ! = < > / // rest\n( ) { } , . - + ; *").unwrap();
    let kinds: Vec<TokenType> = ts.iter().map(|t| t.token_type).collect();
    assert_eq!(
        kinds,
        vec![
            TokenType::BANG_EQUAL,
            TokenType::EQUAL_EQUAL,
            TokenType::LESS_EQUAL,
            TokenType::GREATER_EQUAL,
            TokenType::BANG,
            TokenType::EQUAL,
            TokenType::LESS,
            TokenType::GREATER,
            TokenType::SLASH,
            TokenType::LEFT_PAREN,
            TokenType::RIGHT_PAREN,
            TokenType::LEFT_BRACE,
            TokenType::RIGHT_BRACE,
            TokenType::COMMA,
            TokenType::DOT,
            TokenType::MINUS,
            TokenType::PLUS,
            TokenType::SEMICOLON,
            TokenType::STAR,
            TokenType::EOF,
        ]
    );
    assert_eq!(ts[0].lexeme, "!=");
    assert_eq!(ts[9].line, 2);
}

#[test]
fn keywords_and_identifiers() {
    let ts = scan("and class else false for fun if nil or print return super this true var while break foo _bar x1").unwrap();
    let kinds: Vec<TokenType> = ts.iter().map(|t| t.token_type).collect();
    assert_eq!(kinds[0], TokenType::AND);
    assert_eq!(kinds[16], TokenType::BREAK);
    assert_eq!(kinds[17], TokenType::IDENTIFIER);
    assert_eq!(ts[17].lexeme, "foo");
    assert_eq!(ts[18].lexeme, "_bar");
    assert_eq!(ts[19].lexeme, "x1");
    assert_eq!(kinds[20], TokenType::EOF);
}

#[test]
fn numbers_and_strings() {
    let ts = scan("123 \"a\nb\" x").unwrap();
    assert_eq!(ts[0].token_type, TokenType::NUMBER);
    assert!(matches!(ts[0].literal, Literal::Number(123)));
    assert_eq!(ts[0].lexeme, "123");
    assert_eq!(ts[1].token_type, TokenType::STRING);
    assert_eq!(ts[1].lexeme, "a\nb");
    match &ts[1].literal {
        Literal::StringLit(s) => assert_eq!(s, "a\nb"),
        _ => panic!("not a string"),
    }
    assert_eq!(ts[1].line, 2);
    assert_eq!(ts[2].line, 2);
}

#[test]
fn trailing_dot_is_not_part_of_number() {
    let ts = scan("12.").unwrap();
    assert_eq!(ts[0].token_type, TokenType::NUMBER);
    assert_eq!(ts[1].token_type, TokenType::DOT);
}

#[test]
fn fractional_numbers_are_rejected() {
    match scan("x = 1.25;") {
        Err(Error::Lexical(1, m, n)) => {
            assert_eq!(m, "fractional numbers are not supported");
            assert_eq!(n, "1.25");
        }
        _ => panic!("expected a lexical error"),
    }
}

#[test]
fn too_large_number_is_rejected() {
    match scan("99999999999999999999") {
        Err(Error::Lexical(_, m, _)) => assert_eq!(m, "number too large"),
        _ => panic!("expected a lexical error"),
    }
    let ts = scan("9223372036854775807").unwrap();
    assert!(matches!(ts[0].literal, Literal::Number(9223372036854775807)));
}

#[test]
fn unterminated_string_is_an_error() {
    match scan("\"abc\nd") {
        Err(Error::Lexical(l, m, _)) => {
            assert_eq!(l, 2);
            assert_eq!(m, "Unterminated string");
        }
        _ => panic!("expected a lexical error"),
    }
}

#[test]
fn unexpected_character_names_it() {
    match scan("a\n  #") {
        Err(Error::Lexical(l, m, n)) => {
            assert_eq!(l, 2);
            assert_eq!(m, "unexpected character");
            assert_eq!(n, "#");
        }
        _ => panic!("expected a lexical error"),
    }
}

#[test]
fn empty_source_is_just_eof() {
    let ts = scan("").unwrap();
    assert_eq!(ts.len(), 1);
    assert_eq!(ts[0].token_type, TokenType::EOF);
    assert_eq!(ts[0].line, 1);
}

#[test]
fn scanner_object_scans_tokens() {
    let mut s = Scanner::new("var x;".to_string());
    let ts = s.scan_tokens().unwrap();
    assert_eq!(ts.len(), 4);
    assert_eq!(ts[1].lexeme, "x");
}

#[test]
fn keyword_table_is_filled() {
    let mut k: Vec<(String, TokenType)> = Vec::new();
    fill_keywords(&mut k);
    assert_eq!(k.len(), 17);
    assert_eq!(k[0].0, "and");
    assert_eq!(k[16].1, TokenType::BREAK);
}

#[test]
fn in_types_checks_membership() {
    let ts = scan("+").unwrap();
    assert!(ts[0].in_types(vec![TokenType::MINUS, TokenType::PLUS]));
    assert!(!ts[0].in_types(vec![TokenType::MINUS]));
}

#[test]
fn scanner_keeps_its_tokens() {
    let mut s = Scanner::new("a\nb".to_string());
    let ts = s.scan_tokens().unwrap();
    assert_eq!(ts.len(), s.tokens.len());
    assert_eq!(s.tokens[1].lexeme, "b");
    assert_eq!(ts[2].line, 2);
}
