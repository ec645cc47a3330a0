use rlox::ast::Literal;
use rlox::number::Decimal;
use rlox::scanner::{is_keyword, Scanner};
use rlox::token::TokenType;

#[test]
fn punctuation_and_operators_scan() {
    let scanner = Scanner::new(String::from("(){},.-+;*/ ! != = == < <= > >="));
    let (tokens, errors) = scanner.scan_tokens();
    assert!(errors.is_empty());
    let kinds: Vec<TokenType> = tokens.iter().map(|t| t.token_type).collect();
    assert_eq!(
        kinds,
        vec![
            TokenType::LeftParen,
            TokenType::RightParen,
            TokenType::LeftBrace,
            TokenType::RightBrace,
            TokenType::Comma,
            TokenType::Dot,
            TokenType::Minus,
            TokenType::Plus,
            TokenType::Semicolon,
            TokenType::Star,
            TokenType::Slash,
            TokenType::Bang,
            TokenType::BangEqual,
            TokenType::Equal,
            TokenType::EqualEqual,
            TokenType::Less,
            TokenType::LessEqual,
            TokenType::Greater,
            TokenType::GreaterEqual,
            TokenType::Eof,
        ]
    );
}

#[test]
fn unterminated_string_yields_an_error_and_no_string_token() {
    let scanner = Scanner::new(String::from("\"unterminated"));
    let (tokens, errors) = scanner.scan_tokens();
    assert_eq!(errors.len(), 1);
    assert_eq!(errors[0].message, "Unterminated string");
    assert!(tokens.iter().all(|t| t.token_type != TokenType::Str));
    assert_eq!(tokens.len(), 1);
    assert_eq!(tokens[0].token_type, TokenType::Eof);
}

#[test]
fn string_literal_carries_its_text_and_line() {
    let scanner = Scanner::new(String::from("\"a\nb\""));
    let (tokens, errors) = scanner.scan_tokens();
    assert!(errors.is_empty());
    assert_eq!(tokens[0].token_type, TokenType::Str);
    assert_eq!(tokens[0].lexeme, "\"a\nb\"");
    assert_eq!(tokens[0].literal, Some(Literal::Str(String::from("a\nb"))));
    assert_eq!(tokens[0].line, 2);
}

#[test]
fn number_literals_scan_to_scaled_values() {
    let scanner = Scanner::new(String::from("12 3.5 0.25"));
    let (tokens, errors) = scanner.scan_tokens();
    assert!(errors.is_empty());
    assert_eq!(tokens[0].literal, Some(Literal::Number(Decimal::from_integer(12).unwrap())));
    assert_eq!(tokens[1].lexeme, "3.5");
    assert_eq!(tokens[2].lexeme, "0.25");
}

#[test]
fn number_followed_by_bare_dot_is_two_tokens() {
    let scanner = Scanner::new(String::from("1."));
    let (tokens, errors) = scanner.scan_tokens();
    assert!(errors.is_empty());
    assert_eq!(tokens[0].token_type, TokenType::Number);
    assert_eq!(tokens[1].token_type, TokenType::Dot);
}

#[test]
fn oversized_number_is_a_lexical_error() {
    let scanner = Scanner::new(String::from("100000000000000"));
    let (tokens, errors) = scanner.scan_tokens();
    assert_eq!(errors.len(), 1);
    assert_eq!(errors[0].message, "Number too large");
    assert_eq!(tokens.len(), 1);
}

#[test]
fn unexpected_character_is_reported_and_scanning_continues() {
    let scanner = Scanner::new(String::from("@ +\n#"));
    let (tokens, errors) = scanner.scan_tokens();
    assert_eq!(errors.len(), 2);
    assert_eq!(errors[0].message, "Unexpected character: @");
    assert_eq!(errors[0].line, 1);
    assert_eq!(errors[1].message, "Unexpected character: #");
    assert_eq!(errors[1].line, 2);
    assert_eq!(tokens[0].token_type, TokenType::Plus);
}

#[test]
fn keywords_and_identifiers_are_told_apart() {
    assert_eq!(is_keyword(&String::from("and")), Some(TokenType::And));
    assert_eq!(is_keyword(&String::from("while")), Some(TokenType::While));
    assert_eq!(is_keyword(&String::from("androids")), None);
    let scanner = Scanner::new(String::from("var x_1 = nil;"));
    let (tokens, errors) = scanner.scan_tokens();
    assert!(errors.is_empty());
    assert_eq!(tokens[0].token_type, TokenType::Var);
    assert_eq!(tokens[1].token_type, TokenType::Identifier);
    assert_eq!(tokens[1].lexeme, "x_1");
    assert_eq!(tokens[3].token_type, TokenType::Nil);
}

#[test]
fn line_counter_follows_newlines() {
    let scanner = Scanner::new(String::from("+\n+\n+"));
    let (tokens, errors) = scanner.scan_tokens();
    assert!(errors.is_empty());
    assert_eq!(tokens[0].line, 1);
    assert_eq!(tokens[1].line, 2);
    assert_eq!(tokens[2].line, 3);
}

#[test]
fn scanning_twice_yields_identical_tokens() {
    let source = "var x = 1.5; // note\nprint \"s\";";
    let (t1, e1) = Scanner::new(String::from(source)).scan_tokens();
    let (t2, e2) = Scanner::new(String::from(source)).scan_tokens();
    assert_eq!(e1.len(), 0);
    assert_eq!(e2.len(), 0);
    assert_eq!(t1.len(), t2.len());
    for (a, b) in t1.iter().zip(t2.iter()) {
        assert_eq!(a.token_type, b.token_type);
        assert_eq!(a.lexeme, b.lexeme);
        assert_eq!(a.literal, b.literal);
        assert_eq!(a.line, b.line);
    }
}
