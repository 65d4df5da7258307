use uwucode::ast::{is_builtin, Precedence};
use uwucode::token::{lookup_ident, Token};

#[test]
fn test_lookup_ident() {
    let inputs: Vec<&str> = vec![
        "uwu", "owo", "nuzzles", "dab", "rawr", "sugoi", "truwu", "fowose", "Hello!",
    ];
    let expected = vec![
        Token::FUNCTION,
        Token::LET,
        Token::IF,
        Token::ELIF,
        Token::ELSE,
        Token::RETURN,
        Token::TRUE,
        Token::FALSE,
        Token::IDENT(String::from("Hello!")),
    ];
    for (input, test) in inputs.iter().zip(expected.iter()) {
        assert_eq!(&lookup_ident(input), test);
    }
}

#[test]
fn while_keyword() {
    assert_eq!(lookup_ident("nyaa"), Token::WHILE);
    assert_eq!(lookup_ident("uwuu"), Token::IDENT(String::from("uwuu")));
}

#[test]
fn builtin_names() {
    assert!(is_builtin("len"));
    assert!(is_builtin("quwuit"));
    assert!(is_builtin("dprint"));
    assert!(!is_builtin("print"));
    assert!(!is_builtin(""));
}

#[test]
fn operator_priorities() {
    assert_eq!(Token::PLUS.priority(), Precedence::Sum);
    assert_eq!(Token::MOD.priority(), Precedence::Product);
    assert_eq!(Token::LE.priority(), Precedence::LessGreater);
    assert_eq!(Token::NEQ.priority(), Precedence::Equals);
    assert_eq!(Token::SEMICOLON.priority(), Precedence::Lowest);
    assert_eq!(Precedence::Product.level(), 4);
}
