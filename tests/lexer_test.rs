use uwucode::lexer::{LexError, Lexer};
use uwucode::token::Token;

#[test]
fn test_token_basic() {
    let input: &str = "=+(){},;";
    let mut test_lexer = Lexer::new(input);
    let expected = vec![
        Token::ASSIGN,
        Token::PLUS,
        Token::LPAR,
        Token::RPAR,
        Token::LBRA,
        Token::RBRA,
        Token::COMMA,
        Token::SEMICOLON,
    ];
    for test in expected.iter() {
        let current_token = test_lexer.next_token().unwrap();
        assert_eq!(test, &current_token);
    }
}

#[test]
fn test_token_strings() {
    let input: &str = "owo five = 5;
        owo ten = 10;
        owo add = uwu(x,y) {
            x+y;
        };
        ";
    let mut test_lexer = Lexer::new(input);
    let expected = vec![
        Token::LET,
        Token::IDENT(String::from("five")),
        Token::ASSIGN,
        Token::INT(5),
        Token::SEMICOLON,
        Token::LET,
        Token::IDENT(String::from("ten")),
        Token::ASSIGN,
        Token::INT(10),
        Token::SEMICOLON,
        Token::LET,
        Token::IDENT(String::from("add")),
        Token::ASSIGN,
        Token::FUNCTION,
        Token::LPAR,
        Token::IDENT(String::from("x")),
        Token::COMMA,
        Token::IDENT(String::from("y")),
        Token::RPAR,
        Token::LBRA,
        Token::IDENT(String::from("x")),
        Token::PLUS,
        Token::IDENT(String::from("y")),
        Token::SEMICOLON,
        Token::RBRA,
        Token::SEMICOLON,
    ];
    for test in expected.iter() {
        let current_token = test_lexer.next_token().unwrap();
        assert_eq!(test, &current_token);
    }
}

#[test]
fn test_keywords() {
    let input: &str = "owo uwu nuzzles dab rawr sugoi truwu fowose";
    let mut test_lexer = Lexer::new(input);
    let mut expected = vec![
        Token::LET,
        Token::FUNCTION,
        Token::IF,
        Token::ELIF,
        Token::ELSE,
        Token::RETURN,
        Token::TRUE,
        Token::FALSE,
        Token::EOF,
    ];
    expected.reverse();
    let lexed = test_lexer.lex().unwrap();
    assert_eq!(lexed.len(), expected.len());
    for (test, token) in expected.iter().zip(lexed.iter()) {
        assert_eq!(test, token);
    }
}

#[test]
fn two_character_operators() {
    let mut lexer = Lexer::new("== != <= >= < > ! = :3");
    let expected = vec![
        Token::EQ,
        Token::NEQ,
        Token::LEQ,
        Token::GEQ,
        Token::LE,
        Token::GR,
        Token::BANG,
        Token::ASSIGN,
        Token::SEMICOLON,
        Token::EOF,
    ];
    for t in expected.iter() {
        assert_eq!(t, &lexer.next_token().unwrap());
    }
}

#[test]
fn string_literal_and_trailing_operator() {
    let mut lexer = Lexer::new("\"hi there\" =");
    assert_eq!(lexer.next_token().unwrap(), Token::STRING(String::from("hi there")));
    assert_eq!(lexer.next_token().unwrap(), Token::ASSIGN);
    assert_eq!(lexer.next_token().unwrap(), Token::EOF);
}

#[test]
fn identifiers_with_underscores_and_digits_apart() {
    let mut lexer = Lexer::new("my_var 42abc");
    assert_eq!(lexer.next_token().unwrap(), Token::IDENT(String::from("my_var")));
    assert_eq!(lexer.next_token().unwrap(), Token::INT(42));
    assert_eq!(lexer.next_token().unwrap(), Token::IDENT(String::from("abc")));
}

#[test]
fn comments_are_skipped() {
    let mut lexer = Lexer::new("1 /* a * b / c **/ 2");
    let tokens = lexer.lex().unwrap();
    assert_eq!(tokens, vec![Token::EOF, Token::INT(2), Token::INT(1)]);
}

#[test]
fn unterminated_string_fails() {
    let mut lexer = Lexer::new("owo s = \"abc");
    assert_eq!(lexer.lex(), Err(LexError::UnterminatedString));
}

#[test]
fn unterminated_comment_fails() {
    let mut lexer = Lexer::new("1 /* never closed *");
    assert_eq!(lexer.lex(), Err(LexError::UnterminatedComment));
}

#[test]
fn illegal_character_is_reported_after_scanning() {
    let mut lexer = Lexer::new("1 # 2");
    assert_eq!(lexer.next_token().unwrap(), Token::INT(1));
    assert_eq!(lexer.next_token().unwrap(), Token::ILLEGAL(String::from("#")));
    assert_eq!(lexer.next_token().unwrap(), Token::INT(2));
    let mut whole = Lexer::new("1 # 2 ? 3");
    assert_eq!(whole.lex(), Err(LexError::IllegalCharacter('#')));
}

#[test]
fn integer_overflow_fails() {
    let mut lexer = Lexer::new("9223372036854775807");
    assert_eq!(lexer.next_token().unwrap(), Token::INT(i64::MAX));
    let mut too_big = Lexer::new("9223372036854775808");
    assert_eq!(too_big.lex(), Err(LexError::IntegerOverflow));
}

#[test]
fn token_sequence_ends_with_one_end_marker() {
    for src in ["", "   ", "owo x = 1;", "x;  /* c */  ", "nuzzles (a) { b; };"] {
        let tokens = Lexer::new(src).lex().unwrap();
        assert!(!tokens.is_empty());
        assert_eq!(tokens[0], Token::EOF);
        assert_eq!(tokens.iter().filter(|t| **t == Token::EOF).count(), 1);
    }
}

fn render(tokens: &[Token]) -> String {
    let mut out = String::new();
    for t in tokens.iter().rev() {
        let text = match t {
            Token::IDENT(s) => s.clone(),
            Token::INT(v) => v.to_string(),
            Token::STRING(s) => format!("\"{}\"", s),
            Token::ASSIGN => "=".to_string(),
            Token::PLUS => "+".to_string(),
            Token::MINUS => "-".to_string(),
            Token::ASTERISK => "*".to_string(),
            Token::SLASH => "/".to_string(),
            Token::MOD => "%".to_string(),
            Token::EQ => "==".to_string(),
            Token::LEQ => "<=".to_string(),
            Token::LE => "<".to_string(),
            Token::GEQ => ">=".to_string(),
            Token::GR => ">".to_string(),
            Token::NEQ => "!=".to_string(),
            Token::COMMA => ",".to_string(),
            Token::SEMICOLON => ";".to_string(),
            Token::LPAR => "(".to_string(),
            Token::RPAR => ")".to_string(),
            Token::LBRA => "{".to_string(),
            Token::RBRA => "}".to_string(),
            Token::BANG => "!".to_string(),
            Token::FUNCTION => "uwu".to_string(),
            Token::LET => "owo".to_string(),
            Token::RETURN => "sugoi".to_string(),
            Token::IF => "nuzzles".to_string(),
            Token::ELIF => "dab".to_string(),
            Token::ELSE => "rawr".to_string(),
            Token::WHILE => "nyaa".to_string(),
            Token::TRUE => "truwu".to_string(),
            Token::FALSE => "fowose".to_string(),
            Token::EOF => String::new(),
            Token::ILLEGAL(s) => s.clone(),
        };
        out.push_str(&text);
        out.push(' ');
    }
    out
}

#[test]
fn rendered_program_scans_to_the_same_tokens() {
    let src = "uwu fact(n) {nuzzles (n<=1) {sugoi 1;} rawr {sugoi n*fact(n-1);};}; dprint(\"done\") != fowose :3";
    let first = Lexer::new(src).lex().unwrap();
    let again = Lexer::new(&render(&first)).lex().unwrap();
    assert_eq!(first, again);
}
