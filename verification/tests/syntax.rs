use calc_core::syntax_analysis::{analyze_syntax, SyntaxError};
use calc_core::token::Token;

#[test]
fn test_should_error_on_missing_next_operation_value() {
    let mut tokens: Vec<Token> = Vec::new();
    tokens.push(Token::Value { value: String::from("1") });
    tokens.push(Token::Operator { value: String::from("*"), score: 1 });

    let syntax_result = analyze_syntax(tokens);
    assert!(syntax_result.is_err());
    assert_eq!(
        syntax_result.unwrap_err().message(),
        "Syntax Error! Operator missing value at position 2"
    );
}

#[test]
fn test_should_error_on_missing_next_operation_value_reverse() {
    let mut tokens: Vec<Token> = Vec::new();
    tokens.push(Token::Operator { value: String::from("*"), score: 1 });
    tokens.push(Token::Value { value: String::from("1") });

    let syntax_result = analyze_syntax(tokens);
    assert!(syntax_result.is_err());
    assert_eq!(
        syntax_result.unwrap_err().message(),
        "Syntax Error! Operator missing value at position -1"
    );
}

#[test]
fn test_should_error_on_missing_prev_operation_value() {
    let mut tokens: Vec<Token> = Vec::new();
    tokens.push(Token::Operator { value: String::from("*"), score: 1 });
    tokens.push(Token::Value { value: String::from("1") });

    let syntax_result = analyze_syntax(tokens);
    assert!(syntax_result.is_err());
    assert_eq!(
        syntax_result.unwrap_err().message(),
        "Syntax Error! Operator missing value at position -1"
    );
}

#[test]
fn test_should_error_on_invalid_command() {
    let mut tokens: Vec<Token> = Vec::new();
    tokens.push(Token::Value { value: String::from("1") });
    tokens.push(Token::Operator { value: String::from("*"), score: 1 });
    tokens.push(Token::Operator { value: String::from("*"), score: 1 });

    let syntax_result = analyze_syntax(tokens);
    assert!(syntax_result.is_err());
    assert_eq!(
        syntax_result.unwrap_err().message(),
        "Syntax Error! Invalid token variant at 2, expected value"
    );
}

#[test]
fn test_should_fail_on_missing_operator() {
    let mut tokens: Vec<Token> = Vec::new();
    tokens.push(Token::Value { value: String::from("11") });

    let syntax_result = analyze_syntax(tokens);
    assert!(syntax_result.is_err());
    assert_eq!(
        syntax_result.unwrap_err().message(),
        "Syntax Error! Value token is missing operator at position 0"
    );
}

#[test]
fn missing_right_value_is_reported_one_past_the_end() {
    let tokens = vec![Token::value("1".to_string()), Token::operator("*".to_string(), 1)];
    assert_eq!(analyze_syntax(tokens), Err(SyntaxError::MissingRightValue { position: 2 }));
}
