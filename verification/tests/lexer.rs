use calc_core::{lexer, Token, TokenizeError};

fn value_text(token: &Token) -> String {
    match token {
        Token::Value { value } => value.clone(),
        Token::Operator { .. } => panic!("Expected a Value token"),
    }
}

fn operator_parts(token: &Token) -> (String, u8) {
    match token {
        Token::Operator { value, score } => (value.clone(), *score),
        Token::Value { .. } => panic!("Expected an Operator token"),
    }
}

#[test]
fn test_lexer_simple_value() {
    let expected_value = String::from("1");
    let tokens = lexer(&expected_value).unwrap();
    assert_eq!(tokens.len(), 1);
    if let Some(Token::Value { value }) = tokens.get(0) {
        assert_eq!(*value, expected_value);
    }
}

#[test]
fn test_lexer_value_with_operator() {
    let input = String::from("1+");
    let tokens: Vec<Token> = lexer(&input).unwrap();

    assert_eq!(tokens.len(), 2);
    if let Token::Value { value } = &tokens[0] {
        assert_eq!(*value, String::from("1"));
    } else {
        panic!("Expected a Value token");
    }

    if let Token::Operator { value, score: 0 } = &tokens[1] {
        println!("{}", value);
        assert_eq!(*value, "+");
    } else {
        panic!("Expected an Operator token");
    }
}

#[test]
fn test_lexer_simple_sentence() {
    let input = String::from("1+232+33*40");
    let tokens = lexer(&input).unwrap();
    assert_eq!(tokens.len(), 7);

    if let Token::Value { value } = &tokens[2] {
        assert_eq!(*value, String::from("232"));
    } else {
        panic!("Expected a Value token");
    }

    if let Token::Operator { value, score: 1 } = &tokens[5] {
        println!("{}", value);
        assert_eq!(*value, "*");
    } else {
        panic!("Expected an Operator token");
    }
}

#[test]
fn test_empty_input() {
    let input = String::from("");
    let tokens = lexer(&input).unwrap();
    assert_eq!(tokens.len(), 0);
}

#[test]
fn test_should_fail_on_unrecognized_char() {
    let input = String::from("B");
    let tokens = lexer(&input);
    assert!(tokens.is_err());
    assert_eq!(tokens.unwrap_err().message(), "Unrecognized char B!");
}

#[test]
fn unrecognized_character_is_carried_by_the_error() {
    assert_eq!(
        lexer(&String::from("B")).unwrap_err(),
        TokenizeError::UnrecognizedCharacter('B')
    );
}

#[test]
fn digits_only_give_one_value_with_the_whole_text() {
    for text in ["0", "7", "42", "000", "1234567890", "99999999999999999999999999"] {
        let tokens = lexer(&String::from(text)).unwrap();
        assert_eq!(tokens.len(), 1);
        assert_eq!(value_text(&tokens[0]), text);
    }
}

#[test]
fn tokens_come_in_reading_order() {
    let tokens = lexer(&String::from("12-3/45+6*7")).unwrap();
    assert_eq!(tokens.len(), 9);
    assert_eq!(value_text(&tokens[0]), "12");
    assert_eq!(operator_parts(&tokens[1]), (String::from("-"), 0));
    assert_eq!(value_text(&tokens[2]), "3");
    assert_eq!(operator_parts(&tokens[3]), (String::from("/"), 1));
    assert_eq!(value_text(&tokens[4]), "45");
    assert_eq!(operator_parts(&tokens[5]), (String::from("+"), 0));
    assert_eq!(value_text(&tokens[6]), "6");
    assert_eq!(operator_parts(&tokens[7]), (String::from("*"), 1));
    assert_eq!(value_text(&tokens[8]), "7");
}

#[test]
fn operators_alone_are_tokens_too() {
    let tokens = lexer(&String::from("+-*/")).unwrap();
    assert_eq!(tokens.len(), 4);
    assert_eq!(operator_parts(&tokens[0]), (String::from("+"), 0));
    assert_eq!(operator_parts(&tokens[1]), (String::from("-"), 0));
    assert_eq!(operator_parts(&tokens[2]), (String::from("*"), 1));
    assert_eq!(operator_parts(&tokens[3]), (String::from("/"), 1));
}

#[test]
fn whitespace_is_not_recognized() {
    assert_eq!(
        lexer(&String::from("1 + 1")).unwrap_err(),
        TokenizeError::UnrecognizedCharacter(' ')
    );
    assert_eq!(lexer(&String::from("1+1\n")).unwrap_err().message(), "Unrecognized char \n!");
}

#[test]
fn the_last_unrecognized_character_is_reported() {
    assert_eq!(
        lexer(&String::from("a1+b2+c")).unwrap_err(),
        TokenizeError::UnrecognizedCharacter('c')
    );
    assert_eq!(
        lexer(&String::from("x+1")).unwrap_err(),
        TokenizeError::UnrecognizedCharacter('x')
    );
    assert_eq!(
        lexer(&String::from("(1+2)")).unwrap_err(),
        TokenizeError::UnrecognizedCharacter(')')
    );
}

#[test]
fn letters_points_and_signs_of_other_kinds_are_rejected() {
    for (text, bad) in [("1.5", '.'), ("2^3", '^'), ("4%2", '%'), ("1,2", ','), ("é", 'é')] {
        assert_eq!(
            lexer(&String::from(text)).unwrap_err(),
            TokenizeError::UnrecognizedCharacter(bad)
        );
    }
}

#[test]
fn digits_beyond_ascii_count_as_digits() {
    let text = String::from("\u{0663}+\u{0664}");
    let tokens = lexer(&text).unwrap();
    assert_eq!(tokens.len(), 3);
    assert_eq!(value_text(&tokens[0]), "\u{0663}");
    assert_eq!(operator_parts(&tokens[1]), (String::from("+"), 0));
    assert_eq!(value_text(&tokens[2]), "\u{0664}");
}
