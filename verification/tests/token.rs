use calc_core::{get_token_score, OperatorVariant, Token, TokenVariant};

#[test]
fn constructors_keep_what_they_are_given() {
    let value = Token::value(String::from("12"));
    assert_eq!(value.variant(), TokenVariant::Value);
    assert_eq!(value.token_value(), "12");
    assert_eq!(*value.score(), 0);

    let operator = Token::operator(String::from("*"), 1);
    assert_eq!(operator.variant(), TokenVariant::Operator);
    assert_eq!(operator.token_value(), "*");
    assert_eq!(*operator.score(), 1);
}

#[test]
fn score_is_the_one_given_not_the_one_of_the_symbol() {
    let operator = Token::operator(String::from("/"), 0);
    assert_eq!(*operator.score(), 0);
    assert_eq!(operator.operator_variant(), OperatorVariant::Div);
}

#[test]
fn operator_variant_of_each_symbol() {
    assert_eq!(Token::operator(String::from("*"), 1).operator_variant(), OperatorVariant::Mul);
    assert_eq!(Token::operator(String::from("/"), 1).operator_variant(), OperatorVariant::Div);
    assert_eq!(Token::operator(String::from("+"), 0).operator_variant(), OperatorVariant::Add);
    assert_eq!(Token::operator(String::from("-"), 0).operator_variant(), OperatorVariant::Sub);
}

#[test]
fn known_operators_are_the_four_symbols() {
    for symbol in ["*", "/", "+", "-"] {
        assert!(Token::operator(String::from(symbol), 0).is_known_operator());
    }
    for symbol in ["", "x", "**", "+-", "%", "1"] {
        assert!(!Token::operator(String::from(symbol), 0).is_known_operator());
    }
    assert!(!Token::value(String::from("+")).is_known_operator());
}

#[test]
fn token_score_of_each_symbol() {
    assert_eq!(get_token_score(&String::from("*")), 1);
    assert_eq!(get_token_score(&String::from("/")), 1);
    assert_eq!(get_token_score(&String::from("+")), 0);
    assert_eq!(get_token_score(&String::from("-")), 0);
    assert_eq!(get_token_score(&String::from("")), 0);
    assert_eq!(get_token_score(&String::from("**")), 0);
    assert_eq!(get_token_score(&String::from("x")), 0);
}

#[test]
fn tokens_and_kinds_as_text() {
    assert_eq!(TokenVariant::Value.to_string(), "Value");
    assert_eq!(TokenVariant::Operator.to_string(), "Operator");
    assert_eq!(Token::value(String::from("232")).to_string(), "Value: 232");
    assert_eq!(Token::operator(String::from("*"), 1).to_string(), "Operator: * Score: 1");
    assert_eq!(Token::operator(String::from("+"), 0).to_string(), "Operator: + Score: 0");
    assert_eq!(Token::operator(String::from("-"), 255).to_string(), "Operator: - Score: 255");
    assert_eq!(Token::operator(String::from("-"), 10).to_string(), "Operator: - Score: 10");
}

#[test]
fn a_clone_carries_the_same_content() {
    let operator = Token::operator(String::from("/"), 1);
    let copy = operator.clone();
    assert_eq!(copy.variant(), TokenVariant::Operator);
    assert_eq!(copy.token_value(), "/");
    assert_eq!(*copy.score(), 1);
    let value = Token::value(String::from("77"));
    assert_eq!(value.clone().token_value(), "77");
}
