use calc_core::lexer::reversed;
use calc_core::text::{collect_chars, push_decimal, push_signed_decimal, text_between};

#[test]
fn decimal_numerals_of_naturals() {
    for (n, expected) in [
        (0u128, "0"),
        (7, "7"),
        (10, "10"),
        (109, "109"),
        (1000, "1000"),
        (u128::MAX, "340282366920938463463374607431768211455"),
    ] {
        let mut text = String::new();
        push_decimal(&mut text, n);
        assert_eq!(text, expected);
    }
}

#[test]
fn decimal_numerals_are_appended() {
    let mut text = String::from("at ");
    push_decimal(&mut text, 12);
    push_signed_decimal(&mut text, -3);
    push_signed_decimal(&mut text, 0);
    assert_eq!(text, "at 12-30");
}

#[test]
fn decimal_numerals_of_integers() {
    for (i, expected) in [(0i128, "0"), (-1, "-1"), (5, "5"), (-120, "-120"), (99, "99")] {
        let mut text = String::new();
        push_signed_decimal(&mut text, i);
        assert_eq!(text, expected);
    }
}

#[test]
fn text_between_two_positions() {
    let chars = vec!['1', '2', '+', '3', '4', '5'];
    assert_eq!(text_between(&chars, 0, 2), "12");
    assert_eq!(text_between(&chars, 3, 6), "345");
    assert_eq!(text_between(&chars, 2, 3), "+");
    assert_eq!(text_between(&chars, 4, 4), "");
    assert_eq!(text_between(&chars, 0, 6), "12+345");
}

#[test]
fn characters_of_a_text_in_order() {
    assert_eq!(collect_chars("1+é"), vec!['1', '+', 'é']);
    assert_eq!(collect_chars(""), Vec::<char>::new());
}

#[test]
fn reversed_turns_the_order_round() {
    assert_eq!(reversed(vec![1, 2, 3]), vec![3, 2, 1]);
    assert_eq!(reversed(Vec::<u8>::new()), Vec::<u8>::new());
    assert_eq!(reversed(vec!['a']), vec!['a']);
}
