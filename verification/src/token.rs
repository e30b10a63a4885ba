//! Tokens: numeric literals and operators with their priority.

use crate::alphabet::{is_digit, is_operator_symbol};
use crate::text::{decimal, push_decimal};
use vstd::prelude::*;
use vstd::string::*;

verus! {

/// Which of the two kinds a token is.
#[derive(Debug, Clone, Copy, PartialEq, Eq, Structural)]
pub enum TokenVariant {
    Value,
    Operator,
}

/// The four arithmetic operators.
#[derive(Debug, Clone, Copy, PartialEq, Eq, Structural)]
pub enum OperatorVariant {
    Mul,
    Div,
    Add,
    Sub,
}

/// A lexical token: a numeric literal, or an operator with its priority.
#[derive(Debug)]
pub enum Token {
    Value { value: String },
    Operator { value: String, score: u8 },
}

/// The mathematical content of a [`Token`].
pub enum TokenView {
    Value { text: Seq<char> },
    Operator { symbol: Seq<char>, score: u8 },
}

/// The operator that an operator character stands for.
pub open spec fn symbol_operator(c: char) -> OperatorVariant
    recommends
        is_operator_symbol(c),
{
    if c == '*' {
        OperatorVariant::Mul
    } else if c == '/' {
        OperatorVariant::Div
    } else if c == '+' {
        OperatorVariant::Add
    } else {
        OperatorVariant::Sub
    }
}

/// The priority of the operator written as `symbol`: 1 for `*` and `/`,
/// 0 for anything else.
pub open spec fn symbol_score(symbol: Seq<char>) -> u8 {
    if symbol == seq!['*'] || symbol == seq!['/'] {
        1
    } else {
        0
    }
}

impl TokenVariant {
    /// The name of the kind.
    pub open spec fn name(self) -> Seq<char> {
        match self {
            TokenVariant::Value => "Value"@,
            TokenVariant::Operator => "Operator"@,
        }
    }

    /// The name of the kind, as text.
    pub fn to_string(&self) -> (text: String)
        ensures
            text@ == self.name(),
    {
        match self {
            TokenVariant::Value => String::from_str("Value"),
            TokenVariant::Operator => String::from_str("Operator"),
        }
    }
}

impl TokenView {
    /// How the token is shown: its kind and text, and the priority of an
    /// operator.
    pub open spec fn description(self) -> Seq<char> {
        match self {
            TokenView::Value { text } => "Value: "@ + text,
            TokenView::Operator { symbol, score } => "Operator: "@ + symbol + " Score: "@
                + decimal(score as nat),
        }
    }

    /// The kind of the token.
    pub open spec fn variant(self) -> TokenVariant {
        match self {
            TokenView::Value { .. } => TokenVariant::Value,
            TokenView::Operator { .. } => TokenVariant::Operator,
        }
    }

    /// The text that the token carries: the literal or the operator symbol.
    pub open spec fn text(self) -> Seq<char> {
        match self {
            TokenView::Value { text } => text,
            TokenView::Operator { symbol, .. } => symbol,
        }
    }

    /// The priority of the token; a value has priority 0.
    pub open spec fn score(self) -> u8 {
        match self {
            TokenView::Value { .. } => 0,
            TokenView::Operator { score, .. } => score,
        }
    }

    /// Whether the token is one that the lexer can produce: a value is a
    /// non-empty run of digits; an operator is one of the four operator
    /// characters, with the priority of that character.
    pub open spec fn valid(self) -> bool {
        match self {
            TokenView::Value { text } => text.len() > 0 && forall|i: int|
                0 <= i < text.len() ==> is_digit(#[trigger] text[i]),
            TokenView::Operator { symbol, score } => symbol.len() == 1 && is_operator_symbol(
                symbol[0],
            ) && score == symbol_score(symbol),
        }
    }

    /// The operator that the token denotes, if it is an operator token whose
    /// symbol is exactly one of the four operator characters.
    pub open spec fn operator_kind(self) -> Option<OperatorVariant> {
        match self {
            TokenView::Operator { symbol, .. } => if symbol.len() == 1 && is_operator_symbol(
                symbol[0],
            ) {
                Some(symbol_operator(symbol[0]))
            } else {
                None
            },
            TokenView::Value { .. } => None,
        }
    }
}

impl View for Token {
    type V = TokenView;

    open spec fn view(&self) -> TokenView {
        match *self {
            Token::Value { value } => TokenView::Value { text: value@ },
            Token::Operator { value, score } => TokenView::Operator { symbol: value@, score },
        }
    }
}

/// The contents of a sequence of tokens, one by one.
pub open spec fn token_views(tokens: Seq<Token>) -> Seq<TokenView> {
    tokens.map_values(|token: Token| token@)
}

impl Clone for Token {
    fn clone(&self) -> (copy: Self)
        ensures
            copy@ == self@,
    {
        match self {
            Token::Value { value } => Token::Value { value: value.clone() },
            Token::Operator { value, score } => Token::Operator {
                value: value.clone(),
                score: *score,
            },
        }
    }
}

impl Token {
    /// A value token that carries `value`.
    pub fn value(value: String) -> (token: Self)
        ensures
            token@ == (TokenView::Value { text: value@ }),
    {
        Token::Value { value }
    }

    /// An operator token that carries the symbol `value` and the priority
    /// `score`.
    pub fn operator(value: String, score: u8) -> (token: Self)
        ensures
            token@ == (TokenView::Operator { symbol: value@, score }),
    {
        Token::Operator { value, score }
    }

    /// The kind of this token.
    pub fn variant(&self) -> (kind: TokenVariant)
        ensures
            kind == self@.variant(),
    {
        match self {
            Token::Value { .. } => TokenVariant::Value,
            Token::Operator { .. } => TokenVariant::Operator,
        }
    }

    /// Whether this is an operator token whose symbol is one of `+ - * /`.
    pub fn is_known_operator(&self) -> (known: bool)
        ensures
            known == self@.operator_kind().is_some(),
    {
        match self {
            Token::Operator { value, .. } => {
                let symbol = value.as_str();
                if symbol.unicode_len() == 1 {
                    let c = symbol.get_char(0);
                    c == '*' || c == '/' || c == '+' || c == '-'
                } else {
                    false
                }
            },
            Token::Value { .. } => false,
        }
    }

    /// The operator that this token denotes.
    pub fn operator_variant(&self) -> (kind: OperatorVariant)
        requires
            self@.operator_kind().is_some(),
        ensures
            Some(kind) == self@.operator_kind(),
    {
        match self {
            Token::Operator { value, .. } => {
                let c = value.as_str().get_char(0);
                if c == '*' {
                    OperatorVariant::Mul
                } else if c == '/' {
                    OperatorVariant::Div
                } else if c == '+' {
                    OperatorVariant::Add
                } else {
                    OperatorVariant::Sub
                }
            },
            Token::Value { .. } => OperatorVariant::Sub,
        }
    }

    /// This token as text, for display.
    pub fn to_string(&self) -> (text: String)
        ensures
            text@ == self@.description(),
    {
        match self {
            Token::Value { value } => String::from_str("Value: ").concat(value.as_str()),
            Token::Operator { value, score } => {
                let mut text = String::from_str("Operator: ");
                text.append(value.as_str());
                text.append(" Score: ");
                push_decimal(&mut text, *score as u128);
                text
            },
        }
    }

    /// The text that this token carries.
    pub fn token_value(&self) -> (text: &str)
        ensures
            text@ == self@.text(),
    {
        match self {
            Token::Value { value } => value.as_str(),
            Token::Operator { value, .. } => value.as_str(),
        }
    }

    /// The priority of this token; a value has priority 0.
    pub fn score(&self) -> (score: &u8)
        ensures
            *score == self@.score(),
    {
        match self {
            Token::Operator { score, .. } => score,
            Token::Value { .. } => &0,
        }
    }
}

/// The priority of the operator written as `token`: 1 for `*` and `/`,
/// 0 otherwise.
pub fn get_token_score(token: &String) -> (score: u8)
    ensures
        score == symbol_score(token@),
{
    let symbol = token.as_str();
    if symbol.unicode_len() == 1 {
        let c = symbol.get_char(0);
        if c == '*' || c == '/' {
            assert(token@ =~= seq![c]);
            1
        } else {
            0
        }
    } else {
        0
    }
}

} // verus!
