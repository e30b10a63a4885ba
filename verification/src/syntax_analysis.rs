//! The syntax analysis: every operator stands between two values, and every
//! value stands next to an operator.

use crate::text::{push_signed_decimal, signed_decimal};
use crate::token::{token_views, Token, TokenVariant, TokenView};
use vstd::prelude::*;
use vstd::string::*;

verus! {

/// What the syntax analysis can find wrong, with the position it is found at.
#[derive(Debug, Clone, Copy, PartialEq, Eq, Structural)]
pub enum SyntaxError {
    /// An operator is the first token: `position`, one before it, holds no
    /// value.
    MissingLeftValue { position: i128 },
    /// An operator is the last token: `position`, one past it, holds no
    /// value.
    MissingRightValue { position: i128 },
    /// The neighbour of an operator at `position` is not a value.
    InvalidVariant { position: i128 },
    /// The value at `position` has no operator on either side.
    MissingOperator { position: i128 },
}

impl SyntaxError {
    /// The position that the error reports.
    pub open spec fn position(self) -> i128 {
        match self {
            SyntaxError::MissingLeftValue { position } => position,
            SyntaxError::MissingRightValue { position } => position,
            SyntaxError::InvalidVariant { position } => position,
            SyntaxError::MissingOperator { position } => position,
        }
    }

    /// The text of the error.
    pub open spec fn message_text(self) -> Seq<char> {
        match self {
            SyntaxError::MissingLeftValue { position } =>
                "Syntax Error! Operator missing value at position "@ + signed_decimal(
                    position as int,
                ),
            SyntaxError::MissingRightValue { position } =>
                "Syntax Error! Operator missing value at position "@ + signed_decimal(
                    position as int,
                ),
            SyntaxError::InvalidVariant { position } => "Syntax Error! Invalid token variant at "@
                + signed_decimal(position as int) + ", expected value"@,
            SyntaxError::MissingOperator { position } =>
                "Syntax Error! Value token is missing operator at position "@ + signed_decimal(
                    position as int,
                ),
        }
    }

    /// The text of the error.
    pub fn message(&self) -> (text: String)
        ensures
            text@ == self.message_text(),
    {
        match self {
            SyntaxError::MissingLeftValue { position } => {
                let mut text = String::from_str(
                    "Syntax Error! Operator missing value at position ",
                );
                push_signed_decimal(&mut text, *position);
                text
            },
            SyntaxError::MissingRightValue { position } => {
                let mut text = String::from_str(
                    "Syntax Error! Operator missing value at position ",
                );
                push_signed_decimal(&mut text, *position);
                text
            },
            SyntaxError::InvalidVariant { position } => {
                let mut text = String::from_str("Syntax Error! Invalid token variant at ");
                push_signed_decimal(&mut text, *position);
                text.append(", expected value");
                text
            },
            SyntaxError::MissingOperator { position } => {
                let mut text = String::from_str(
                    "Syntax Error! Value token is missing operator at position ",
                );
                push_signed_decimal(&mut text, *position);
                text
            },
        }
    }
}

/// Whether position `i` is inside `tokens` and holds a value.
pub open spec fn value_at(tokens: Seq<TokenView>, i: int) -> bool {
    0 <= i < tokens.len() && tokens[i] is Value
}

/// Whether position `i` is inside `tokens` and holds an operator.
pub open spec fn operator_at(tokens: Seq<TokenView>, i: int) -> bool {
    0 <= i < tokens.len() && tokens[i] is Operator
}

/// What is wrong at position `i` of `tokens`, if anything.
///
/// An operator needs a value directly before it and directly after it; the
/// left side is looked at first, and a side that lies outside the sequence
/// is reported before a side that holds the wrong kind of token. A value
/// needs an operator directly before it or directly after it.
pub open spec fn fault_at(tokens: Seq<TokenView>, i: int) -> Option<SyntaxError>
    recommends
        0 <= i < tokens.len(),
{
    if tokens[i] is Operator {
        if i - 1 < 0 {
            Some(SyntaxError::MissingLeftValue { position: (i - 1) as i128 })
        } else if i + 1 >= tokens.len() {
            Some(SyntaxError::MissingRightValue { position: (i + 1) as i128 })
        } else if !(tokens[i - 1] is Value) {
            Some(SyntaxError::InvalidVariant { position: (i - 1) as i128 })
        } else if !(tokens[i + 1] is Value) {
            Some(SyntaxError::InvalidVariant { position: (i + 1) as i128 })
        } else {
            None
        }
    } else {
        if operator_at(tokens, i - 1) || operator_at(tokens, i + 1) {
            None
        } else {
            Some(SyntaxError::MissingOperator { position: i as i128 })
        }
    }
}

/// Whether nothing is wrong at any position of `tokens`.
pub open spec fn well_formed(tokens: Seq<TokenView>) -> bool {
    forall|i: int| 0 <= i < tokens.len() ==> fault_at(tokens, i) is None
}

/// Whether `i` is the first position of `tokens` at which something is
/// wrong.
pub open spec fn is_first_fault(tokens: Seq<TokenView>, i: int) -> bool {
    &&& 0 <= i < tokens.len()
    &&& fault_at(tokens, i) is Some
    &&& forall|j: int| 0 <= j < i ==> fault_at(tokens, j) is None
}

/// The outcome of the syntax analysis: success when nothing is wrong
/// anywhere, else the fault at the first position that has one.
pub open spec fn syntax_of(tokens: Seq<TokenView>) -> Result<(), SyntaxError> {
    if well_formed(tokens) {
        Ok(())
    } else {
        Err(fault_at(tokens, choose|i: int| is_first_fault(tokens, i))->0)
    }
}

/// Goes through `tokens` position by position, from the first, and reports the
/// first fault.
pub fn analyze_syntax(tokens: Vec<Token>) -> (result: Result<(), SyntaxError>)
    ensures
        result == syntax_of(token_views(tokens@)),
{
    let ghost views = token_views(tokens@);
    let n: usize = tokens.len();
    let mut i: usize = 0;
    while i < n
        invariant
            n == tokens.len(),
            i <= n,
            views == token_views(tokens@),
            forall|j: int| 0 <= j < i ==> fault_at(views, j) is None,
        decreases n - i,
    {
        let fault: Option<SyntaxError> = match tokens[i].variant() {
            TokenVariant::Operator => {
                if i == 0 {
                    Some(SyntaxError::MissingLeftValue { position: -1 })
                } else if i + 1 >= n {
                    Some(SyntaxError::MissingRightValue { position: i as i128 + 1 })
                } else if tokens[i - 1].variant() != TokenVariant::Value {
                    Some(SyntaxError::InvalidVariant { position: i as i128 - 1 })
                } else if tokens[i + 1].variant() != TokenVariant::Value {
                    Some(SyntaxError::InvalidVariant { position: i as i128 + 1 })
                } else {
                    None
                }
            },
            TokenVariant::Value => {
                let left: bool = i > 0 && tokens[i - 1].variant() == TokenVariant::Operator;
                let right: bool = i + 1 < n && tokens[i + 1].variant() == TokenVariant::Operator;
                if left || right {
                    None
                } else {
                    Some(SyntaxError::MissingOperator { position: i as i128 })
                }
            },
        };
        assert(fault == fault_at(views, i as int));
        if let Some(error) = fault {
            proof {
                let first = choose|k: int| is_first_fault(views, k);
                assert(is_first_fault(views, i as int));
                assert(first == i);
            }
            return Err(error);
        }
        i += 1;
    }
    Ok(())
}

} // verus!
