//! How the stages fit together: what the lexer makes of an expression
//! passes the syntax analysis, and what passes the syntax analysis can be
//! evaluated.

use crate::alphabet::{is_digit, is_operator_symbol, recognized};
use crate::execute::evaluable;
use crate::lexer::{lemma_tokens_valid, lexed, tokens_of, TokenizeError};
use crate::syntax_analysis::{fault_at, syntax_of, value_at, well_formed, SyntaxError};
use crate::token::TokenView;
use vstd::prelude::*;

verus! {

/// Whether values and operators take turns in `tokens`.
pub open spec fn alternating(tokens: Seq<TokenView>) -> bool {
    forall|i: int|
        0 <= i < tokens.len() - 1 ==> ((#[trigger] tokens[i]) is Value) != (tokens[i
            + 1] is Value)
}

/// Whether no operator character directly follows another in `s`.
pub open spec fn operators_apart(s: Seq<char>) -> bool {
    forall|i: int|
        0 <= i < s.len() - 1 ==> !(is_operator_symbol(#[trigger] s[i]) && is_operator_symbol(
            s[i + 1],
        ))
}

/// In the tokens of a text of digits and operator characters that ends
/// with a digit and holds no two operator characters in a row, values and
/// operators take turns, and the last token is a value. The first token is
/// a value exactly when the first character is a digit, and a single token
/// means that the text holds digits only.
pub proof fn lemma_tokens_alternate(s: Seq<char>)
    requires
        s.len() > 0,
        forall|i: int| 0 <= i < s.len() ==> recognized(s[i]),
        operators_apart(s),
        is_digit(s.last()),
    ensures
        tokens_of(s).len() > 0,
        alternating(tokens_of(s)),
        tokens_of(s).last() is Value,
        (tokens_of(s)[0] is Value) == is_digit(s[0]),
        tokens_of(s).len() == 1 ==> forall|i: int| 0 <= i < s.len() ==> is_digit(s[i]),
    decreases s.len(),
{
    let tail = s.skip(1);
    let rest = tokens_of(tail);
    let all = tokens_of(s);
    if s.len() == 1 {
        assert(rest.len() == 0);
        assert(all =~= seq![TokenView::Value { text: seq![s[0]] }]);
    } else {
        assert forall|i: int| 0 <= i < tail.len() implies recognized(tail[i]) by {
            assert(tail[i] == s[i + 1]);
        }
        assert forall|i: int| 0 <= i < tail.len() - 1 implies !(is_operator_symbol(
            #[trigger] tail[i],
        ) && is_operator_symbol(tail[i + 1])) by {
            assert(tail[i] == s[i + 1]);
            assert(tail[i + 1] == s[i + 2]);
        }
        assert(tail.last() == s.last());
        assert(tail[0] == s[1]);
        lemma_tokens_alternate(tail);
        if is_digit(s[0]) {
            if rest[0] is Value {
                assert(all.len() == rest.len());
                assert forall|i: int| 0 <= i < all.len() - 1 implies ((#[trigger] all[i]) is Value)
                    != (all[i + 1] is Value) by {
                    assert(all[i + 1] == rest[i + 1]);
                    if i > 0 {
                        assert(all[i] == rest[i]);
                    }
                    assert((rest[i] is Value) != (rest[i + 1] is Value));
                }
                if all.len() == 1 {
                    assert forall|i: int| 0 <= i < s.len() implies is_digit(s[i]) by {
                        if i > 0 {
                            assert(s[i] == tail[i - 1]);
                        }
                    }
                } else {
                    assert(all.last() == rest.last());
                }
            } else {
                assert(all.len() == rest.len() + 1);
                assert(all.last() == rest.last());
                assert forall|i: int| 0 <= i < all.len() - 1 implies ((#[trigger] all[i]) is Value)
                    != (all[i + 1] is Value) by {
                    assert(all[i + 1] == rest[i]);
                    if i > 0 {
                        assert(all[i] == rest[i - 1]);
                        assert((rest[i - 1] is Value) != (rest[i] is Value));
                    }
                }
            }
        } else {
            assert(is_operator_symbol(s[0]));
            assert(!is_operator_symbol(s[1]));
            assert(is_digit(s[1]));
            assert(all.len() == rest.len() + 1);
            assert(all.last() == rest.last());
            assert forall|i: int| 0 <= i < all.len() - 1 implies ((#[trigger] all[i]) is Value) != (
            all[i + 1] is Value) by {
                assert(all[i + 1] == rest[i]);
                if i > 0 {
                    assert(all[i] == rest[i - 1]);
                    assert((rest[i - 1] is Value) != (rest[i] is Value));
                }
            }
        }
    }
}

/// Tokens in which values and operators take turns, with a value first and
/// last and an operator somewhere, pass the syntax analysis.
pub proof fn lemma_alternating_is_well_formed(tokens: Seq<TokenView>)
    requires
        alternating(tokens),
        tokens.len() > 1,
        tokens[0] is Value,
        tokens.last() is Value,
    ensures
        well_formed(tokens),
        syntax_of(tokens) == Ok::<(), SyntaxError>(()),
{
    assert forall|i: int| 0 <= i < tokens.len() implies fault_at(tokens, i) is None by {
        if i > 0 {
            assert((tokens[i - 1] is Value) != (tokens[i] is Value));
        }
        if i + 1 < tokens.len() {
            assert((tokens[i] is Value) != (tokens[i + 1] is Value));
        }
    }
}

/// The lexer's tokens of an expression pass the syntax analysis: a text of
/// digits and operator characters in which no operator character comes
/// first, last or directly after another, and which is empty or holds at
/// least one operator character.
pub proof fn lemma_expression_passes_analysis(s: Seq<char>)
    requires
        forall|i: int| 0 <= i < s.len() ==> recognized(s[i]),
        operators_apart(s),
        s.len() > 0 ==> !is_operator_symbol(s[0]) && !is_operator_symbol(s.last()),
        s.len() > 0 ==> exists|k: int| 0 <= k < s.len() && is_operator_symbol(s[k]),
    ensures
        lexed(s) == Ok::<Seq<TokenView>, TokenizeError>(tokens_of(s)),
        syntax_of(tokens_of(s)) == Ok::<(), SyntaxError>(()),
{
    if s.len() == 0 {
        assert(well_formed(tokens_of(s)));
    } else {
        lemma_tokens_alternate(s);
        let k = choose|k: int| 0 <= k < s.len() && is_operator_symbol(s[k]);
        assert(!is_digit(s[k]));
        lemma_alternating_is_well_formed(tokens_of(s));
    }
}

/// Tokens that pass the syntax analysis can be evaluated, provided that there
/// is at least one and that every operator among them is one of the four.
pub proof fn lemma_analysed_tokens_are_evaluable(tokens: Seq<TokenView>)
    requires
        syntax_of(tokens) is Ok,
        tokens.len() > 0,
        forall|i: int|
            0 <= i < tokens.len() && tokens[i] is Operator ==> tokens[i].operator_kind() is Some,
    ensures
        evaluable(tokens),
{
    assert(well_formed(tokens));
    assert forall|i: int| 0 <= i < tokens.len() && tokens[i] is Operator implies {
        &&& tokens[i].operator_kind() is Some
        &&& value_at(tokens, i - 1)
        &&& value_at(tokens, i + 1)
    } by {
        assert(fault_at(tokens, i) is None);
    }
}

/// What the lexer makes of a text that is not empty can be evaluated as
/// soon as it passes the syntax analysis.
pub proof fn lemma_analysed_expression_is_evaluable(s: Seq<char>)
    requires
        s.len() > 0,
        lexed(s) is Ok,
        syntax_of(tokens_of(s)) is Ok,
    ensures
        evaluable(tokens_of(s)),
{
    lemma_tokens_valid(s);
    let tokens = tokens_of(s);
    assert forall|i: int| 0 <= i < tokens.len() && tokens[i] is Operator implies tokens[i]
        .operator_kind() is Some by {
        assert(tokens[i].valid());
    }
    lemma_analysed_tokens_are_evaluable(tokens);
}

} // verus!
