//! The evaluator: which operator is reduced next, what a reduction leaves,
//! and the loop that reduces an expression to one value.

use crate::syntax_analysis::{operator_at, value_at};
use crate::token::{token_views, OperatorVariant, Token, TokenVariant, TokenView};
use vstd::prelude::*;
use vstd::string::*;

verus! {

/// Whether the evaluator can work on `tokens`: there is at least one token,
/// and every operator is one of the four and stands directly between two
/// values.
pub open spec fn evaluable(tokens: Seq<TokenView>) -> bool {
    &&& tokens.len() > 0
    &&& forall|i: int|
        0 <= i < tokens.len() && tokens[i] is Operator ==> {
            &&& tokens[i].operator_kind() is Some
            &&& value_at(tokens, i - 1)
            &&& value_at(tokens, i + 1)
        }
}

/// Whether position `i` holds the operator that is reduced next: no
/// operator before it has a priority as high, and no operator after it has
/// a higher one.
pub open spec fn is_selected(tokens: Seq<TokenView>, i: int) -> bool {
    &&& operator_at(tokens, i)
    &&& forall|j: int| 0 <= j < i && tokens[j] is Operator ==> tokens[j].score() < tokens[i].score()
    &&& forall|j: int|
        i < j < tokens.len() && tokens[j] is Operator ==> tokens[j].score() <= tokens[i].score()
}

/// Whether `tokens` holds no operator.
pub open spec fn operator_free(tokens: Seq<TokenView>) -> bool {
    forall|i: int| 0 <= i < tokens.len() ==> !(tokens[i] is Operator)
}

/// The position of the operator that is reduced next, if there is an
/// operator at all.
pub open spec fn selected(tokens: Seq<TokenView>) -> Option<int> {
    if operator_free(tokens) {
        None
    } else {
        Some(choose|i: int| is_selected(tokens, i))
    }
}

/// At most one position holds the operator that is reduced next.
pub proof fn lemma_selected_unique(tokens: Seq<TokenView>, i: int, j: int)
    requires
        is_selected(tokens, i),
        is_selected(tokens, j),
    ensures
        i == j,
{
}

/// The operator that is reduced next has the highest priority of all, and
/// of the operators with that priority it is the first.
pub proof fn lemma_selected_is_first_of_highest(tokens: Seq<TokenView>, i: int, j: int)
    requires
        is_selected(tokens, i),
        operator_at(tokens, j),
    ensures
        tokens[j].score() <= tokens[i].score(),
        tokens[j].score() == tokens[i].score() ==> i <= j,
{
}

/// Finds the operator that is reduced next: the one with the highest
/// priority, and of several with that priority the first.
pub fn select_operator(tokens: &Vec<Token>) -> (found: Option<usize>)
    ensures
        found.is_none() == operator_free(token_views(tokens@)),
        match found {
            Some(i) => selected(token_views(tokens@)) == Some(i as int) && is_selected(
                token_views(tokens@),
                i as int,
            ),
            None => selected(token_views(tokens@)).is_none(),
        },
{
    let ghost views = token_views(tokens@);
    let n: usize = tokens.len();
    let mut best: Option<usize> = None;
    let mut best_score: u8 = 0;
    let mut i: usize = 0;
    while i < n
        invariant
            n == tokens.len(),
            i <= n,
            views == token_views(tokens@),
            best.is_none() ==> operator_free(views.take(i as int)),
            best.is_some() ==> best.unwrap() < i && is_selected(
                views.take(i as int),
                best.unwrap() as int,
            ) && best_score == views[best.unwrap() as int].score(),
        decreases n - i,
    {
        let ghost seen = views.take(i as int);
        let ghost next = views.take(i + 1);
        assert(forall|j: int| 0 <= j < i ==> seen[j] == next[j]);
        assert(next[i as int] == views[i as int]);
        if tokens[i].variant() == TokenVariant::Operator {
            let score: u8 = *tokens[i].score();
            match best {
                None => {
                    best = Some(i);
                    best_score = score;
                },
                Some(_) => {
                    if score > best_score {
                        best = Some(i);
                        best_score = score;
                    }
                },
            }
        }
        i += 1;
    }
    assert(views.take(n as int) =~= views);
    proof {
        if let Some(k) = best {
            let chosen = choose|j: int| is_selected(views, j);
            lemma_selected_unique(views, chosen, k as int);
        }
    }
    best
}

/// Whether the evaluator can work on `tokens`.
pub fn can_execute(tokens: &Vec<Token>) -> (able: bool)
    ensures
        able == evaluable(token_views(tokens@)),
{
    let ghost views = token_views(tokens@);
    let n: usize = tokens.len();
    if n == 0 {
        return false;
    }
    let mut i: usize = 0;
    while i < n
        invariant
            n == tokens.len(),
            n > 0,
            i <= n,
            views == token_views(tokens@),
            forall|j: int|
                0 <= j < i && views[j] is Operator ==> {
                    &&& views[j].operator_kind() is Some
                    &&& value_at(views, j - 1)
                    &&& value_at(views, j + 1)
                },
        decreases n - i,
    {
        if tokens[i].variant() == TokenVariant::Operator {
            let sound: bool = tokens[i].is_known_operator() && i > 0 && i + 1 < n && tokens[i
                - 1].variant() == TokenVariant::Value && tokens[i + 1].variant()
                == TokenVariant::Value;
            if !sound {
                assert(views[i as int] is Operator);
                return false;
            }
        }
        i += 1;
    }
    true
}

/// What is left of `tokens` when the operator at `i` and the two values
/// around it give way to one value with the text `text`.
pub open spec fn collapsed(tokens: Seq<TokenView>, i: int, text: Seq<char>) -> Seq<TokenView>
    recommends
        0 < i < tokens.len() - 1,
{
    tokens.subrange(0, i - 1).push(TokenView::Value { text }) + tokens.subrange(
        i + 2,
        tokens.len() as int,
    )
}

/// Replaces the operator at `index` and the two tokens around it by one
/// value token that carries `result`; the tokens before and after stay as
/// they are, in their order.
pub fn reduce(tokens: Vec<Token>, index: usize, result: String) -> (reduced: Vec<Token>)
    requires
        0 < index < tokens.len() - 1,
    ensures
        token_views(reduced@) == collapsed(token_views(tokens@), index as int, result@),
{
    let mut reduced = tokens;
    reduced.remove(index + 1);
    reduced.remove(index);
    reduced.set(index - 1, Token::Value { value: result });
    assert(token_views(reduced@) =~= collapsed(token_views(tokens@), index as int, result@));
    reduced
}

/// The arithmetic of an evaluation as a relation: whether applying
/// `operator` to the texts `left` and `right` can give the text `result`.
pub type Arithmetic = spec_fn(OperatorVariant, Seq<char>, Seq<char>, Seq<char>) -> bool;

/// The relation that the function `apply` computes, text by text.
pub open spec fn outcomes<F: Fn(OperatorVariant, &str, &str) -> String>(apply: F) -> Arithmetic {
    |operator: OperatorVariant, left: Seq<char>, right: Seq<char>, result: Seq<char>|
        exists|l: &str, r: &str, t: String|
            l@ == left && r@ == right && t@ == result && #[trigger] call_ensures(
                apply,
                (operator, l, r),
                t,
            )
}

/// Whether `out` is a text that the reduction of `tokens` can end with,
/// when `arithmetic` says what each operator gives.
///
/// With no operator left, the text is that of the first token. Otherwise
/// the operator that is reduced next is applied to the texts of its two
/// neighbours, the three tokens give way to one value that carries the
/// result, and the reduction goes on with what is left.
pub open spec fn reduces_to(arithmetic: Arithmetic, tokens: Seq<TokenView>, out: Seq<char>) -> bool
    decreases tokens.len(),
{
    match selected(tokens) {
        None => tokens.len() > 0 && out == tokens[0].text(),
        Some(i) => {
            &&& 0 < i < tokens.len() - 1
            &&& tokens[i].operator_kind() is Some
            &&& exists|result: Seq<char>|
                {
                    &&& #[trigger] arithmetic(
                        tokens[i].operator_kind()->0,
                        tokens[i - 1].text(),
                        tokens[i + 1].text(),
                        result,
                    )
                    &&& reduces_to(arithmetic, collapsed(tokens, i, result), out)
                }
        },
    }
}

/// Whether `arithmetic` gives at most one result for each operator and
/// pair of operands.
pub open spec fn single_valued(arithmetic: Arithmetic) -> bool {
    forall|operator: OperatorVariant, left: Seq<char>, right: Seq<char>, a: Seq<char>, b: Seq<char>|
        #[trigger] arithmetic(operator, left, right, a) && #[trigger] arithmetic(
            operator,
            left,
            right,
            b,
        ) ==> a == b
}

/// When the arithmetic gives at most one result for each operation, the
/// reduction of `tokens` ends with at most one text.
pub proof fn lemma_reduction_is_determined(
    arithmetic: Arithmetic,
    tokens: Seq<TokenView>,
    a: Seq<char>,
    b: Seq<char>,
)
    requires
        single_valued(arithmetic),
        reduces_to(arithmetic, tokens, a),
        reduces_to(arithmetic, tokens, b),
    ensures
        a == b,
    decreases tokens.len(),
{
    if let Some(i) = selected(tokens) {
        let operator = tokens[i].operator_kind()->0;
        let left = tokens[i - 1].text();
        let right = tokens[i + 1].text();
        let first = choose|result: Seq<char>|
            #[trigger] arithmetic(operator, left, right, result) && reduces_to(
                arithmetic,
                collapsed(tokens, i, result),
                a,
            );
        let second = choose|result: Seq<char>|
            #[trigger] arithmetic(operator, left, right, result) && reduces_to(
                arithmetic,
                collapsed(tokens, i, result),
                b,
            );
        assert(first == second);
        lemma_reduction_is_determined(arithmetic, collapsed(tokens, i, first), a, b);
    }
}

/// A reduction leaves a sequence that the evaluator can work on, two tokens
/// shorter.
pub proof fn lemma_collapsed_evaluable(tokens: Seq<TokenView>, i: int, text: Seq<char>)
    requires
        evaluable(tokens),
        operator_at(tokens, i),
    ensures
        evaluable(collapsed(tokens, i, text)),
        collapsed(tokens, i, text).len() == tokens.len() - 2,
{
    let after = collapsed(tokens, i, text);
    assert forall|j: int| 0 <= j < after.len() && after[j] is Operator implies {
        &&& after[j].operator_kind() is Some
        &&& value_at(after, j - 1)
        &&& value_at(after, j + 1)
    } by {
        if j < i - 1 {
            assert(after[j] == tokens[j]);
            assert(value_at(tokens, j - 1) && value_at(tokens, j + 1));
            assert(after[j - 1] == tokens[j - 1]);
            if j + 1 < i - 1 {
                assert(after[j + 1] == tokens[j + 1]);
            }
        } else {
            assert(j > i - 1);
            assert(after[j] == tokens[j + 2]);
            assert(value_at(tokens, j + 1) && value_at(tokens, j + 3));
            assert(after[j + 1] == tokens[j + 3]);
            if j - 1 > i - 1 {
                assert(after[j - 1] == tokens[j + 1]);
            }
        }
    }
}

/// Reduces `tokens` to one text: as long as an operator is left, the one
/// with the highest priority, and of several the first, is applied by
/// `apply` to the texts of the values around it, and the three tokens give
/// way to one value that carries the result.
pub fn execute<F: Fn(OperatorVariant, &str, &str) -> String>(tokens: Vec<Token>, apply: F) -> (out:
    String)
    requires
        evaluable(token_views(tokens@)),
        forall|operator: OperatorVariant, left: &str, right: &str|
            call_requires(apply, (operator, left, right)),
    ensures
        reduces_to(outcomes(apply), token_views(tokens@), out@),
{
    let ghost start = token_views(tokens@);
    let ghost arithmetic = outcomes(apply);
    let mut current = tokens;
    loop
        invariant
            start == token_views(tokens@),
            arithmetic == outcomes(apply),
            evaluable(token_views(current@)),
            forall|operator: OperatorVariant, left: &str, right: &str|
                call_requires(apply, (operator, left, right)),
            forall|text: Seq<char>|
                reduces_to(arithmetic, token_views(current@), text) ==> reduces_to(
                    arithmetic,
                    start,
                    text,
                ),
        decreases current.len(),
    {
        let ghost views = token_views(current@);
        match select_operator(&current) {
            None => {
                return String::from_str(current[0].token_value());
            },
            Some(i) => {
                let operator = current[i].operator_variant();
                let left = current[i - 1].token_value();
                let right = current[i + 1].token_value();
                let result = apply(operator, left, right);
                proof {
                    lemma_collapsed_evaluable(views, i as int, result@);
                    assert(call_ensures(apply, (operator, left, right), result));
                    assert(arithmetic(
                        views[i as int].operator_kind()->0,
                        views[i - 1].text(),
                        views[i + 1].text(),
                        result@,
                    ));
                }
                current = reduce(current, i, result);
            },
        }
    }
}

} // verus!
