//! The lexer: from a line of text to its tokens.

use crate::alphabet::{
    char_matches, is_digit, is_operator_symbol, recognized, DIGIT_PATTERN, OPERATOR_PATTERN,
};
use crate::text::{collect_chars, push_char, text_between};
use crate::token::{get_token_score, symbol_score, token_views, Token, TokenView};
use vstd::prelude::*;
use vstd::string::*;

verus! {

/// Why a line of text has no tokens.
#[derive(Debug, Clone, Copy, PartialEq, Eq, Structural)]
pub enum TokenizeError {
    /// The text holds this character, which is neither a digit nor an
    /// operator.
    UnrecognizedCharacter(char),
}

impl TokenizeError {
    /// The text of the error.
    pub open spec fn message_text(self) -> Seq<char> {
        match self {
            TokenizeError::UnrecognizedCharacter(c) => ("Unrecognized char "@).push(c) + "!"@,
        }
    }

    /// The text of the error.
    pub fn message(&self) -> (text: String)
        ensures
            text@ == self.message_text(),
    {
        match self {
            TokenizeError::UnrecognizedCharacter(c) => {
                let mut text = String::from_str("Unrecognized char ");
                push_char(&mut text, *c);
                text.append("!");
                text
            },
        }
    }
}

/// The operator token for the character `c`.
pub open spec fn operator_token(c: char) -> TokenView {
    TokenView::Operator { symbol: seq![c], score: symbol_score(seq![c]) }
}

/// The tokens of a text that starts with `c` and goes on with a text whose
/// tokens are `rest`: a digit joins the value that `rest` starts with, or
/// becomes a value of its own; any other character becomes an operator.
pub open spec fn with_char_before(c: char, rest: Seq<TokenView>) -> Seq<TokenView> {
    if is_digit(c) {
        if rest.len() > 0 && rest[0] is Value {
            seq![TokenView::Value { text: seq![c] + rest[0]->text }] + rest.skip(1)
        } else {
            seq![TokenView::Value { text: seq![c] }] + rest
        }
    } else {
        seq![operator_token(c)] + rest
    }
}

/// The tokens of `s`, in reading order: every maximal run of digits is one
/// value, every other character one operator.
pub open spec fn tokens_of(s: Seq<char>) -> Seq<TokenView>
    decreases s.len(),
{
    if s.len() == 0 {
        Seq::empty()
    } else {
        with_char_before(s[0], tokens_of(s.skip(1)))
    }
}

/// Whether `i` is the position of the last character of `s` that the
/// lexer does not accept.
pub open spec fn is_last_unrecognized(s: Seq<char>, i: int) -> bool {
    &&& 0 <= i < s.len()
    &&& !recognized(s[i])
    &&& forall|j: int| i < j < s.len() ==> recognized(s[j])
}

/// What the lexer makes of `s`: its tokens when it accepts every character,
/// else the last character that it does not accept.
pub open spec fn lexed(s: Seq<char>) -> Result<Seq<TokenView>, TokenizeError> {
    if forall|i: int| 0 <= i < s.len() ==> recognized(s[i]) {
        Ok(tokens_of(s))
    } else {
        Err(TokenizeError::UnrecognizedCharacter(s[choose|i: int| is_last_unrecognized(s, i)]))
    }
}

/// When the character at `i` is not accepted and all after it are, the
/// lexer reports the character at `i`.
pub proof fn lemma_last_unrecognized(s: Seq<char>, i: int)
    requires
        is_last_unrecognized(s, i),
    ensures
        lexed(s) == Err::<Seq<TokenView>, TokenizeError>(
            TokenizeError::UnrecognizedCharacter(s[i]),
        ),
{
    let last = choose|k: int| is_last_unrecognized(s, k);
    assert(last == i);
}

/// A run of digits that ends where the text ends, or where a character
/// that is no digit stands, is one value before the tokens of what follows.
pub proof fn lemma_digit_run(s: Seq<char>, from: int, end: int)
    requires
        0 <= from < end <= s.len(),
        forall|k: int| from <= k < end ==> is_digit(s[k]),
        end < s.len() ==> !is_digit(s[end]),
    ensures
        tokens_of(s.skip(from)) == seq![TokenView::Value { text: s.subrange(from, end) }]
            + tokens_of(s.skip(end)),
    decreases end - from,
{
    let tail = s.skip(from);
    assert(tail.skip(1) =~= s.skip(from + 1));
    assert(tail[0] == s[from]);
    let after = tokens_of(s.skip(end));
    if from + 1 == end {
        if end < s.len() {
            assert(s.skip(end)[0] == s[end]);
            assert(s.skip(end).skip(1) =~= s.skip(end + 1));
            assert(after[0] == operator_token(s[end]));
        } else {
            assert(after.len() == 0);
        }
        assert(s.subrange(from, end) =~= seq![s[from]]);
    } else {
        lemma_digit_run(s, from + 1, end);
        let rest = tokens_of(s.skip(from + 1));
        assert(rest[0] == TokenView::Value { text: s.subrange(from + 1, end) });
        assert(rest.skip(1) =~= after);
        assert(seq![s[from]] + s.subrange(from + 1, end) =~= s.subrange(from, end));
    }
}

/// A text that is not empty and holds digits only is one value with that
/// text.
pub proof fn lemma_digits_are_one_value(s: Seq<char>)
    requires
        s.len() > 0,
        forall|i: int| 0 <= i < s.len() ==> is_digit(s[i]),
    ensures
        tokens_of(s) == seq![TokenView::Value { text: s }],
        lexed(s) == Ok::<Seq<TokenView>, TokenizeError>(seq![TokenView::Value { text: s }]),
{
    lemma_digit_run(s, 0, s.len() as int);
    assert(s.skip(0) =~= s);
    assert(s.subrange(0, s.len() as int) =~= s);
    assert(tokens_of(s.skip(s.len() as int)) =~= Seq::<TokenView>::empty());
    assert(tokens_of(s) =~= seq![TokenView::Value { text: s }]);
}

/// The empty text has no tokens.
pub proof fn lemma_empty_text_has_no_tokens()
    ensures
        lexed(Seq::<char>::empty()) == Ok::<Seq<TokenView>, TokenizeError>(Seq::empty()),
{
}

/// Every token of a text that holds digits and operator characters only
/// is valid, and no value follows a value.
pub proof fn lemma_tokens_valid(s: Seq<char>)
    requires
        forall|i: int| 0 <= i < s.len() ==> recognized(s[i]),
    ensures
        forall|k: int| 0 <= k < tokens_of(s).len() ==> (#[trigger] tokens_of(s)[k]).valid(),
        forall|k: int|
            0 <= k < tokens_of(s).len() - 1 ==> !((#[trigger] tokens_of(s)[k]) is Value
                && tokens_of(s)[k + 1] is Value),
        (s.len() == 0) == (tokens_of(s).len() == 0),
    decreases s.len(),
{
    if s.len() > 0 {
        let tail = s.skip(1);
        let rest = tokens_of(tail);
        let all = tokens_of(s);
        assert forall|i: int| 0 <= i < tail.len() implies recognized(tail[i]) by {
            assert(tail[i] == s[i + 1]);
        }
        lemma_tokens_valid(tail);
        if is_digit(s[0]) && rest.len() > 0 && rest[0] is Value {
            let joined = seq![s[0]] + rest[0]->text;
            assert(rest[0].valid());
            assert forall|i: int| 0 <= i < joined.len() implies is_digit(#[trigger] joined[i]) by {
                if i > 0 {
                    assert(joined[i] == rest[0]->text[i - 1]);
                }
            }
            assert forall|k: int| 0 <= k < all.len() implies (#[trigger] all[k]).valid() by {
                if k > 0 {
                    assert(all[k] == rest[k]);
                }
            }
            assert forall|k: int| 0 <= k < all.len() - 1 implies !((#[trigger] all[k]) is Value
                && all[k + 1] is Value) by {
                assert(all[k + 1] == rest[k + 1]);
                if k > 0 {
                    assert(all[k] == rest[k]);
                }
            }
        } else {
            assert(is_digit(s[0]) || is_operator_symbol(s[0]));
            assert forall|k: int| 0 <= k < all.len() implies (#[trigger] all[k]).valid() by {
                if k > 0 {
                    assert(all[k] == rest[k - 1]);
                }
            }
            assert forall|k: int| 0 <= k < all.len() - 1 implies !((#[trigger] all[k]) is Value
                && all[k + 1] is Value) by {
                assert(all[k + 1] == rest[k]);
                if k > 0 {
                    assert(all[k] == rest[k - 1]);
                }
            }
        }
    }
}

/// The texts of `tokens`, one after the other.
pub open spec fn spelled(tokens: Seq<TokenView>) -> Seq<char>
    decreases tokens.len(),
{
    if tokens.len() == 0 {
        Seq::empty()
    } else {
        tokens[0].text() + spelled(tokens.skip(1))
    }
}

/// The texts of the tokens of `s`, one after the other, are `s`.
pub proof fn lemma_tokens_spell_text(s: Seq<char>)
    ensures
        spelled(tokens_of(s)) == s,
    decreases s.len(),
{
    if s.len() == 0 {
        assert(spelled(tokens_of(s)) =~= s);
    } else {
        let rest = tokens_of(s.skip(1));
        let all = tokens_of(s);
        lemma_tokens_spell_text(s.skip(1));
        if is_digit(s[0]) && rest.len() > 0 && rest[0] is Value {
            assert(all.skip(1) =~= rest.skip(1));
            assert(spelled(all) =~= seq![s[0]] + spelled(rest));
        } else {
            assert(all.skip(1) =~= rest);
        }
        assert(seq![s[0]] + s.skip(1) =~= s);
    }
}

/// The elements of `items`, last first.
pub fn reversed<T>(items: Vec<T>) -> (out: Vec<T>)
    ensures
        out@ == items@.reverse(),
{
    let mut items = items;
    let ghost all = items@;
    let mut out: Vec<T> = Vec::new();
    while items.len() > 0
        invariant
            items@ == all.take(items@.len() as int),
            items@.len() <= all.len(),
            out@ == all.skip(items@.len() as int).reverse(),
        decreases items@.len(),
    {
        let ghost before = items@.len() as int;
        let item = items.pop().unwrap();
        out.push(item);
        assert(items@ =~= all.take(before - 1));
        assert(out@ =~= all.skip(before - 1).reverse());
    }
    assert(out@ =~= all.reverse());
    out
}

/// What has been found, last first, with one more token at its end, is
/// that token before what had been found, first first.
proof fn lemma_found_grows(found: Seq<Token>, token: Token)
    ensures
        token_views(found.push(token)).reverse() == seq![token@] + token_views(found).reverse(),
{
    let grown = token_views(found.push(token)).reverse();
    let expected = seq![token@] + token_views(found).reverse();
    assert(grown.len() == expected.len());
    assert forall|k: int| 0 <= k < grown.len() implies grown[k] == expected[k] by {
        if k > 0 {
            assert(found.push(token)[found.len() - k] == found[found.len() - k]);
        }
    }
    assert(grown =~= expected);
}

/// Closes the literal `chars[from..end]`: a value token with that text is
/// added to what has been found.
fn close_literal(found: &mut Vec<Token>, chars: &Vec<char>, from: usize, end: usize)
    requires
        from < end <= chars.len(),
        forall|k: int| from <= k < end ==> is_digit(chars@[k]),
        end < chars.len() ==> !is_digit(chars@[end as int]),
        token_views(old(found)@).reverse() == tokens_of(chars@.skip(end as int)),
    ensures
        token_views(final(found)@).reverse() == tokens_of(chars@.skip(from as int)),
{
    let literal = text_between(chars, from, end);
    let token = Token::Value { value: literal };
    proof {
        lemma_digit_run(chars@, from as int, end as int);
        lemma_found_grows(found@, token);
    }
    found.push(token);
}

/// Adds the operator token for `chars[at]` to what has been found.
fn add_operator(found: &mut Vec<Token>, chars: &Vec<char>, at: usize)
    requires
        at < chars.len(),
        !is_digit(chars@[at as int]),
        token_views(old(found)@).reverse() == tokens_of(chars@.skip(at + 1)),
    ensures
        token_views(final(found)@).reverse() == tokens_of(chars@.skip(at as int)),
{
    let mut symbol = String::new();
    push_char(&mut symbol, chars[at]);
    let score: u8 = get_token_score(&symbol);
    let token = Token::Operator { value: symbol, score };
    proof {
        lemma_found_grows(found@, token);
        assert(chars@.skip(at as int).skip(1) =~= chars@.skip(at + 1));
        assert(token@ == operator_token(chars@[at as int]));
    }
    found.push(token);
}

/// Splits `input` into tokens, in reading order.
///
/// The text is read from its end to its start. A digit joins the literal
/// in progress; an operator character closes the literal in progress and
/// becomes an operator token with its priority; any other character ends
/// the reading with an error that names it.
pub fn lexer(input: &String) -> (result: Result<Vec<Token>, TokenizeError>)
    ensures
        match result {
            Ok(tokens) => lexed(input@) == Ok::<Seq<TokenView>, TokenizeError>(
                token_views(tokens@),
            ),
            Err(error) => lexed(input@) == Err::<Seq<TokenView>, TokenizeError>(error),
        },
        result is Ok ==> forall|k: int|
            0 <= k < result->Ok_0.len() ==> (#[trigger] result->Ok_0[k])@.valid(),
{
    let chars = collect_chars(input.as_str());
    let n: usize = chars.len();
    let mut found: Vec<Token> = Vec::new();
    let mut i: usize = n;
    let mut end: usize = n;
    assert(tokens_of(chars@.skip(n as int)) =~= token_views(found@).reverse());
    while i > 0
        invariant
            chars@ == input@,
            n == chars.len(),
            i <= end <= n,
            forall|k: int| i <= k < end ==> is_digit(chars@[k]),
            forall|k: int| i <= k < n ==> recognized(chars@[k]),
            end < n ==> !is_digit(chars@[end as int]),
            token_views(found@).reverse() == tokens_of(chars@.skip(end as int)),
        decreases i,
    {
        i -= 1;
        let c: char = chars[i];
        // A digit joins the literal in progress, which is `chars[i..end]`.
        if !char_matches(DIGIT_PATTERN, c) {
            if !char_matches(OPERATOR_PATTERN, c) {
                proof {
                    lemma_last_unrecognized(chars@, i as int);
                }
                return Err(TokenizeError::UnrecognizedCharacter(c));
            }
            if i + 1 < end {
                close_literal(&mut found, &chars, i + 1, end);
            }
            add_operator(&mut found, &chars, i);
            end = i;
        }
    }
    if 0 < end {
        close_literal(&mut found, &chars, 0, end);
    }
    let tokens = reversed(found);
    proof {
        assert(chars@.skip(0) =~= chars@);
        assert(token_views(tokens@) =~= token_views(found@).reverse());
        lemma_tokens_valid(chars@);
        assert forall|k: int| 0 <= k < tokens.len() implies (#[trigger] tokens[k])@.valid() by {
            assert(tokens[k]@ == token_views(tokens@)[k]);
        }
    }
    Ok(tokens)
}

} // verus!
