//! Laws of the lexer.

use crate::lexer::{
    category_of, continues, is_whitespace, lemma_run_continues, lemma_run_len_bound, lex,
    lexeme_of, run_len, Category,
};
use vstd::prelude::*;

verus! {

/// A run ends where the first character stands that does not carry it on.
pub proof fn lemma_run_len_is(category: Category, text: Seq<char>, n: int)
    requires
        0 <= n <= text.len(),
        forall|i: int| 0 <= i < n ==> continues(category, #[trigger] text[i]),
        n == text.len() || !continues(category, text[n]),
    ensures
        run_len(category, text) == n,
    decreases n,
{
    if n > 0 {
        lemma_run_len_is(category, text.drop_first(), n - 1);
    }
}

/// A run in a text of two parts goes on into the second part only if it
/// covers the whole of the first.
pub proof fn lemma_run_len_concat(category: Category, first: Seq<char>, second: Seq<char>)
    ensures
        run_len(category, first + second) == if run_len(category, first) == first.len() {
            first.len() + run_len(category, second)
        } else {
            run_len(category, first)
        },
    decreases first.len(),
{
    if first.len() == 0 {
        assert(first + second =~= second);
    } else {
        assert((first + second).drop_first() =~= first.drop_first() + second);
        if continues(category, first[0]) {
            lemma_run_len_concat(category, first.drop_first(), second);
        }
    }
}

/// A text that begins with a whole run of one category has the token of that
/// run first, if the run leaves one, and then the tokens of what follows.
pub proof fn lemma_lex_run(category: Category, run: Seq<char>, rest: Seq<char>)
    requires
        run.len() > 0,
        category_of(run[0]) == Some(category),
        forall|i: int| 1 <= i < run.len() ==> continues(category, #[trigger] run[i]),
        rest.len() == 0 || !continues(category, rest[0]),
    ensures
        lex(run + rest) == match lexeme_of(category, run) {
            Some(lexeme) => seq![lexeme] + lex(rest),
            None => lex(rest),
        },
{
    let text = run + rest;
    lemma_run_len_is(category, text.drop_first(), run.len() - 1);
    assert(text.take(run.len() as int) =~= run);
    assert(text.skip(run.len() as int) =~= rest);
}

/// A text that begins with a run that ends before the end of `first` has the
/// token of that run first, if the run leaves one, and then the tokens of what
/// follows the run, whatever `second` is.
pub proof fn lemma_lex_run_inside(category: Category, first: Seq<char>, second: Seq<char>)
    requires
        first.len() > 0,
        category_of(first[0]) == Some(category),
        1 + run_len(category, first.drop_first()) < first.len(),
    ensures
        lex(first + second) == ({
            let n = (1 + run_len(category, first.drop_first())) as int;
            match lexeme_of(category, first.take(n)) {
                Some(lexeme) => seq![lexeme] + lex(first.skip(n) + second),
                None => lex(first.skip(n) + second),
            }
        }),
{
    let n = (1 + run_len(category, first.drop_first())) as int;
    let text = first + second;
    lemma_run_len_concat(category, first.drop_first(), second);
    assert(text.drop_first() =~= first.drop_first() + second);
    assert(text.take(n) =~= first.take(n));
    assert(text.skip(n) =~= first.skip(n) + second);
}

/// A whitespace character begins a run of whitespace.
pub proof fn lemma_whitespace_begins_whitespace(w: char)
    requires
        is_whitespace(w),
    ensures
        category_of(w) == Some(Category::Whitespace),
{
}

/// A whitespace character before a text does not change its tokens.
pub proof fn lemma_lex_whitespace_first(w: char, text: Seq<char>)
    requires
        is_whitespace(w),
    ensures
        lex(seq![w] + text) == lex(text),
{
    let longer = seq![w] + text;
    let n = run_len(Category::Whitespace, text) as int;
    lemma_whitespace_begins_whitespace(w);
    lemma_run_len_bound(Category::Whitespace, text);
    assert(longer.drop_first() =~= text);
    assert(lex(longer) == lex(longer.skip(1 + n)));
    assert(longer.skip(1 + n) =~= text.skip(n));
    if text.len() > 0 && is_whitespace(text[0]) {
        lemma_whitespace_begins_whitespace(text[0]);
        assert(lex(text) == lex(text.skip(n)));
    } else {
        assert(text.skip(0) =~= text);
    }
}

/// A run of whitespace before a text does not change its tokens.
pub proof fn lemma_lex_whitespace_run(run: Seq<char>, text: Seq<char>)
    requires
        forall|i: int| 0 <= i < run.len() ==> is_whitespace(#[trigger] run[i]),
    ensures
        lex(run + text) == lex(text),
    decreases run.len(),
{
    if run.len() == 0 {
        assert(run + text =~= text);
    } else {
        assert(run + text =~= seq![run[0]] + (run.drop_first() + text));
        lemma_lex_whitespace_first(run[0], run.drop_first() + text);
        lemma_lex_whitespace_run(run.drop_first(), text);
    }
}

/// A character that ends every number and every name: a parenthesis or
/// whitespace.
pub open spec fn is_separator(c: char) -> bool {
    c == '(' || c == ')' || is_whitespace(c)
}

/// A separator carries on no run but one of whitespace.
pub proof fn lemma_separator_ends_run(category: Category, c: char)
    requires
        is_separator(c),
        category != Category::Whitespace,
    ensures
        !continues(category, c),
{
}

/// The last character of a run is no separator, unless the run is of
/// whitespace or is one parenthesis.
proof fn lemma_run_ends_in_no_separator(category: Category, run: Seq<char>)
    requires
        run.len() > 0,
        category_of(run[0]) == Some(category),
        forall|i: int| 1 <= i < run.len() ==> continues(category, #[trigger] run[i]),
        category != Category::Whitespace,
    ensures
        is_separator(run.last()) ==> category == Category::LeftParen || category
            == Category::RightParen,
{
    if run.len() > 1 {
        assert(continues(category, run[run.len() - 1]));
    }
}

/// Whitespace that stands next to a separator, or at either end of the text,
/// does not change the tokens: the text with the whitespace character `w`
/// between `before` and `after` has the tokens of the text without it.
pub proof fn lemma_whitespace_is_redundant(before: Seq<char>, w: char, after: Seq<char>)
    requires
        is_whitespace(w),
        before.len() == 0 || after.len() == 0 || is_separator(before.last()) || is_separator(
            after[0],
        ),
    ensures
        lex(before + seq![w] + after) == lex(before + after),
    decreases before.len(),
{
    let spaced = seq![w] + after;
    assert(before + seq![w] + after =~= before + spaced);
    lemma_lex_whitespace_first(w, after);
    if before.len() == 0 {
        assert(before + spaced =~= spaced);
        assert(before + after =~= after);
    } else {
        assert((before + spaced)[0] == before[0]);
        assert((before + after)[0] == before[0]);
        match category_of(before[0]) {
            None => {},
            Some(category) => {
                let tail = before.drop_first();
                let n = (1 + run_len(category, tail)) as int;
                lemma_run_len_bound(category, tail);
                if n < before.len() {
                    lemma_lex_run_inside(category, before, spaced);
                    lemma_lex_run_inside(category, before, after);
                    assert(before.skip(n) + seq![w] + after =~= before.skip(n) + spaced);
                    assert(before.skip(n).last() == before.last());
                    lemma_whitespace_is_redundant(before.skip(n), w, after);
                } else {
                    assert forall|i: int| 1 <= i < before.len() implies continues(
                        category,
                        #[trigger] before[i],
                    ) by {
                        lemma_run_continues(category, tail, i - 1);
                    }
                    if category == Category::Whitespace {
                        lemma_lex_whitespace_run(before, spaced);
                        lemma_lex_whitespace_run(before, after);
                    } else {
                        lemma_separator_ends_run(category, w);
                        if after.len() > 0 {
                            if is_separator(after[0]) {
                                lemma_separator_ends_run(category, after[0]);
                            } else {
                                lemma_run_ends_in_no_separator(category, before);
                            }
                        }
                        lemma_lex_run(category, before, spaced);
                        lemma_lex_run(category, before, after);
                    }
                }
            },
        }
    }
}

} // verus!
