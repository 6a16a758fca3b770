//! The lexer: from text to tokens.
//!
//! The text is read as a sequence of characters. A token is the longest run
//! of characters of one category that starts at the cursor; runs of
//! whitespace separate tokens and leave none behind. Lexing ends at the end
//! of the text or at the first character that belongs to no category.

use vstd::prelude::*;

verus! {

/// The mathematical model of a token.
pub ghost enum Lexeme {
    LeftParen,
    RightParen,
    Number(int),
    Symbol(Seq<char>),
}

/// What a token is, with its payload.
#[derive(Debug, PartialEq, Eq)]
pub enum TokenType {
    LeftParen,
    RightParen,
    Number(i64),
    Symbol(String),
}

impl View for TokenType {
    type V = Lexeme;

    open spec fn view(&self) -> Lexeme {
        match self {
            TokenType::LeftParen => Lexeme::LeftParen,
            TokenType::RightParen => Lexeme::RightParen,
            TokenType::Number(n) => Lexeme::Number(*n as int),
            TokenType::Symbol(name) => Lexeme::Symbol(name@),
        }
    }
}

/// A lexical unit of the text.
#[derive(Debug, PartialEq, Eq)]
pub struct Token {
    pub token_type: TokenType,
}

impl View for Token {
    type V = Lexeme;

    open spec fn view(&self) -> Lexeme {
        self.token_type@
    }
}

/// The models of a sequence of tokens, in order.
pub open spec fn lexemes(tokens: Seq<Token>) -> Seq<Lexeme> {
    tokens.map_values(|t: Token| t@)
}

/// The category of a run of characters.
#[derive(Debug, Clone, Copy, PartialEq, Eq)]
pub enum Category {
    LeftParen,
    RightParen,
    Number,
    Symbol,
    Whitespace,
}

/// A decimal digit.
pub open spec fn is_digit(c: char) -> bool {
    '0' <= c <= '9'
}

/// A letter of the basic Latin alphabet.
pub open spec fn is_letter(c: char) -> bool {
    ('a' <= c <= 'z') || ('A' <= c <= 'Z')
}

/// One of the four arithmetic operator characters.
pub open spec fn is_operator(c: char) -> bool {
    c == '+' || c == '-' || c == '*' || c == '/'
}

/// A character with the Unicode property White_Space.
pub open spec fn is_whitespace(c: char) -> bool {
    ||| '\u{9}' <= c <= '\u{d}'
    ||| c == ' '
    ||| c == '\u{85}'
    ||| c == '\u{a0}'
    ||| c == '\u{1680}'
    ||| '\u{2000}' <= c <= '\u{200a}'
    ||| c == '\u{2028}'
    ||| c == '\u{2029}'
    ||| c == '\u{202f}'
    ||| c == '\u{205f}'
    ||| c == '\u{3000}'
}

/// The category of the run that `c` begins, if it can begin one.
pub open spec fn category_of(c: char) -> Option<Category> {
    if c == '(' {
        Some(Category::LeftParen)
    } else if c == ')' {
        Some(Category::RightParen)
    } else if is_digit(c) {
        Some(Category::Number)
    } else if is_letter(c) || is_operator(c) {
        Some(Category::Symbol)
    } else if is_whitespace(c) {
        Some(Category::Whitespace)
    } else {
        None
    }
}

/// Whether `c` carries on a run of the given category.
pub open spec fn continues(category: Category, c: char) -> bool {
    match category {
        Category::LeftParen | Category::RightParen => false,
        Category::Number => is_digit(c),
        Category::Symbol => is_letter(c) || is_digit(c) || is_operator(c),
        Category::Whitespace => is_whitespace(c),
    }
}

/// The number of characters at the front of `text` that carry on a run of the
/// given category.
pub open spec fn run_len(category: Category, text: Seq<char>) -> nat
    decreases text.len(),
{
    if text.len() > 0 && continues(category, text[0]) {
        1 + run_len(category, text.drop_first())
    } else {
        0
    }
}

/// The value of a digit.
pub open spec fn digit_value(c: char) -> int {
    c as int - '0' as int
}

/// The number that a run of digits denotes in base ten.
pub open spec fn decimal_value(digits: Seq<char>) -> int
    decreases digits.len(),
{
    if digits.len() == 0 {
        0
    } else {
        10 * decimal_value(digits.drop_last()) + digit_value(digits.last())
    }
}

/// The token that a run of the given category leaves behind, if any.
pub open spec fn lexeme_of(category: Category, run: Seq<char>) -> Option<Lexeme> {
    match category {
        Category::LeftParen => Some(Lexeme::LeftParen),
        Category::RightParen => Some(Lexeme::RightParen),
        Category::Number => Some(Lexeme::Number(decimal_value(run))),
        Category::Symbol => Some(Lexeme::Symbol(run)),
        Category::Whitespace => None,
    }
}

/// A run never reaches past the end of the text.
pub proof fn lemma_run_len_bound(category: Category, text: Seq<char>)
    ensures
        run_len(category, text) <= text.len(),
    decreases text.len(),
{
    if text.len() > 0 && continues(category, text[0]) {
        lemma_run_len_bound(category, text.drop_first());
    }
}

/// The tokens of a text.
pub open spec fn lex(text: Seq<char>) -> Seq<Lexeme>
    decreases text.len(),
{
    if text.len() == 0 {
        Seq::empty()
    } else {
        match category_of(text[0]) {
            None => Seq::empty(),
            Some(category) => {
                let n = 1 + run_len(category, text.drop_first());
                proof {
                    lemma_run_len_bound(category, text.drop_first());
                }
                let rest = lex(text.skip(n as int));
                match lexeme_of(category, text.take(n as int)) {
                    Some(lexeme) => seq![lexeme] + rest,
                    None => rest,
                }
            },
        }
    }
}

/// Whether every number in the text fits a signed 64-bit integer.
pub open spec fn literals_fit(text: Seq<char>) -> bool {
    forall|i: int|
        0 <= i < lex(text).len() ==> (#[trigger] lex(text)[i] matches Lexeme::Number(n) ==> n
            <= i64::MAX)
}

/// The category of the run that `c` begins, if it can begin one.
pub fn classify(c: char) -> (category: Option<Category>)
    ensures
        category == category_of(c),
{
    if c == '(' {
        Some(Category::LeftParen)
    } else if c == ')' {
        Some(Category::RightParen)
    } else if '0' <= c && c <= '9' {
        Some(Category::Number)
    } else if ('a' <= c && c <= 'z') || ('A' <= c && c <= 'Z') || c == '+' || c == '-' || c == '*'
        || c == '/' {
        Some(Category::Symbol)
    } else if char_is_whitespace(c) {
        Some(Category::Whitespace)
    } else {
        None
    }
}

/// Whether `c` has the Unicode property White_Space.
pub fn char_is_whitespace(c: char) -> (b: bool)
    ensures
        b == is_whitespace(c),
{
    ('\u{9}' <= c && c <= '\u{d}') || c == ' ' || c == '\u{85}' || c == '\u{a0}' || c
        == '\u{1680}' || ('\u{2000}' <= c && c <= '\u{200a}') || c == '\u{2028}' || c
        == '\u{2029}' || c == '\u{202f}' || c == '\u{205f}' || c == '\u{3000}'
}

/// Whether `c` carries on a run of the given category.
fn carries_on(category: Category, c: char) -> (b: bool)
    ensures
        b == continues(category, c),
{
    match category {
        Category::LeftParen | Category::RightParen => false,
        Category::Number => '0' <= c && c <= '9',
        Category::Symbol => ('a' <= c && c <= 'z') || ('A' <= c && c <= 'Z') || ('0' <= c && c
            <= '9') || c == '+' || c == '-' || c == '*' || c == '/',
        Category::Whitespace => char_is_whitespace(c),
    }
}

/// The characters of `text`, in order.
fn chars_of(text: &str) -> (chars: Vec<char>)
    ensures
        chars@ == text@,
{
    let mut chars: Vec<char> = Vec::new();
    for c in it: text.chars()
        invariant
            chars@ == it.seq().take(it.index()),
            it.seq() == text@,
    {
        chars.push(c);
    }
    chars
}

/// The end of the run of the given category that goes on at `from`.
fn run_end(chars: &Vec<char>, category: Category, from: usize) -> (end: usize)
    requires
        from <= chars.len(),
    ensures
        end == from + run_len(category, chars@.skip(from as int)),
        end <= chars.len(),
{
    let mut end: usize = from;
    while end < chars.len() && carries_on(category, chars[end])
        invariant
            from <= end <= chars.len(),
            end + run_len(category, chars@.skip(end as int)) == from + run_len(
                category,
                chars@.skip(from as int),
            ),
        decreases chars.len() - end,
    {
        assert(chars@.skip(end as int).drop_first() =~= chars@.skip(end + 1));
        end += 1;
    }
    end
}

/// Going on with more digits never makes the number smaller.
pub proof fn lemma_decimal_value_grows(digits: Seq<char>, n: int)
    requires
        0 <= n <= digits.len(),
        forall|i: int| 0 <= i < digits.len() ==> is_digit(#[trigger] digits[i]),
    ensures
        0 <= decimal_value(digits.take(n)) <= decimal_value(digits),
    decreases digits.len() - n,
{
    if n == digits.len() {
        assert(digits.take(n) =~= digits);
        lemma_decimal_value_nonnegative(digits);
    } else {
        assert(digits.drop_last().take(n) =~= digits.take(n));
        lemma_decimal_value_grows(digits.drop_last(), n);
    }
}

/// A run of digits denotes no negative number.
pub proof fn lemma_decimal_value_nonnegative(digits: Seq<char>)
    requires
        forall|i: int| 0 <= i < digits.len() ==> is_digit(#[trigger] digits[i]),
    ensures
        0 <= decimal_value(digits),
    decreases digits.len(),
{
    if digits.len() > 0 {
        lemma_decimal_value_nonnegative(digits.drop_last());
    }
}

/// The number that the digits from `start` up to `end` denote, unless it is
/// too large for a signed 64-bit integer.
fn decimal_of(chars: &Vec<char>, start: usize, end: usize) -> (value: Option<i64>)
    requires
        start <= end <= chars.len(),
        forall|i: int| start <= i < end ==> is_digit(#[trigger] chars@[i]),
    ensures
        match value {
            Some(v) => v == decimal_value(chars@.subrange(start as int, end as int)),
            None => decimal_value(chars@.subrange(start as int, end as int)) > i64::MAX,
        },
{
    let ghost digits = chars@.subrange(start as int, end as int);
    let mut value: i64 = 0;
    let mut i: usize = start;
    while i < end
        invariant
            start <= i <= end <= chars.len(),
            digits == chars@.subrange(start as int, end as int),
            forall|j: int| 0 <= j < digits.len() ==> is_digit(#[trigger] digits[j]),
            value == decimal_value(digits.take(i - start)),
            0 <= value,
        decreases end - i,
    {
        assert(is_digit(digits[i - start]) && digits[i - start] == chars@[i as int]);
        let digit: i64 = (chars[i] as u32 - '0' as u32) as i64;
        proof {
            let longer = digits.take(i - start + 1);
            assert(longer.drop_last() =~= digits.take(i - start));
            assert(longer.last() == chars@[i as int]);
            assert(digit == digit_value(digits[i - start]));
            lemma_decimal_value_grows(digits, i - start + 1);
        }
        let next = match value.checked_mul(10) {
            Some(tens) => tens.checked_add(digit),
            None => None,
        };
        match next {
            Some(v) => {
                value = v;
            },
            None => {
                return None;
            },
        }
        i += 1;
    }
    assert(digits.take(end - start) =~= digits);
    Some(value)
}

/// Every character of a run carries it on.
pub proof fn lemma_run_continues(category: Category, text: Seq<char>, i: int)
    requires
        0 <= i < run_len(category, text),
    ensures
        i < text.len(),
        continues(category, text[i]),
    decreases text.len(),
{
    if i > 0 {
        lemma_run_continues(category, text.drop_first(), i - 1);
    }
}

/// The tokens of `expr`, or `None` if a number in it is too large for a
/// signed 64-bit integer.
pub fn try_tokenize(expr: &str) -> (result: Option<Vec<Token>>)
    ensures
        result is Some <==> literals_fit(expr@),
        result matches Some(tokens) ==> lexemes(tokens@) == lex(expr@),
{
    let chars = chars_of(expr);
    let mut tokens: Vec<Token> = Vec::new();
    let mut start: usize = 0;
    assert(lexemes(tokens@) + lex(expr@.skip(0)) =~= lex(expr@)) by {
        assert(expr@.skip(0) =~= expr@);
    }
    while start < chars.len()
        invariant
            chars@ == expr@,
            start <= chars.len(),
            lex(expr@) == lexemes(tokens@) + lex(expr@.skip(start as int)),
        ensures
            lex(expr@) == lexemes(tokens@),
        decreases chars.len() - start,
    {
        let ghost rest = expr@.skip(start as int);
        let ghost before = lexemes(tokens@);
        let category = match classify(chars[start]) {
            Some(category) => category,
            None => {
                assert(lex(rest) =~= Seq::empty());
                assert(lex(expr@) =~= lexemes(tokens@));
                break ;
            },
        };
        let end = run_end(&chars, category, start + 1);
        proof {
            assert(rest.drop_first() =~= expr@.skip(start + 1));
            assert(rest.skip(end - start) =~= expr@.skip(end as int));
            assert(rest.take(end - start) =~= expr@.subrange(start as int, end as int));
        }
        match category {
            Category::LeftParen => {
                tokens.push(Token { token_type: TokenType::LeftParen });
            },
            Category::RightParen => {
                tokens.push(Token { token_type: TokenType::RightParen });
            },
            Category::Number => {
                proof {
                    assert forall|i: int| start <= i < end implies is_digit(
                        #[trigger] chars@[i],
                    ) by {
                        if i > start {
                            lemma_run_continues(category, rest.drop_first(), i - start - 1);
                        }
                    }
                }
                match decimal_of(&chars, start, end) {
                    Some(value) => {
                        tokens.push(Token { token_type: TokenType::Number(value) });
                    },
                    None => {
                        assert(lex(expr@)[before.len() as int] == lex(rest)[0]);
                        return None;
                    },
                }
            },
            Category::Symbol => {
                let name = expr.substring_char(start, end);
                tokens.push(Token { token_type: TokenType::Symbol(String::from_str(name)) });
            },
            Category::Whitespace => {},
        }
        proof {
            match lexeme_of(category, rest.take(end - start)) {
                Some(lexeme) => {
                    assert(lexemes(tokens@) =~= before.push(lexeme));
                    assert(before + (seq![lexeme] + lex(rest.skip(end - start))) =~= before.push(
                        lexeme,
                    ) + lex(rest.skip(end - start)));
                },
                None => {
                    assert(lexemes(tokens@) =~= before);
                },
            }
        }
        start = end;
    }
    Some(tokens)
}

/// The tokens of `expr`, in which every number fits a signed 64-bit integer.
pub fn tokenize(expr: &str) -> (tokens: Vec<Token>)
    requires
        literals_fit(expr@),
    ensures
        lexemes(tokens@) == lex(expr@),
{
    try_tokenize(expr).unwrap()
}

} // verus!
