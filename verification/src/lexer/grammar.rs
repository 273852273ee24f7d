use vstd::prelude::*;
use crate::lexer::classes::{decimal_digit, ident_continue, ident_start, unicode_numeric, unicode_whitespace};
use crate::lexer::cursor::{char_at, newlines};
use crate::lexer::error::{LexerErrorKindView, LexerErrorView};
use crate::lexer::token::{Keyword, NumberView, StringLiteralView, TokenKindView, TokenView};

verus! {

/// The length of the longest prefix of `s` whose characters all satisfy `p`.
pub open spec fn run_len(s: Seq<char>, p: spec_fn(char) -> bool) -> nat
    decreases s.len(),
{
    if s.len() > 0 && p(s[0]) {
        1 + run_len(s.drop_first(), p)
    } else {
        0
    }
}

/// The token that a punctuation character stands for by itself.
pub open spec fn punctuation(c: char) -> Option<TokenKindView> {
    if c == '(' {
        Some(TokenKindView::LeftParen)
    } else if c == ')' {
        Some(TokenKindView::RightParen)
    } else if c == '{' {
        Some(TokenKindView::LeftBrace)
    } else if c == '}' {
        Some(TokenKindView::RightBrace)
    } else if c == ',' {
        Some(TokenKindView::Comma)
    } else if c == '.' {
        Some(TokenKindView::Dot)
    } else if c == '-' {
        Some(TokenKindView::Minus)
    } else if c == '+' {
        Some(TokenKindView::Plus)
    } else if c == ';' {
        Some(TokenKindView::Semicolon)
    } else if c == '*' {
        Some(TokenKindView::Star)
    } else {
        None
    }
}

/// The operator that begins with `c`, alone or followed by `=`.
pub open spec fn operator(c: char, with_equal: bool) -> Option<TokenKindView> {
    if c == '!' {
        Some(if with_equal { TokenKindView::BangEqual } else { TokenKindView::Bang })
    } else if c == '=' {
        Some(if with_equal { TokenKindView::EqualEqual } else { TokenKindView::Equal })
    } else if c == '<' {
        Some(if with_equal { TokenKindView::LessEqual } else { TokenKindView::Less })
    } else if c == '>' {
        Some(if with_equal { TokenKindView::GreaterEqual } else { TokenKindView::Greater })
    } else {
        None
    }
}

/// Whether the second character of `s` is `c`.
pub open spec fn followed_by(s: Seq<char>, c: char) -> bool {
    s.len() > 1 && s[1] == c
}

/// The length of the comment that begins `s`: its two slashes and all that
/// follows up to the next newline, which is left out, or the end.
pub open spec fn comment_len(s: Seq<char>) -> nat {
    2 + run_len(s.skip(2), |c: char| c != '\n')
}

/// The length of the whitespace that begins `s`: the whole run.
pub open spec fn whitespace_len(s: Seq<char>) -> nat {
    1 + run_len(s.skip(1), |c: char| unicode_whitespace(c))
}

/// How many characters stand between the opening quote of the string literal
/// that begins `s` and the next quote, or the end.
pub open spec fn string_body_len(s: Seq<char>) -> nat {
    run_len(s.skip(1), |c: char| c != '"')
}

/// Whether the string literal that begins `s` has its closing quote.
pub open spec fn string_closed(s: Seq<char>) -> bool {
    1 + string_body_len(s) < s.len()
}

/// The length of the string literal that begins `s`, with the quotes that it has.
pub open spec fn string_len(s: Seq<char>) -> nat {
    if string_closed(s) {
        2 + string_body_len(s)
    } else {
        1 + string_body_len(s)
    }
}

/// The length of the run of digits that begins `s`.
pub open spec fn digits_len(s: Seq<char>) -> nat {
    run_len(s, |c: char| unicode_numeric(c))
}

/// The length of the digits that begin the number literal at the start of `s`.
pub open spec fn integer_len(s: Seq<char>) -> nat {
    1 + digits_len(s.skip(1))
}

/// Whether a fraction follows those digits: a dot that a digit follows.
pub open spec fn has_fraction(s: Seq<char>) -> bool {
    char_at(s, integer_len(s) as int) == '.' && unicode_numeric(
        char_at(s, (integer_len(s) + 1) as int),
    )
}

/// The length of the number literal that begins `s`: its digits and, where
/// there is one, its fraction. A dot that no digit follows is left out.
pub open spec fn numeral_len(s: Seq<char>) -> nat {
    if has_fraction(s) {
        integer_len(s) + 1 + digits_len(s.skip((integer_len(s) + 1) as int))
    } else {
        integer_len(s)
    }
}

/// Whether the number literal that begins `s` denotes a value: all of its
/// characters but the dot are decimal digits.
pub open spec fn numeral_valid(s: Seq<char>) -> bool {
    forall|i: int|
        0 <= i < numeral_len(s) && i != integer_len(s) ==> decimal_digit(#[trigger] s[i])
}

/// The length of the identifier or keyword that begins `s`.
pub open spec fn identifier_len(s: Seq<char>) -> nat {
    1 + run_len(s.skip(1), |c: char| ident_continue(c))
}

/// What the lexer makes of the start of a text: a token kind, the number of
/// characters that the token spans, and the error that it records, if any.
pub struct Lexeme {
    pub kind: TokenKindView,
    pub len: nat,
    pub error: Option<LexerErrorKindView>,
}

/// The first lexeme of a non-empty text. The first character decides its
/// class; the cases are tried in the order in which they stand.
pub open spec fn lexeme(s: Seq<char>) -> Lexeme
    recommends
        s.len() > 0,
{
    let c = s[0];
    if punctuation(c) is Some {
        Lexeme { kind: punctuation(c)->0, len: 1, error: None }
    } else if operator(c, false) is Some {
        if followed_by(s, '=') {
            Lexeme { kind: operator(c, true)->0, len: 2, error: None }
        } else {
            Lexeme { kind: operator(c, false)->0, len: 1, error: None }
        }
    } else if c == '/' {
        if followed_by(s, '/') {
            Lexeme { kind: TokenKindView::Comment, len: comment_len(s), error: None }
        } else {
            Lexeme { kind: TokenKindView::Slash, len: 1, error: None }
        }
    } else if unicode_whitespace(c) {
        Lexeme { kind: TokenKindView::Whitespace, len: whitespace_len(s), error: None }
    } else if c == '"' {
        if string_closed(s) {
            Lexeme {
                kind: TokenKindView::String(
                    StringLiteralView::DoubleQuoted(s.take(string_len(s) as int)),
                ),
                len: string_len(s),
                error: None,
            }
        } else {
            Lexeme {
                kind: TokenKindView::String(StringLiteralView::Undelimited),
                len: string_len(s),
                error: Some(LexerErrorKindView::UndelimitedStringLiteral),
            }
        }
    } else if decimal_digit(c) {
        let text = s.take(numeral_len(s) as int);
        if numeral_valid(s) {
            Lexeme {
                kind: TokenKindView::Number(NumberView::Float(text)),
                len: numeral_len(s),
                error: None,
            }
        } else {
            Lexeme {
                kind: TokenKindView::Number(NumberView::Invalid),
                len: numeral_len(s),
                error: Some(LexerErrorKindView::InvalidLiteralNumber { literal: text }),
            }
        }
    } else if ident_start(c) {
        let text = s.take(identifier_len(s) as int);
        Lexeme {
            kind: match Keyword::lookup(text) {
                Some(keyword) => TokenKindView::Keyword(keyword),
                None => TokenKindView::Identifier(text),
            },
            len: identifier_len(s),
            error: None,
        }
    } else {
        Lexeme {
            kind: TokenKindView::Unexpected(c),
            len: 1,
            error: Some(LexerErrorKindView::UnexpectedTokend(TokenKindView::Unexpected(c))),
        }
    }
}

/// The token that begins `s`, when `s` begins on line `line`.
pub open spec fn first_token(s: Seq<char>, line: nat) -> TokenView
    recommends
        s.len() > 0,
{
    TokenView { kind: lexeme(s).kind, len: lexeme(s).len, line_num: line }
}

/// The line on which the text stands that follows the first lexeme of `s`,
/// when `s` begins on line `line`.
pub open spec fn line_after(s: Seq<char>, line: nat) -> nat
    recommends
        s.len() > 0,
{
    line + newlines(s.take(lexeme(s).len as int))
}

/// The errors that the first lexeme of `s` gives rise to, none or one, when
/// `s` begins on line `line`. An error carries the line on which its lexeme
/// ends.
pub open spec fn first_errors(s: Seq<char>, line: nat) -> Seq<LexerErrorView>
    recommends
        s.len() > 0,
{
    match lexeme(s).error {
        Some(kind) => seq![LexerErrorView { kind, line_num: line_after(s, line) }],
        None => Seq::empty(),
    }
}

/// A run is no longer than its text.
pub proof fn lemma_run_len_bounded(s: Seq<char>, p: spec_fn(char) -> bool)
    ensures
        run_len(s, p) <= s.len(),
    decreases s.len(),
{
    if s.len() > 0 && p(s[0]) {
        lemma_run_len_bounded(s.drop_first(), p);
    }
}

/// What makes `n` the length of the run that begins `s`: the first `n`
/// characters satisfy `p`, and the text ends there or goes on with a
/// character that does not.
pub proof fn lemma_run_len_is(s: Seq<char>, p: spec_fn(char) -> bool, n: nat)
    requires
        n <= s.len(),
        forall|i: int| 0 <= i < n ==> p(#[trigger] s[i]),
        n < s.len() ==> !p(s[n as int]),
    ensures
        run_len(s, p) == n,
    decreases n,
{
    if n > 0 {
        let t = s.drop_first();
        assert forall|i: int| 0 <= i < n - 1 implies p(#[trigger] t[i]) by {
            assert(t[i] == s[i + 1]);
        }
        lemma_run_len_is(t, p, (n - 1) as nat);
    }
}

/// Every character of a run satisfies `p`, and the one after it, if any, does not.
pub proof fn lemma_run_len_holds(s: Seq<char>, p: spec_fn(char) -> bool)
    ensures
        forall|i: int| 0 <= i < run_len(s, p) ==> p(#[trigger] s[i]),
        run_len(s, p) < s.len() ==> !p(s[run_len(s, p) as int]),
    decreases s.len(),
{
    if s.len() > 0 && p(s[0]) {
        let t = s.drop_first();
        lemma_run_len_holds(t, p);
        lemma_run_len_bounded(t, p);
        assert forall|i: int| 0 <= i < run_len(s, p) implies p(#[trigger] s[i]) by {
            if i > 0 {
                assert(s[i] == t[i - 1]);
            }
        }
    }
}

/// The first lexeme of a non-empty text holds at least one character and
/// lies within the text.
pub proof fn lemma_lexeme_len_bounded(s: Seq<char>)
    requires
        s.len() > 0,
    ensures
        1 <= lexeme(s).len <= s.len(),
{
    lemma_run_len_bounded(s.skip(2), |c: char| c != '\n');
    lemma_run_len_bounded(s.skip(1), |c: char| unicode_whitespace(c));
    lemma_run_len_bounded(s.skip(1), |c: char| c != '"');
    lemma_run_len_bounded(s.skip(1), |c: char| unicode_numeric(c));
    lemma_run_len_bounded(s.skip(1), |c: char| ident_continue(c));
    lemma_run_len_bounded(s.skip((integer_len(s) + 1) as int), |c: char| unicode_numeric(c));
}

} // verus!
