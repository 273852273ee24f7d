use vstd::prelude::*;
use crate::lexer::cursor::{lemma_newlines_concat, newlines};
use crate::lexer::error::{LexerError, LexerErrorView};
use crate::lexer::grammar::{
    first_errors, first_token, lemma_lexeme_len_bounded, lexeme, line_after,
};
use crate::lexer::token::{Token, TokenView};

verus! {

/// The views of a sequence of tokens, in order.
pub open spec fn token_views(tokens: Seq<Token>) -> Seq<TokenView> {
    tokens.map_values(|t: Token| t@)
}

/// The views of a sequence of errors, in order.
pub open spec fn error_views(errors: Seq<LexerError>) -> Seq<LexerErrorView> {
    errors.map_values(|e: LexerError| e@)
}

/// The tokens of the text `s`, which begins on line `line`: its first
/// lexeme, then the tokens of what follows it.
pub open spec fn tokens_of(s: Seq<char>, line: nat) -> Seq<TokenView>
    decreases s.len(),
{
    if s.len() == 0 {
        Seq::empty()
    } else {
        proof {
            lemma_lexeme_len_bounded(s);
        }
        seq![first_token(s, line)] + tokens_of(s.skip(lexeme(s).len as int), line_after(s, line))
    }
}

/// The errors of the text `s`, which begins on line `line`, in the order of
/// their lexemes.
pub open spec fn errors_of(s: Seq<char>, line: nat) -> Seq<LexerErrorView>
    decreases s.len(),
{
    if s.len() == 0 {
        Seq::empty()
    } else {
        proof {
            lemma_lexeme_len_bounded(s);
        }
        first_errors(s, line) + errors_of(s.skip(lexeme(s).len as int), line_after(s, line))
    }
}

/// Whether `tokens` and `errors` are what scanning `source` from its start
/// gives.
pub open spec fn is_scan_of(
    source: Seq<char>,
    tokens: Seq<TokenView>,
    errors: Seq<LexerErrorView>,
) -> bool {
    tokens == tokens_of(source, 1) && errors == errors_of(source, 1)
}

/// The text that the spans of `tokens` cover: starting at the beginning of
/// `s`, each token takes as many characters as its length says, and the
/// pieces are joined in order.
pub open spec fn spans(s: Seq<char>, tokens: Seq<TokenView>) -> Seq<char>
    decreases tokens.len(),
{
    if tokens.len() == 0 {
        Seq::empty()
    } else {
        s.take(tokens[0].len as int) + spans(s.skip(tokens[0].len as int), tokens.drop_first())
    }
}

/// The sum of the lengths of `tokens`.
pub open spec fn total_len(tokens: Seq<TokenView>) -> nat
    decreases tokens.len(),
{
    if tokens.len() == 0 {
        0
    } else {
        total_len(tokens.drop_last()) + tokens.last().len
    }
}

/// The tokens preserve the source: their spans, joined in order, are the
/// text that was scanned, and their lengths add up to its length.
pub proof fn lemma_spans_rebuild_source(s: Seq<char>, line: nat)
    ensures
        spans(s, tokens_of(s, line)) == s,
    decreases s.len(),
{
    if s.len() > 0 {
        lemma_lexeme_len_bounded(s);
        let len = lexeme(s).len as int;
        let tail = tokens_of(s.skip(len), line_after(s, line));
        lemma_spans_rebuild_source(s.skip(len), line_after(s, line));
        assert(tokens_of(s, line).drop_first() =~= tail);
        assert(s.take(len) + s.skip(len) =~= s);
    } else {
        assert(spans(s, tokens_of(s, line)) =~= s);
    }
}

/// The tokens cover the source exactly: their lengths add up to its length.
pub proof fn lemma_total_len_is_source_len(s: Seq<char>, line: nat)
    ensures
        total_len(tokens_of(s, line)) == s.len(),
    decreases s.len(),
{
    if s.len() > 0 {
        lemma_lexeme_len_bounded(s);
        let len = lexeme(s).len as int;
        lemma_total_len_is_source_len(s.skip(len), line_after(s, line));
        lemma_total_len_cons(first_token(s, line), tokens_of(s.skip(len), line_after(s, line)));
    }
}

/// The sum of the lengths with one more token in front.
proof fn lemma_total_len_cons(t: TokenView, tokens: Seq<TokenView>)
    ensures
        total_len(seq![t] + tokens) == t.len + total_len(tokens),
    decreases tokens.len(),
{
    if tokens.len() == 0 {
        reveal_with_fuel(total_len, 2);
        assert(seq![t] + tokens =~= seq![t]);
        assert(seq![t].drop_last() =~= Seq::<TokenView>::empty());
    } else {
        assert((seq![t] + tokens).drop_last() =~= seq![t] + tokens.drop_last());
        lemma_total_len_cons(t, tokens.drop_last());
    }
}

/// Every token carries the line on which it begins: the line on which the
/// text begins plus the newlines that stand before the token. For a text
/// scanned from line 1, the newlines before a token are its line minus one.
pub proof fn lemma_token_line_counts_newlines(s: Seq<char>, line: nat, i: int)
    requires
        0 <= i < tokens_of(s, line).len(),
    ensures
        total_len(tokens_of(s, line).take(i)) <= s.len(),
        tokens_of(s, line)[i].line_num == line + newlines(
            s.take(total_len(tokens_of(s, line).take(i)) as int),
        ),
    decreases i,
{
    lemma_lexeme_len_bounded(s);
    let tokens = tokens_of(s, line);
    let len = lexeme(s).len as int;
    let tail = tokens_of(s.skip(len), line_after(s, line));
    if i == 0 {
        assert(tokens.take(0) =~= Seq::<TokenView>::empty());
        assert(s.take(0) =~= Seq::<char>::empty());
    } else {
        lemma_token_line_counts_newlines(s.skip(len), line_after(s, line), i - 1);
        assert(tokens[i] == tail[i - 1]);
        assert(tokens.take(i) =~= seq![first_token(s, line)] + tail.take(i - 1));
        lemma_total_len_cons(first_token(s, line), tail.take(i - 1));
        let before = total_len(tail.take(i - 1)) as int;
        assert(s.take(len + before) =~= s.take(len) + s.skip(len).take(before));
        lemma_newlines_concat(s.take(len), s.skip(len).take(before));
    }
}

/// Every error carries a line of the text: between the line on which the
/// text begins and the line on which it ends.
pub proof fn lemma_error_lines_exist(s: Seq<char>, line: nat, i: int)
    requires
        0 <= i < errors_of(s, line).len(),
    ensures
        line <= errors_of(s, line)[i].line_num <= line + newlines(s),
    decreases s.len(),
{
    lemma_lexeme_len_bounded(s);
    let len = lexeme(s).len as int;
    let tail = errors_of(s.skip(len), line_after(s, line));
    assert(s.take(len) + s.skip(len) =~= s);
    lemma_newlines_concat(s.take(len), s.skip(len));
    if i < first_errors(s, line).len() {
    } else {
        let j = i - first_errors(s, line).len();
        assert(errors_of(s, line)[i] == tail[j]);
        lemma_error_lines_exist(s.skip(len), line_after(s, line), j);
    }
}

/// Scanning is a function of the source: whatever two scans of one source
/// give, token for token and error for error, is the same.
pub proof fn lemma_rescan_gives_the_same(
    source: Seq<char>,
    tokens: Seq<TokenView>,
    errors: Seq<LexerErrorView>,
    tokens_again: Seq<TokenView>,
    errors_again: Seq<LexerErrorView>,
)
    requires
        is_scan_of(source, tokens, errors),
        is_scan_of(source, tokens_again, errors_again),
    ensures
        tokens == tokens_again,
        errors == errors_again,
{
}

} // verus!
