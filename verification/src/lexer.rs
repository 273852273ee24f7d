use vstd::prelude::*;
use crate::lexer::classes::{
    decimal_digit, ident_continue, is_comment_char, is_decimal_digit, is_ident_alpha,
    is_ident_alphanumeric, is_string_char, unicode_numeric, unicode_whitespace,
};
use crate::lexer::cursor::{lemma_newlines_concat, newlines, Cursor};
use crate::lexer::error::{LexerError, LexerErrorKind, LexerErrorKindView, LexerErrorView};
use crate::lexer::grammar::{
    digits_len, first_errors, first_token, lemma_lexeme_len_bounded, lemma_run_len_bounded,
    lemma_run_len_holds, lemma_run_len_is, lexeme, line_after, numeral_len, numeral_valid,
    operator, run_len, string_body_len, string_closed, string_len,
};
use crate::lexer::stream::{
    error_views, errors_of, is_scan_of, lemma_spans_rebuild_source, spans, token_views,
    tokens_of,
};
use crate::lexer::token::{
    Keyword, Number, StringLiteral, Token, TokenKind, TokenKindView, TokenView,
};

pub mod classes;
pub mod cursor;
pub mod error;
pub mod error_report;
pub mod grammar;
pub mod stream;
pub mod token;

verus! {

/// The token of the operator that begins with `c`, alone or followed by `=`,
/// and its length.
fn operator_kind(c: char, with_equal: bool) -> (found: (TokenKind, usize))
    requires
        operator(c, with_equal) is Some,
    ensures
        found.0@ == operator(c, with_equal)->0,
        found.1 == if with_equal {
            2usize
        } else {
            1usize
        },
{
    if c == '!' {
        if with_equal {
            (TokenKind::BangEqual, 2)
        } else {
            (TokenKind::Bang, 1)
        }
    } else if c == '=' {
        if with_equal {
            (TokenKind::EqualEqual, 2)
        } else {
            (TokenKind::Equal, 1)
        }
    } else if c == '<' {
        if with_equal {
            (TokenKind::LessEqual, 2)
        } else {
            (TokenKind::Less, 1)
        }
    } else {
        if with_equal {
            (TokenKind::GreaterEqual, 2)
        } else {
            (TokenKind::Greater, 1)
        }
    }
}

/// Turns source text into tokens, one lexeme at a time.
///
/// Nothing of the source is dropped: comments and whitespace come out as
/// tokens too. A malformed lexeme still gives a token; the error goes to a
/// list that grows in the order of discovery, and scanning goes on behind the
/// lexeme.
pub struct Lexer<'a> {
    cursor: Cursor<'a>,
    errors: Vec<LexerError>,
}

impl<'a> Lexer<'a> {
    /// The characters scanned so far.
    pub closed spec fn consumed(&self) -> Seq<char> {
        self.cursor.consumed()
    }

    /// The characters not scanned yet.
    pub closed spec fn rest(&self) -> Seq<char> {
        self.cursor.rest()
    }

    /// The whole source: what was scanned, then what was not.
    pub open spec fn source(&self) -> Seq<char> {
        self.consumed() + self.rest()
    }

    /// The line on which the next lexeme begins.
    pub open spec fn line(&self) -> nat {
        1 + newlines(self.consumed())
    }

    /// The errors recorded so far, oldest first.
    pub closed spec fn recorded(&self) -> Seq<LexerErrorView> {
        error_views(self.errors@)
    }

    /// What one step of scanning does. At the end of the source it gives no
    /// token and changes nothing. Before the end it gives the token of the
    /// first lexeme ahead, on the line reached so far, moves behind that
    /// lexeme, and records the error of the lexeme if it has one.
    pub open spec fn steps_to(self, after: Lexer<'a>, token: Option<Token>) -> bool {
        if self.rest().len() == 0 {
            token is None && after == self
        } else {
            let len = lexeme(self.rest()).len as int;
            &&& token is Some
            &&& token->0@ == first_token(self.rest(), self.line())
            &&& after.rest() == self.rest().skip(len)
            &&& after.consumed() == self.consumed() + self.rest().take(len)
            &&& after.recorded() == self.recorded() + first_errors(self.rest(), self.line())
        }
    }

    /// Creates a lexer at the start of `source`, with no error recorded.
    ///
    /// The source has to be short enough for its lines to be counted in a
    /// `usize`. A text of fewer than `usize::MAX` bytes is: see
    /// `lemma_chars_within_bytes`.
    pub fn new(source: &'a str) -> (lexer: Lexer<'a>)
        requires
            source@.len() < usize::MAX,
        ensures
            lexer.consumed() == Seq::<char>::empty(),
            lexer.rest() == source@,
            lexer.recorded() == Seq::<LexerErrorView>::empty(),
    {
        Lexer { cursor: Cursor::new(source), errors: Vec::new() }
    }

    /// Scans all that is left of the source and returns its tokens together
    /// with every error recorded, those of earlier calls first.
    ///
    /// The spans of the tokens, joined in order, are the text that was left.
    /// For a lexer that has not scanned anything yet, the result is the scan
    /// of its source, the same each time.
    pub fn collect_tokens(self) -> (scanned: (Vec<Token>, Vec<LexerError>))
        ensures
            token_views(scanned.0@) == tokens_of(self.rest(), self.line()),
            error_views(scanned.1@) == self.recorded() + errors_of(self.rest(), self.line()),
            spans(self.rest(), token_views(scanned.0@)) == self.rest(),
            self.consumed().len() == 0 && self.recorded().len() == 0 ==> is_scan_of(
                self.rest(),
                token_views(scanned.0@),
                error_views(scanned.1@),
            ),
    {
        let mut lexer = self;
        let mut tokens: Vec<Token> = Vec::new();
        let ghost start = lexer.rest();
        let ghost line = lexer.line();
        let ghost recorded = lexer.recorded();
        proof {
            assert(token_views(tokens@) =~= Seq::<TokenView>::empty());
            assert(Seq::<TokenView>::empty() + tokens_of(start, line) =~= tokens_of(start, line));
        }
        loop
            invariant
                token_views(tokens@) + tokens_of(lexer.rest(), lexer.line()) == tokens_of(
                    start,
                    line,
                ),
                lexer.recorded() + errors_of(lexer.rest(), lexer.line()) == recorded + errors_of(
                    start,
                    line,
                ),
            ensures
                token_views(tokens@) == tokens_of(start, line),
                lexer.recorded() == recorded + errors_of(start, line),
            decreases lexer.rest().len(),
        {
            let ghost rest = lexer.rest();
            let ghost here = lexer.line();
            let ghost seen = lexer.recorded();
            let ghost past = lexer.consumed();
            let ghost views = token_views(tokens@);
            proof {
                if rest.len() > 0 {
                    lemma_lexeme_len_bounded(rest);
                }
            }
            match lexer.scan_token() {
                Some(token) => {
                    proof {
                        lemma_newlines_concat(past, rest.take(token.len as int));
                    }
                    tokens.push(token);
                    proof {
                        let len = lexeme(rest).len as int;
                        assert(lexer.line() == line_after(rest, here));
                        assert(token_views(tokens@) =~= views.push(first_token(rest, here)));
                        assert(views.push(first_token(rest, here)) + tokens_of(
                            rest.skip(len),
                            line_after(rest, here),
                        ) =~= views + tokens_of(rest, here));
                        assert(seen + first_errors(rest, here) + errors_of(
                            rest.skip(len),
                            line_after(rest, here),
                        ) =~= seen + errors_of(rest, here));
                    }
                },
                None => {
                    proof {
                        assert(views + Seq::<TokenView>::empty() =~= views);
                        assert(seen + Seq::<LexerErrorView>::empty() =~= seen);
                    }
                    break ;
                },
            }
        }
        proof {
            lemma_spans_rebuild_source(start, line);
            if self.consumed().len() == 0 && self.recorded().len() == 0 {
                assert(self.consumed() =~= Seq::<char>::empty());
                assert(recorded + errors_of(start, line) =~= errors_of(start, line));
            }
        }
        (tokens, lexer.errors)
    }

    /// The lexical errors found so far, in the order of discovery.
    pub fn errors(&self) -> (errors: &[LexerError])
        ensures
            error_views(errors@) == self.recorded(),
    {
        self.errors.as_slice()
    }

    /// Scans the next lexeme and returns its token, or `None` once the source
    /// is exhausted.
    ///
    /// The token begins on the line that the lexer had reached: one more than
    /// the number of newlines in the source before the token. A malformed
    /// lexeme gives a token all the same, and its error joins the list.
    pub fn next(&mut self) -> (token: Option<Token>)
        ensures
            old(self).steps_to(*final(self), token),
            token is Some ==> newlines(old(self).consumed()) == token->0.line_num - 1,
            final(self).source() == old(self).source(),
    {
        self.scan_token()
    }

    fn scan_token(&mut self) -> (token: Option<Token>)
        ensures
            old(self).steps_to(*final(self), token),
            final(self).source() == old(self).source(),
    {
        let s = self.cursor.as_str();
        let line_num = self.cursor.line_num();
        let ghost text = s@;
        let ghost before = self.cursor.consumed();
        let ghost line = self.line();

        let c = match self.cursor.bump() {
            Some(c) => c,
            None => {
                return None;
            },
        };
        proof {
            use_type_invariant(&self.cursor);
            self.cursor.lemma_wf_bounded();
            lemma_lexeme_len_bounded(text);
            assert(text.drop_first() =~= text.skip(1));
            assert(before.push(c) =~= before + text.take(1));
            assert(self.recorded() + Seq::<LexerErrorView>::empty() =~= self.recorded());
        }
        let (kind, len) = match c {
            '(' => (TokenKind::LeftParen, 1),
            ')' => (TokenKind::RightParen, 1),
            '{' => (TokenKind::LeftBrace, 1),
            '}' => (TokenKind::RightBrace, 1),
            ',' => (TokenKind::Comma, 1),
            '.' => (TokenKind::Dot, 1),
            '-' => (TokenKind::Minus, 1),
            '+' => (TokenKind::Plus, 1),
            ';' => (TokenKind::Semicolon, 1),
            '*' => (TokenKind::Star, 1),
            '!' | '=' | '<' | '>' => {
                let with_equal = self.cursor.bump_if_eq('=').is_some();
                proof {
                    if with_equal {
                        assert(text.skip(1).drop_first() =~= text.skip(2));
                        assert(before.push(c).push('=') =~= before + text.take(2));
                    }
                }
                self::operator_kind(c, with_equal)
            },
            '/' => {
                if self.cursor.bump_if_eq('/').is_some() {
                    proof {
                        assert(text.skip(1).drop_first() =~= text.skip(2));
                        lemma_run_len_bounded(text.skip(2), |c: char| c != '\n');
                    }
                    let len = self.scan_while(is_comment_char, Ghost(|c: char| c != '\n'), 2);
                    proof {
                        assert(text.skip(2).skip(len - 2) =~= text.skip(len as int));
                        assert(before.push(c).push('/') + text.skip(2).take(len - 2) =~= before
                            + text.take(len as int));
                    }
                    (TokenKind::Comment, len)
                } else {
                    (TokenKind::Slash, 1)
                }
            },
            _ => {
                if c.is_whitespace() {
                    proof {
                        lemma_run_len_bounded(text.skip(1), |c: char| unicode_whitespace(c));
                    }
                    let len = self.scan_while(
                        char::is_whitespace,
                        Ghost(|c: char| unicode_whitespace(c)),
                        1,
                    );
                    proof {
                        assert(text.skip(1).skip(len - 1) =~= text.skip(len as int));
                        assert(before.push(c) + text.skip(1).take(len - 1) =~= before + text.take(
                            len as int,
                        ));
                    }
                    (TokenKind::Whitespace, len)
                } else if c == '"' {
                    let (literal, len) = self.scan_string_literal(s);
                    proof {
                        assert(before.push(c) + text.subrange(1, len as int) =~= before
                            + text.take(len as int));
                    }
                    match literal {
                        Some(value) => (TokenKind::String(StringLiteral::DoubleQuoted(value)), len),
                        None => (TokenKind::String(StringLiteral::Undelimited), len),
                    }
                } else if is_decimal_digit(c) {
                    let (literal, len) = self.scan_numeral_literal(s);
                    proof {
                        assert(before.push(c) + text.subrange(1, len as int) =~= before
                            + text.take(len as int));
                    }
                    match literal {
                        Some(value) => (TokenKind::Number(Number::Float(value)), len),
                        None => (TokenKind::Number(Number::Invalid), len),
                    }
                } else if is_ident_alpha(c) {
                    proof {
                        lemma_run_len_bounded(text.skip(1), |c: char| ident_continue(c));
                    }
                    let len = self.scan_while(
                        is_ident_alphanumeric,
                        Ghost(|c: char| ident_continue(c)),
                        1,
                    );
                    proof {
                        assert(text.skip(1).skip(len - 1) =~= text.skip(len as int));
                        assert(before.push(c) + text.skip(1).take(len - 1) =~= before + text.take(
                            len as int,
                        ));
                    }
                    let ident = s.substring_char(0, len);
                    match Keyword::from_str(ident) {
                        Some(keyword) => (TokenKind::Keyword(keyword), len),
                        None => (TokenKind::Identifier(ident.to_owned()), len),
                    }
                } else {
                    let ghost recorded = self.errors@;
                    self.errors.push(
                        LexerError::new(
                            LexerErrorKind::UnexpectedTokend(TokenKind::Unexpected(c)),
                            self.cursor.line_num(),
                        ),
                    );
                    proof {
                        assert(error_views(self.errors@) =~= error_views(recorded).push(
                            LexerErrorView {
                                kind: LexerErrorKindView::UnexpectedTokend(
                                    TokenKindView::Unexpected(c),
                                ),
                                line_num: self.line(),
                            },
                        ));
                    }
                    (TokenKind::Unexpected(c), 1)
                }
            },
        };
        proof {
            lemma_newlines_concat(before, text.take(len as int));
            assert(before + text.take(len as int) + text.skip(len as int) =~= before + text);
        }
        Some(Token::new(kind, len, line_num))
    }

    /// Consumes the longest run of characters that `predicate` accepts and
    /// returns `taken` plus its length.
    fn scan_while(
        &mut self,
        predicate: impl Fn(char) -> bool,
        Ghost(p): Ghost<spec_fn(char) -> bool>,
        taken: usize,
    ) -> (len: usize)
        requires
            forall|c: char| call_requires(predicate, (c,)),
            forall|c: char, b: bool| call_ensures(predicate, (c,), b) ==> b == p(c),
            taken <= old(self).consumed().len(),
        ensures
            len == taken + run_len(old(self).rest(), p),
            final(self).rest() == old(self).rest().skip(run_len(old(self).rest(), p) as int),
            final(self).consumed() == old(self).consumed() + old(self).rest().take(
                run_len(old(self).rest(), p) as int,
            ),
            final(self).errors == old(self).errors,
    {
        let mut len = taken;
        let ghost start = self.cursor.rest();
        let ghost before = self.cursor.consumed();
        let ghost n: nat = 0;
        loop
            invariant
                forall|c: char| call_requires(predicate, (c,)),
                forall|c: char, b: bool| call_ensures(predicate, (c,), b) ==> b == p(c),
                n <= start.len(),
                len == taken + n,
                taken <= before.len(),
                self.cursor.rest() == start.skip(n as int),
                self.cursor.consumed() == before + start.take(n as int),
                forall|i: int| 0 <= i < n ==> p(#[trigger] start[i]),
                self.errors == old(self).errors,
            ensures
                n < start.len() ==> !p(start[n as int]),
            decreases start.len() - n,
        {
            proof {
                use_type_invariant(&self.cursor);
                self.cursor.lemma_wf_bounded();
            }
            match self.cursor.bump_if(&predicate) {
                Some(c) => {
                    proof {
                        assert(start.skip(n as int).drop_first() =~= start.skip((n + 1) as int));
                        assert(start.take(n as int).push(c) =~= start.take((n + 1) as int));
                        assert((before + start.take(n as int)).push(c) =~= before + start.take(
                            (n + 1) as int,
                        ));
                        n = n + 1;
                    }
                    len += 1;
                },
                None => {
                    break ;
                },
            }
        }
        proof {
            lemma_run_len_is(start, p, n);
        }
        len
    }

    /// Consumes the longest run of digits and returns `taken` plus its
    /// length, and whether `valid` held and all of them are decimal digits.
    fn scan_digits(&mut self, taken: usize, valid: bool) -> (scanned: (usize, bool))
        requires
            taken <= old(self).consumed().len(),
        ensures
            scanned.0 == taken + digits_len(old(self).rest()),
            scanned.1 == (valid && forall|i: int|
                0 <= i < digits_len(old(self).rest()) ==> decimal_digit(
                    #[trigger] old(self).rest()[i],
                )),
            final(self).rest() == old(self).rest().skip(digits_len(old(self).rest()) as int),
            final(self).consumed() == old(self).consumed() + old(self).rest().take(
                digits_len(old(self).rest()) as int,
            ),
            final(self).errors == old(self).errors,
    {
        let mut len = taken;
        let mut all = valid;
        let ghost start = self.cursor.rest();
        let ghost before = self.cursor.consumed();
        let ghost n: nat = 0;
        loop
            invariant
                n <= start.len(),
                len == taken + n,
                taken <= before.len(),
                all == (valid && forall|i: int| 0 <= i < n ==> decimal_digit(#[trigger] start[i])),
                self.cursor.rest() == start.skip(n as int),
                self.cursor.consumed() == before + start.take(n as int),
                forall|i: int| 0 <= i < n ==> unicode_numeric(#[trigger] start[i]),
                self.errors == old(self).errors,
            ensures
                n < start.len() ==> !unicode_numeric(start[n as int]),
            decreases start.len() - n,
        {
            proof {
                use_type_invariant(&self.cursor);
                self.cursor.lemma_wf_bounded();
            }
            match self.cursor.bump_if(char::is_numeric) {
                Some(c) => {
                    proof {
                        assert(start.skip(n as int).drop_first() =~= start.skip((n + 1) as int));
                        assert(start.take(n as int).push(c) =~= start.take((n + 1) as int));
                        assert((before + start.take(n as int)).push(c) =~= before + start.take(
                            (n + 1) as int,
                        ));
                        n = n + 1;
                    }
                    len += 1;
                    all = all && is_decimal_digit(c);
                },
                None => {
                    break ;
                },
            }
        }
        proof {
            lemma_run_len_is(start, |c: char| unicode_numeric(c), n);
            assert(digits_len(start) == n);
        }
        (len, all)
    }

    /// Scans the rest of a string literal, behind its opening quote; `s` is
    /// the text from that quote on. Returns the literal, quotes included,
    /// and its length; where the source ends before the closing quote, no
    /// literal, the length of what there is, and an error is recorded.
    fn scan_string_literal(&mut self, s: &str) -> (scanned: (Option<String>, usize))
        requires
            s@.len() > 0,
            s@[0] == '"',
            old(self).rest() == s@.skip(1),
            old(self).consumed().len() >= 1,
        ensures
            scanned.1 == string_len(s@),
            string_closed(s@) ==> scanned.0 is Some && scanned.0->0@ == s@.take(
                string_len(s@) as int,
            ) && final(self).recorded() == old(self).recorded(),
            !string_closed(s@) ==> scanned.0 is None && final(self).recorded() == old(
                self,
            ).recorded().push(
                LexerErrorView {
                    kind: LexerErrorKindView::UndelimitedStringLiteral,
                    line_num: final(self).line(),
                },
            ),
            final(self).rest() == s@.skip(string_len(s@) as int),
            final(self).consumed() == old(self).consumed() + s@.subrange(
                1,
                string_len(s@) as int,
            ),
    {
        let ghost p = |c: char| c != '"';
        proof {
            lemma_run_len_bounded(s@.skip(1), p);
        }
        let mut len = self.scan_while(is_string_char, Ghost(p), 1);
        proof {
            use_type_invariant(&self.cursor);
            self.cursor.lemma_wf_bounded();
            assert(s@.skip(1).skip(string_body_len(s@) as int) =~= s@.skip(len as int));
            assert(s@.skip(1).take(string_body_len(s@) as int) =~= s@.subrange(1, len as int));
        }
        if self.cursor.is_at_end() {
            let ghost before = self.errors@;
            self.errors.push(
                LexerError::new(LexerErrorKind::UndelimitedStringLiteral, self.cursor.line_num()),
            );
            proof {
                assert(error_views(self.errors@) =~= error_views(before).push(
                    LexerErrorView {
                        kind: LexerErrorKindView::UndelimitedStringLiteral,
                        line_num: self.line(),
                    },
                ));
            }
            (None, len)
        } else {
            let ghost consumed = self.cursor.consumed();
            let ghost rest = self.cursor.rest();
            // The closing `"`.
            let quote = self.cursor.bump();
            proof {
                lemma_run_len_holds(s@.skip(1), p);
                assert(rest[0] == s@[len as int]);
                assert(rest.drop_first() =~= s@.skip(len + 1));
                assert(consumed.push('"') =~= old(self).consumed() + s@.subrange(1, len + 1));
            }
            len += 1;
            (Some(s.substring_char(0, len).to_owned()), len)
        }
    }

    /// Scans the rest of a number literal, behind its first digit; `s` is the
    /// text from that digit on. Returns the literal and its length; where the
    /// literal denotes no value, no literal, its length, and an error is
    /// recorded.
    fn scan_numeral_literal(&mut self, s: &str) -> (scanned: (Option<String>, usize))
        requires
            s@.len() > 0,
            decimal_digit(s@[0]),
            old(self).rest() == s@.skip(1),
            old(self).consumed().len() >= 1,
        ensures
            scanned.1 == numeral_len(s@),
            numeral_valid(s@) ==> scanned.0 is Some && scanned.0->0@ == s@.take(
                numeral_len(s@) as int,
            ) && final(self).recorded() == old(self).recorded(),
            !numeral_valid(s@) ==> scanned.0 is None && final(self).recorded() == old(
                self,
            ).recorded().push(
                LexerErrorView {
                    kind: LexerErrorKindView::InvalidLiteralNumber {
                        literal: s@.take(numeral_len(s@) as int),
                    },
                    line_num: final(self).line(),
                },
            ),
            final(self).rest() == s@.skip(numeral_len(s@) as int),
            final(self).consumed() == old(self).consumed() + s@.subrange(
                1,
                numeral_len(s@) as int,
            ),
    {
        proof {
            lemma_run_len_bounded(s@.skip(1), |c: char| unicode_numeric(c));
        }
        let (mut len, mut valid) = self.scan_digits(1, true);
        let ghost whole = len;
        proof {
            use_type_invariant(&self.cursor);
            self.cursor.lemma_wf_bounded();
            assert(s@.skip(1).skip(digits_len(s@.skip(1)) as int) =~= s@.skip(len as int));
            assert(s@.skip(1).take(digits_len(s@.skip(1)) as int) =~= s@.subrange(1, len as int));
            assert(valid == forall|i: int| 1 <= i < whole ==> decimal_digit(#[trigger] s@[i])) by {
                let t = s@.skip(1);
                if valid {
                    assert forall|i: int| 1 <= i < whole implies decimal_digit(
                        #[trigger] s@[i],
                    ) by {
                        assert(t[i - 1] == s@[i]);
                    }
                }
                if forall|i: int| 1 <= i < whole ==> decimal_digit(#[trigger] s@[i]) {
                    assert forall|i: int| 0 <= i < digits_len(t) implies decimal_digit(
                        #[trigger] t[i],
                    ) by {
                        assert(t[i] == s@[i + 1]);
                    }
                }
            }
        }
        if self.cursor.peek() == '.' && self.cursor.second().is_numeric() {
            let ghost consumed = self.cursor.consumed();
            let ghost rest = self.cursor.rest();
            let dot = self.cursor.bump();
            proof {
                lemma_run_len_bounded(s@.skip(len + 1), |c: char| unicode_numeric(c));
                assert(rest.drop_first() =~= s@.skip(len + 1));
            }
            let (longer, still) = self.scan_digits(len + 1, valid);
            proof {
                let t = s@.skip(whole + 1);
                assert(t.skip(digits_len(t) as int) =~= s@.skip(longer as int));
                assert(consumed.push('.') + t.take(digits_len(t) as int) =~= old(
                    self,
                ).consumed() + s@.subrange(1, longer as int));
                assert(still == (valid && forall|i: int|
                    whole < i < longer ==> decimal_digit(#[trigger] s@[i]))) by {
                    if still {
                        assert forall|i: int| whole < i < longer implies decimal_digit(
                            #[trigger] s@[i],
                        ) by {
                            assert(t[i - whole - 1] == s@[i]);
                        }
                    }
                    if forall|i: int| whole < i < longer ==> decimal_digit(#[trigger] s@[i]) {
                        assert forall|i: int| 0 <= i < digits_len(t) implies decimal_digit(
                            #[trigger] t[i],
                        ) by {
                            assert(t[i] == s@[i + whole + 1]);
                        }
                    }
                }
            }
            len = longer;
            valid = still;
        }
        let text = s.substring_char(0, len).to_owned();
        if valid {
            (Some(text), len)
        } else {
            let ghost before = self.errors@;
            self.errors.push(
                LexerError::new(
                    LexerErrorKind::InvalidLiteralNumber { literal: text },
                    self.cursor.line_num(),
                ),
            );
            proof {
                assert(error_views(self.errors@) =~= error_views(before).push(
                    LexerErrorView {
                        kind: LexerErrorKindView::InvalidLiteralNumber {
                            literal: s@.take(len as int),
                        },
                        line_num: self.line(),
                    },
                ));
            }
            (None, len)
        }
    }
}

} // verus!
