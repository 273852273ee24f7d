use vstd::prelude::*;
use vstd::string::StringExecFns;
use crate::lexer::token::{TokenKind, TokenKindView};

verus! {

/// A lexical error: what went wrong and the line, counted from 1, on which
/// the lexer noticed it.
#[derive(Debug, Clone, PartialEq)]
pub struct LexerError {
    pub kind: LexerErrorKind,
    pub line_num: usize,
}

/// A lexical error as a mathematical value.
pub struct LexerErrorView {
    pub kind: LexerErrorKindView,
    pub line_num: nat,
}

impl View for LexerError {
    type V = LexerErrorView;

    open spec fn view(&self) -> LexerErrorView {
        LexerErrorView { kind: self.kind@, line_num: self.line_num as nat }
    }
}

impl LexerError {
    /// An error of the given kind, noticed on line `line_num`.
    pub fn new(kind: LexerErrorKind, line_num: usize) -> (error: LexerError)
        ensures
            error.kind == kind,
            error.line_num == line_num,
    {
        LexerError { kind, line_num }
    }

    /// The error as text: the message of its kind.
    pub fn to_string(&self) -> (text: String)
        ensures
            text@ == self@.kind.message(),
    {
        self.kind.to_string()
    }
}

/// What went wrong.
#[derive(Debug, Clone, PartialEq)]
pub enum LexerErrorKind {
    /// A token that has no place where it stands.
    UnexpectedTokend(TokenKind),
    /// The source ended inside a string literal.
    UndelimitedStringLiteral,
    /// A number literal that denotes no value, with its text.
    InvalidLiteralNumber { literal: String },
}

/// The kind of a lexical error as a mathematical value.
pub enum LexerErrorKindView {
    UnexpectedTokend(TokenKindView),
    UndelimitedStringLiteral,
    InvalidLiteralNumber { literal: Seq<char> },
}

impl View for LexerErrorKind {
    type V = LexerErrorKindView;

    open spec fn view(&self) -> LexerErrorKindView {
        match self {
            LexerErrorKind::UnexpectedTokend(kind) => LexerErrorKindView::UnexpectedTokend(kind@),
            LexerErrorKind::UndelimitedStringLiteral => LexerErrorKindView::UndelimitedStringLiteral,
            LexerErrorKind::InvalidLiteralNumber { literal } => {
                LexerErrorKindView::InvalidLiteralNumber { literal: literal@ }
            },
        }
    }
}

impl LexerErrorKindView {
    /// The message that describes an error of this kind.
    pub open spec fn message(self) -> Seq<char> {
        match self {
            LexerErrorKindView::UnexpectedTokend(kind) => {
                "unexpected token: `"@ + kind.text() + "`"@
            },
            LexerErrorKindView::UndelimitedStringLiteral => "undelimited string literal"@,
            LexerErrorKindView::InvalidLiteralNumber { literal } => "invalid float literal"@,
        }
    }
}

impl LexerErrorKind {
    /// The kind as text: its message.
    pub fn to_string(&self) -> (text: String)
        ensures
            text@ == self@.message(),
    {
        match self {
            LexerErrorKind::UnexpectedTokend(kind) => {
                let mut text = "unexpected token: `".to_owned();
                let shown = kind.to_string();
                text.append(shown.as_str());
                text.append("`");
                text
            },
            LexerErrorKind::UndelimitedStringLiteral => "undelimited string literal".to_owned(),
            LexerErrorKind::InvalidLiteralNumber { literal: _ } => {
                "invalid float literal".to_owned()
            },
        }
    }
}

} // verus!
