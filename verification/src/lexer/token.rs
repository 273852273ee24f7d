use vstd::prelude::*;
use crate::text::str_eq;

verus! {

/// One lexeme of the source: what it is, how many characters it spans and
/// the line on which it begins (counted from 1).
#[derive(Debug, Clone)]
pub struct Token {
    pub kind: TokenKind,
    pub len: usize,
    pub line_num: usize,
}

/// A token as a mathematical value.
pub struct TokenView {
    pub kind: TokenKindView,
    pub len: nat,
    pub line_num: nat,
}

impl View for Token {
    type V = TokenView;

    open spec fn view(&self) -> TokenView {
        TokenView { kind: self.kind@, len: self.len as nat, line_num: self.line_num as nat }
    }
}

impl Token {
    /// A token of the given kind that spans `len` characters and begins on
    /// line `line_num`.
    pub fn new(kind: TokenKind, len: usize, line_num: usize) -> (token: Token)
        ensures
            token.kind == kind,
            token.len == len,
            token.line_num == line_num,
    {
        Token { kind, len, line_num }
    }

    /// The token as text: that of its kind.
    pub fn to_string(&self) -> (text: String)
        ensures
            text@ == self@.kind.text(),
    {
        self.kind.to_string()
    }
}

/// What a token is.
#[derive(Debug, Clone, PartialEq)]
pub enum TokenKind {
    LeftParen,
    RightParen,
    LeftBrace,
    RightBrace,
    Comma,
    Dot,
    Minus,
    Plus,
    Semicolon,
    Slash,
    Star,
    Bang,
    BangEqual,
    Equal,
    EqualEqual,
    Greater,
    GreaterEqual,
    Less,
    LessEqual,
    /// A name, with its text.
    Identifier(String),
    String(StringLiteral),
    Number(Number),
    Keyword(Keyword),
    /// A line comment, from `//` up to the end of the line.
    Comment,
    /// A run of whitespace, newlines included.
    Whitespace,
    Eof,
    /// A character that starts no lexeme of the language. The lexer emits it
    /// as a token of one character, records an error and goes on.
    Unexpected(char),
}

/// A token kind as a mathematical value.
pub enum TokenKindView {
    LeftParen,
    RightParen,
    LeftBrace,
    RightBrace,
    Comma,
    Dot,
    Minus,
    Plus,
    Semicolon,
    Slash,
    Star,
    Bang,
    BangEqual,
    Equal,
    EqualEqual,
    Greater,
    GreaterEqual,
    Less,
    LessEqual,
    Identifier(Seq<char>),
    String(StringLiteralView),
    Number(NumberView),
    Keyword(Keyword),
    Comment,
    Whitespace,
    Eof,
    Unexpected(char),
}

impl View for TokenKind {
    type V = TokenKindView;

    open spec fn view(&self) -> TokenKindView {
        match self {
            TokenKind::LeftParen => TokenKindView::LeftParen,
            TokenKind::RightParen => TokenKindView::RightParen,
            TokenKind::LeftBrace => TokenKindView::LeftBrace,
            TokenKind::RightBrace => TokenKindView::RightBrace,
            TokenKind::Comma => TokenKindView::Comma,
            TokenKind::Dot => TokenKindView::Dot,
            TokenKind::Minus => TokenKindView::Minus,
            TokenKind::Plus => TokenKindView::Plus,
            TokenKind::Semicolon => TokenKindView::Semicolon,
            TokenKind::Slash => TokenKindView::Slash,
            TokenKind::Star => TokenKindView::Star,
            TokenKind::Bang => TokenKindView::Bang,
            TokenKind::BangEqual => TokenKindView::BangEqual,
            TokenKind::Equal => TokenKindView::Equal,
            TokenKind::EqualEqual => TokenKindView::EqualEqual,
            TokenKind::Greater => TokenKindView::Greater,
            TokenKind::GreaterEqual => TokenKindView::GreaterEqual,
            TokenKind::Less => TokenKindView::Less,
            TokenKind::LessEqual => TokenKindView::LessEqual,
            TokenKind::Identifier(name) => TokenKindView::Identifier(name@),
            TokenKind::String(literal) => TokenKindView::String(literal@),
            TokenKind::Number(number) => TokenKindView::Number(number@),
            TokenKind::Keyword(keyword) => TokenKindView::Keyword(*keyword),
            TokenKind::Comment => TokenKindView::Comment,
            TokenKind::Whitespace => TokenKindView::Whitespace,
            TokenKind::Eof => TokenKindView::Eof,
            TokenKind::Unexpected(c) => TokenKindView::Unexpected(*c),
        }
    }
}

impl TokenKindView {
    /// How a token of this kind is shown: punctuation, operators and keywords
    /// by their spelling, identifiers, strings and numbers by their literal
    /// text, the remaining kinds by a fixed label.
    pub open spec fn text(self) -> Seq<char> {
        match self {
            TokenKindView::LeftParen => "("@,
            TokenKindView::RightParen => ")"@,
            TokenKindView::LeftBrace => "{"@,
            TokenKindView::RightBrace => "}"@,
            TokenKindView::Comma => ","@,
            TokenKindView::Dot => "."@,
            TokenKindView::Minus => "-"@,
            TokenKindView::Plus => "+"@,
            TokenKindView::Semicolon => ";"@,
            TokenKindView::Slash => "/"@,
            TokenKindView::Star => "*"@,
            TokenKindView::Bang => "!"@,
            TokenKindView::BangEqual => "!="@,
            TokenKindView::Equal => "="@,
            TokenKindView::EqualEqual => "=="@,
            TokenKindView::Greater => ">"@,
            TokenKindView::GreaterEqual => ">="@,
            TokenKindView::Less => "<"@,
            TokenKindView::LessEqual => "<="@,
            TokenKindView::Identifier(name) => name,
            TokenKindView::String(literal) => literal.text(),
            TokenKindView::Number(number) => number.text(),
            TokenKindView::Keyword(keyword) => keyword.text(),
            TokenKindView::Comment => "comment"@,
            TokenKindView::Whitespace => "whitespace"@,
            TokenKindView::Eof => "eof"@,
            TokenKindView::Unexpected(c) => seq![c],
        }
    }
}

impl TokenKind {
    /// The kind as text.
    pub fn to_string(&self) -> (text: String)
        ensures
            text@ == self@.text(),
    {
        match self {
            TokenKind::LeftParen => "(".to_owned(),
            TokenKind::RightParen => ")".to_owned(),
            TokenKind::LeftBrace => "{".to_owned(),
            TokenKind::RightBrace => "}".to_owned(),
            TokenKind::Comma => ",".to_owned(),
            TokenKind::Dot => ".".to_owned(),
            TokenKind::Minus => "-".to_owned(),
            TokenKind::Plus => "+".to_owned(),
            TokenKind::Semicolon => ";".to_owned(),
            TokenKind::Slash => "/".to_owned(),
            TokenKind::Star => "*".to_owned(),
            TokenKind::Bang => "!".to_owned(),
            TokenKind::BangEqual => "!=".to_owned(),
            TokenKind::Equal => "=".to_owned(),
            TokenKind::EqualEqual => "==".to_owned(),
            TokenKind::Greater => ">".to_owned(),
            TokenKind::GreaterEqual => ">=".to_owned(),
            TokenKind::Less => "<".to_owned(),
            TokenKind::LessEqual => "<=".to_owned(),
            TokenKind::Identifier(name) => name.clone(),
            TokenKind::String(literal) => literal.to_string(),
            TokenKind::Number(number) => number.to_string(),
            TokenKind::Keyword(keyword) => keyword.to_string(),
            TokenKind::Comment => "comment".to_owned(),
            TokenKind::Whitespace => "whitespace".to_owned(),
            TokenKind::Eof => "eof".to_owned(),
            TokenKind::Unexpected(c) => {
                let mut text = String::new();
                text.push(*c);
                assert(text@ =~= seq![*c]);
                text
            },
        }
    }
}

/// What a string token holds.
#[derive(Debug, Clone, PartialEq)]
pub enum StringLiteral {
    /// A string literal with both its quotes; the text holds them too.
    DoubleQuoted(String),
    /// A string literal that the source ends before its closing `"`.
    Undelimited,
}

/// A string literal as a mathematical value.
pub enum StringLiteralView {
    DoubleQuoted(Seq<char>),
    Undelimited,
}

impl View for StringLiteral {
    type V = StringLiteralView;

    open spec fn view(&self) -> StringLiteralView {
        match self {
            StringLiteral::DoubleQuoted(text) => StringLiteralView::DoubleQuoted(text@),
            StringLiteral::Undelimited => StringLiteralView::Undelimited,
        }
    }
}

impl StringLiteralView {
    /// How the literal is shown: itself, or a label when it is not delimited.
    pub open spec fn text(self) -> Seq<char> {
        match self {
            StringLiteralView::DoubleQuoted(text) => text,
            StringLiteralView::Undelimited => "invalid string literal"@,
        }
    }
}

impl StringLiteral {
    /// The literal as text: itself, quotes included, or a label when it is
    /// not delimited.
    pub fn to_string(&self) -> (text: String)
        ensures
            text@ == self@.text(),
    {
        match self {
            StringLiteral::DoubleQuoted(text) => text.clone(),
            StringLiteral::Undelimited => "invalid string literal".to_owned(),
        }
    }
}

/// What a number token holds.
#[derive(Debug, Clone, PartialEq)]
pub enum Number {
    /// A number literal, as it is written: decimal digits, then optionally a
    /// dot and more decimal digits. Its value is what `str::parse` reads
    /// from this text.
    Float(String),
    /// A number literal that holds a digit outside `0` to `9`, and so
    /// denotes no value.
    Invalid,
}

/// A number literal as a mathematical value.
pub enum NumberView {
    Float(Seq<char>),
    Invalid,
}

impl View for Number {
    type V = NumberView;

    open spec fn view(&self) -> NumberView {
        match self {
            Number::Float(text) => NumberView::Float(text@),
            Number::Invalid => NumberView::Invalid,
        }
    }
}

impl NumberView {
    /// How the number is shown: the literal, or a label when it is invalid.
    pub open spec fn text(self) -> Seq<char> {
        match self {
            NumberView::Float(text) => text,
            NumberView::Invalid => "invalid number"@,
        }
    }
}

impl Number {
    /// The number as text: the literal, or a label when it is invalid.
    pub fn to_string(&self) -> (text: String)
        ensures
            text@ == self@.text(),
    {
        match self {
            Number::Float(text) => text.clone(),
            Number::Invalid => "invalid number".to_owned(),
        }
    }
}

/// The reserved words of the language.
#[derive(Debug, Clone, Copy, PartialEq, Eq, Structural)]
pub enum Keyword {
    And,
    Class,
    Else,
    False,
    Fun,
    For,
    If,
    Nil,
    Or,
    Print,
    Return,
    Super,
    This,
    True,
    Var,
    While,
}

impl Keyword {
    /// The spelling of the keyword.
    pub open spec fn text(self) -> Seq<char> {
        match self {
            Keyword::And => "and"@,
            Keyword::Class => "class"@,
            Keyword::Else => "else"@,
            Keyword::False => "false"@,
            Keyword::Fun => "fun"@,
            Keyword::For => "for"@,
            Keyword::If => "if"@,
            Keyword::Nil => "nil"@,
            Keyword::Or => "or"@,
            Keyword::Print => "print"@,
            Keyword::Return => "return"@,
            Keyword::Super => "super"@,
            Keyword::This => "this"@,
            Keyword::True => "true"@,
            Keyword::Var => "var"@,
            Keyword::While => "while"@,
        }
    }

    /// The keyword that is spelled `s`, if there is one.
    pub open spec fn lookup(s: Seq<char>) -> Option<Keyword> {
        if exists|keyword: Keyword| keyword.text() == s {
            Some(choose|keyword: Keyword| keyword.text() == s)
        } else {
            None
        }
    }

    /// No two keywords share a spelling.
    pub proof fn lemma_spellings_differ(a: Keyword, b: Keyword)
        requires
            a.text() == b.text(),
        ensures
            a == b,
    {
        reveal_strlit("and");
        reveal_strlit("class");
        reveal_strlit("else");
        reveal_strlit("false");
        reveal_strlit("fun");
        reveal_strlit("for");
        reveal_strlit("if");
        reveal_strlit("nil");
        reveal_strlit("or");
        reveal_strlit("print");
        reveal_strlit("return");
        reveal_strlit("super");
        reveal_strlit("this");
        reveal_strlit("true");
        reveal_strlit("var");
        reveal_strlit("while");
        // Any two spellings differ in their first two characters.
        assert("and"@[0] == 'a' && "and"@[1] == 'n');
        assert("class"@[0] == 'c' && "class"@[1] == 'l');
        assert("else"@[0] == 'e' && "else"@[1] == 'l');
        assert("false"@[0] == 'f' && "false"@[1] == 'a');
        assert("fun"@[0] == 'f' && "fun"@[1] == 'u');
        assert("for"@[0] == 'f' && "for"@[1] == 'o');
        assert("if"@[0] == 'i' && "if"@[1] == 'f');
        assert("nil"@[0] == 'n' && "nil"@[1] == 'i');
        assert("or"@[0] == 'o' && "or"@[1] == 'r');
        assert("print"@[0] == 'p' && "print"@[1] == 'r');
        assert("return"@[0] == 'r' && "return"@[1] == 'e');
        assert("super"@[0] == 's' && "super"@[1] == 'u');
        assert("this"@[0] == 't' && "this"@[1] == 'h');
        assert("true"@[0] == 't' && "true"@[1] == 'r');
        assert("var"@[0] == 'v' && "var"@[1] == 'a');
        assert("while"@[0] == 'w' && "while"@[1] == 'h');
    }

    /// The lookup is exact: it finds a keyword for its own spelling and for
    /// no other text.
    pub proof fn lemma_lookup_is_exact(s: Seq<char>, keyword: Keyword)
        ensures
            Keyword::lookup(s) == Some(keyword) <==> s == keyword.text(),
    {
        if s == keyword.text() {
            let found = choose|k: Keyword| k.text() == s;
            Keyword::lemma_spellings_differ(found, keyword);
        }
    }

    /// Looks `s` up among the reserved words; the match is exact.
    pub fn from_str(s: &str) -> (keyword: Option<Keyword>)
        ensures
            keyword == Keyword::lookup(s@),
    {
        proof {
            Keyword::lemma_lookup_is_exact(s@, Keyword::And);
            Keyword::lemma_lookup_is_exact(s@, Keyword::Class);
            Keyword::lemma_lookup_is_exact(s@, Keyword::Else);
            Keyword::lemma_lookup_is_exact(s@, Keyword::False);
            Keyword::lemma_lookup_is_exact(s@, Keyword::Fun);
            Keyword::lemma_lookup_is_exact(s@, Keyword::For);
            Keyword::lemma_lookup_is_exact(s@, Keyword::If);
            Keyword::lemma_lookup_is_exact(s@, Keyword::Nil);
            Keyword::lemma_lookup_is_exact(s@, Keyword::Or);
            Keyword::lemma_lookup_is_exact(s@, Keyword::Print);
            Keyword::lemma_lookup_is_exact(s@, Keyword::Return);
            Keyword::lemma_lookup_is_exact(s@, Keyword::Super);
            Keyword::lemma_lookup_is_exact(s@, Keyword::This);
            Keyword::lemma_lookup_is_exact(s@, Keyword::True);
            Keyword::lemma_lookup_is_exact(s@, Keyword::Var);
            Keyword::lemma_lookup_is_exact(s@, Keyword::While);
        }
        if str_eq(s, "and") {
            Some(Keyword::And)
        } else if str_eq(s, "class") {
            Some(Keyword::Class)
        } else if str_eq(s, "else") {
            Some(Keyword::Else)
        } else if str_eq(s, "false") {
            Some(Keyword::False)
        } else if str_eq(s, "fun") {
            Some(Keyword::Fun)
        } else if str_eq(s, "for") {
            Some(Keyword::For)
        } else if str_eq(s, "if") {
            Some(Keyword::If)
        } else if str_eq(s, "nil") {
            Some(Keyword::Nil)
        } else if str_eq(s, "or") {
            Some(Keyword::Or)
        } else if str_eq(s, "print") {
            Some(Keyword::Print)
        } else if str_eq(s, "return") {
            Some(Keyword::Return)
        } else if str_eq(s, "super") {
            Some(Keyword::Super)
        } else if str_eq(s, "this") {
            Some(Keyword::This)
        } else if str_eq(s, "true") {
            Some(Keyword::True)
        } else if str_eq(s, "var") {
            Some(Keyword::Var)
        } else if str_eq(s, "while") {
            Some(Keyword::While)
        } else {
            None
        }
    }

    /// The keyword as text: its spelling.
    pub fn to_string(&self) -> (text: String)
        ensures
            text@ == self.text(),
    {
        match self {
            Keyword::And => "and".to_owned(),
            Keyword::Class => "class".to_owned(),
            Keyword::Else => "else".to_owned(),
            Keyword::False => "false".to_owned(),
            Keyword::Fun => "fun".to_owned(),
            Keyword::For => "for".to_owned(),
            Keyword::If => "if".to_owned(),
            Keyword::Nil => "nil".to_owned(),
            Keyword::Or => "or".to_owned(),
            Keyword::Print => "print".to_owned(),
            Keyword::Return => "return".to_owned(),
            Keyword::Super => "super".to_owned(),
            Keyword::This => "this".to_owned(),
            Keyword::True => "true".to_owned(),
            Keyword::Var => "var".to_owned(),
            Keyword::While => "while".to_owned(),
        }
    }
}

} // verus!
