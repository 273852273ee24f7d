use lox::lexer::error::{LexerError, LexerErrorKind};
use lox::lexer::token::{Keyword, Number, StringLiteral, Token, TokenKind};
use lox::lexer::Lexer;

fn scan(source: &str) -> (Vec<Token>, Vec<LexerError>) {
    Lexer::new(source).collect_tokens()
}

fn kinds(tokens: &[Token]) -> Vec<TokenKind> {
    tokens.iter().map(|t| t.kind.clone()).collect()
}

fn float(text: &str) -> TokenKind {
    TokenKind::Number(Number::Float(text.to_owned()))
}

fn value(kind: &TokenKind) -> f64 {
    match kind {
        TokenKind::Number(Number::Float(text)) => text.parse().unwrap(),
        other => panic!("not a number: {:?}", other),
    }
}

fn spans(source: &str, tokens: &[Token]) -> Vec<String> {
    let chars: Vec<char> = source.chars().collect();
    let mut at = 0;
    let mut out = vec![];
    for t in tokens {
        out.push(chars[at..at + t.len].iter().collect());
        at += t.len;
    }
    out
}

#[test]
fn lex_normal() {
    let test_cases = [
        (
            "1+2*3-4",
            vec![
                float("1"),
                TokenKind::Plus,
                float("2"),
                TokenKind::Star,
                float("3"),
                TokenKind::Minus,
                float("4"),
            ],
            vec![(0, 1.0f64), (2, 2.0), (4, 3.0), (6, 4.0)],
        ),
        (
            r#"fun foo(x, "hello,world")"#,
            vec![
                TokenKind::Keyword(Keyword::Fun),
                TokenKind::Whitespace,
                TokenKind::Identifier("foo".to_owned()),
                TokenKind::LeftParen,
                TokenKind::Identifier("x".to_owned()),
                TokenKind::Comma,
                TokenKind::Whitespace,
                TokenKind::String(StringLiteral::DoubleQuoted(r#""hello,world""#.to_owned())),
                TokenKind::RightParen,
            ],
            vec![],
        ),
    ];
    for (source, expected_tokens, numbers) in test_cases {
        let lexer = Lexer::new(source);
        let (tokens, errors) = lexer.collect_tokens();
        assert!(errors.is_empty());
        assert_eq!(tokens.len(), expected_tokens.len());
        for (i, number) in numbers {
            assert_eq!(value(&tokens[i].kind), number);
        }
        for (t, kind) in tokens.into_iter().zip(expected_tokens.into_iter()) {
            assert_eq!(t.kind, kind);
        }
    }
}

#[test]
fn arithmetic_gives_numbers_and_operators() {
    let (tokens, errors) = scan("1+2*3-4");
    assert!(errors.is_empty());
    assert_eq!(
        kinds(&tokens),
        vec![
            float("1"),
            TokenKind::Plus,
            float("2"),
            TokenKind::Star,
            float("3"),
            TokenKind::Minus,
            float("4"),
        ]
    );
    let values: Vec<f64> = tokens.iter().step_by(2).map(|t| value(&t.kind)).collect();
    assert_eq!(values, vec![1.0, 2.0, 3.0, 4.0]);
    assert!(tokens.iter().all(|t| t.len == 1 && t.line_num == 1));
}

#[test]
fn function_call_with_string_argument() {
    let (tokens, errors) = scan(r#"fun foo(x, "hello,world")"#);
    assert!(errors.is_empty());
    assert_eq!(
        kinds(&tokens),
        vec![
            TokenKind::Keyword(Keyword::Fun),
            TokenKind::Whitespace,
            TokenKind::Identifier("foo".to_owned()),
            TokenKind::LeftParen,
            TokenKind::Identifier("x".to_owned()),
            TokenKind::Comma,
            TokenKind::Whitespace,
            TokenKind::String(StringLiteral::DoubleQuoted("\"hello,world\"".to_owned())),
            TokenKind::RightParen,
        ]
    );
    let lens: Vec<usize> = tokens.iter().map(|t| t.len).collect();
    assert_eq!(lens, vec![3, 1, 3, 1, 1, 1, 1, 13, 1]);
}

#[test]
fn unterminated_string_gives_one_token_and_one_error() {
    let (tokens, errors) = scan("\"abc");
    assert_eq!(tokens.len(), 1);
    assert_eq!(tokens[0].kind, TokenKind::String(StringLiteral::Undelimited));
    assert_eq!(tokens[0].len, 4);
    assert_eq!(tokens[0].line_num, 1);
    assert_eq!(
        errors,
        vec![LexerError { kind: LexerErrorKind::UndelimitedStringLiteral, line_num: 1 }]
    );
}

#[test]
fn unterminated_string_error_stands_on_the_last_line() {
    let (tokens, errors) = scan("x\n\"abc\ndef\n");
    assert_eq!(tokens.len(), 3);
    assert_eq!(tokens[2].kind, TokenKind::String(StringLiteral::Undelimited));
    assert_eq!(tokens[2].len, 9);
    assert_eq!(tokens[2].line_num, 2);
    assert_eq!(
        errors,
        vec![LexerError { kind: LexerErrorKind::UndelimitedStringLiteral, line_num: 4 }]
    );
}

#[test]
fn lone_quote_is_an_unterminated_string() {
    let (tokens, errors) = scan("\"");
    assert_eq!(tokens.len(), 1);
    assert_eq!(tokens[0].kind, TokenKind::String(StringLiteral::Undelimited));
    assert_eq!(tokens[0].len, 1);
    assert_eq!(errors.len(), 1);
}

#[test]
fn string_literal_may_span_lines() {
    let (tokens, errors) = scan("\"a\nb\" c");
    assert!(errors.is_empty());
    assert_eq!(
        kinds(&tokens),
        vec![
            TokenKind::String(StringLiteral::DoubleQuoted("\"a\nb\"".to_owned())),
            TokenKind::Whitespace,
            TokenKind::Identifier("c".to_owned()),
        ]
    );
    assert_eq!(tokens[0].line_num, 1);
    assert_eq!(tokens[1].line_num, 2);
    assert_eq!(tokens[2].line_num, 2);
}

#[test]
fn empty_string_literal() {
    let (tokens, errors) = scan("\"\"");
    assert!(errors.is_empty());
    assert_eq!(
        kinds(&tokens),
        vec![TokenKind::String(StringLiteral::DoubleQuoted("\"\"".to_owned()))]
    );
    assert_eq!(tokens[0].len, 2);
}

#[test]
fn trailing_dot_is_not_part_of_the_number() {
    let (tokens, errors) = scan("12.");
    assert!(errors.is_empty());
    assert_eq!(kinds(&tokens), vec![float("12"), TokenKind::Dot]);
    assert_eq!(value(&tokens[0].kind), 12.0);
    assert_eq!(tokens[0].len, 2);
    assert_eq!(tokens[1].len, 1);
}

#[test]
fn fraction_is_part_of_the_number() {
    let (tokens, errors) = scan("12.5.x");
    assert!(errors.is_empty());
    assert_eq!(
        kinds(&tokens),
        vec![float("12.5"), TokenKind::Dot, TokenKind::Identifier("x".to_owned())]
    );
    assert_eq!(value(&tokens[0].kind), 12.5);
    assert_eq!(tokens[0].len, 4);
}

#[test]
fn second_dot_ends_the_number() {
    let (tokens, errors) = scan("1.2.3");
    assert!(errors.is_empty());
    assert_eq!(kinds(&tokens), vec![float("1.2"), TokenKind::Dot, float("3")]);
}

#[test]
fn number_with_a_digit_of_another_script_is_invalid() {
    let source = "1\u{0663}+2";
    let (tokens, errors) = scan(source);
    assert_eq!(
        kinds(&tokens),
        vec![TokenKind::Number(Number::Invalid), TokenKind::Plus, float("2")]
    );
    assert_eq!(tokens[0].len, 2);
    assert_eq!(
        errors,
        vec![LexerError {
            kind: LexerErrorKind::InvalidLiteralNumber { literal: "1\u{0663}".to_owned() },
            line_num: 1,
        }]
    );
    assert!("1\u{0663}".parse::<f64>().is_err());
}

#[test]
fn fraction_with_a_digit_of_another_script_is_invalid() {
    let (tokens, errors) = scan("3.\u{0661}4");
    assert_eq!(kinds(&tokens), vec![TokenKind::Number(Number::Invalid)]);
    assert_eq!(tokens[0].len, 4);
    assert_eq!(errors.len(), 1);
    assert_eq!(
        errors[0].kind,
        LexerErrorKind::InvalidLiteralNumber { literal: "3.\u{0661}4".to_owned() }
    );
}

#[test]
fn every_valid_number_literal_parses() {
    for source in ["0", "007", "1.50", "123456789012345678901234567890.5", "9.0000000001"] {
        let (tokens, errors) = scan(source);
        assert!(errors.is_empty());
        assert_eq!(kinds(&tokens), vec![float(source)]);
        assert_eq!(value(&tokens[0].kind), source.parse::<f64>().unwrap());
    }
}

#[test]
fn comment_stops_before_the_newline() {
    let source = "// comment only\n";
    let (tokens, errors) = scan(source);
    assert!(errors.is_empty());
    assert_eq!(kinds(&tokens), vec![TokenKind::Comment, TokenKind::Whitespace]);
    assert_eq!(spans(source, &tokens), vec!["// comment only".to_owned(), "\n".to_owned()]);
    assert_eq!(tokens[0].len, 15);
    assert_eq!(tokens[1].len, 1);
    assert_eq!(tokens[0].line_num, 1);
    assert_eq!(tokens[1].line_num, 1);
}

#[test]
fn comment_runs_to_the_end_of_input() {
    let (tokens, errors) = scan("a // b");
    assert!(errors.is_empty());
    assert_eq!(
        kinds(&tokens),
        vec![TokenKind::Identifier("a".to_owned()), TokenKind::Whitespace, TokenKind::Comment]
    );
    assert_eq!(tokens[2].len, 4);
}

#[test]
fn lone_slash_is_division() {
    let (tokens, errors) = scan("a/b / /");
    assert!(errors.is_empty());
    assert_eq!(
        kinds(&tokens),
        vec![
            TokenKind::Identifier("a".to_owned()),
            TokenKind::Slash,
            TokenKind::Identifier("b".to_owned()),
            TokenKind::Whitespace,
            TokenKind::Slash,
            TokenKind::Whitespace,
            TokenKind::Slash,
        ]
    );
}

#[test]
fn single_character_punctuation() {
    let (tokens, errors) = scan("(){},.-+;*");
    assert!(errors.is_empty());
    assert_eq!(
        kinds(&tokens),
        vec![
            TokenKind::LeftParen,
            TokenKind::RightParen,
            TokenKind::LeftBrace,
            TokenKind::RightBrace,
            TokenKind::Comma,
            TokenKind::Dot,
            TokenKind::Minus,
            TokenKind::Plus,
            TokenKind::Semicolon,
            TokenKind::Star,
        ]
    );
    assert!(tokens.iter().all(|t| t.len == 1));
}

#[test]
fn operators_look_one_character_ahead() {
    let (tokens, errors) = scan("! != = == < <= > >=");
    assert!(errors.is_empty());
    let found: Vec<(TokenKind, usize)> = tokens
        .iter()
        .filter(|t| t.kind != TokenKind::Whitespace)
        .map(|t| (t.kind.clone(), t.len))
        .collect();
    assert_eq!(
        found,
        vec![
            (TokenKind::Bang, 1),
            (TokenKind::BangEqual, 2),
            (TokenKind::Equal, 1),
            (TokenKind::EqualEqual, 2),
            (TokenKind::Less, 1),
            (TokenKind::LessEqual, 2),
            (TokenKind::Greater, 1),
            (TokenKind::GreaterEqual, 2),
        ]
    );
}

#[test]
fn three_equal_signs() {
    let (tokens, _) = scan("===");
    assert_eq!(kinds(&tokens), vec![TokenKind::EqualEqual, TokenKind::Equal]);
}

#[test]
fn whitespace_run_is_one_token() {
    let (tokens, errors) = scan(" \t\r\n \n  x");
    assert!(errors.is_empty());
    assert_eq!(kinds(&tokens), vec![TokenKind::Whitespace, TokenKind::Identifier("x".to_owned())]);
    assert_eq!(tokens[0].len, 8);
    assert_eq!(tokens[0].line_num, 1);
    assert_eq!(tokens[1].line_num, 3);
}

#[test]
fn unicode_whitespace_is_whitespace() {
    let (tokens, errors) = scan("a\u{3000}\u{00a0}b");
    assert!(errors.is_empty());
    assert_eq!(
        kinds(&tokens),
        vec![
            TokenKind::Identifier("a".to_owned()),
            TokenKind::Whitespace,
            TokenKind::Identifier("b".to_owned()),
        ]
    );
    assert_eq!(tokens[1].len, 2);
}

#[test]
fn identifiers_take_letters_digits_and_underscores() {
    let (tokens, errors) = scan("_foo1 b_2 \u{00e9}t\u{00e9}");
    assert!(errors.is_empty());
    assert_eq!(
        kinds(&tokens),
        vec![
            TokenKind::Identifier("_foo1".to_owned()),
            TokenKind::Whitespace,
            TokenKind::Identifier("b_2".to_owned()),
            TokenKind::Whitespace,
            TokenKind::Identifier("\u{00e9}t\u{00e9}".to_owned()),
        ]
    );
    assert_eq!(tokens[4].len, 3);
}

#[test]
fn keywords_match_exactly() {
    let (tokens, errors) = scan("fun funny Fun nil nil_ or");
    assert!(errors.is_empty());
    let found: Vec<TokenKind> =
        kinds(&tokens).into_iter().filter(|k| *k != TokenKind::Whitespace).collect();
    assert_eq!(
        found,
        vec![
            TokenKind::Keyword(Keyword::Fun),
            TokenKind::Identifier("funny".to_owned()),
            TokenKind::Identifier("Fun".to_owned()),
            TokenKind::Keyword(Keyword::Nil),
            TokenKind::Identifier("nil_".to_owned()),
            TokenKind::Keyword(Keyword::Or),
        ]
    );
}

#[test]
fn unexpected_character_gives_a_token_and_an_error() {
    let (tokens, errors) = scan("a @\n# b");
    assert_eq!(
        kinds(&tokens),
        vec![
            TokenKind::Identifier("a".to_owned()),
            TokenKind::Whitespace,
            TokenKind::Unexpected('@'),
            TokenKind::Whitespace,
            TokenKind::Unexpected('#'),
            TokenKind::Whitespace,
            TokenKind::Identifier("b".to_owned()),
        ]
    );
    assert_eq!(tokens[2].len, 1);
    assert_eq!(
        errors,
        vec![
            LexerError {
                kind: LexerErrorKind::UnexpectedTokend(TokenKind::Unexpected('@')),
                line_num: 1,
            },
            LexerError {
                kind: LexerErrorKind::UnexpectedTokend(TokenKind::Unexpected('#')),
                line_num: 2,
            },
        ]
    );
}

#[test]
fn nul_character_is_a_character_like_any_other() {
    let (tokens, errors) = scan("a\0b");
    assert_eq!(
        kinds(&tokens),
        vec![
            TokenKind::Identifier("a".to_owned()),
            TokenKind::Unexpected('\0'),
            TokenKind::Identifier("b".to_owned()),
        ]
    );
    assert_eq!(errors.len(), 1);
}

#[test]
fn dot_before_a_letter_is_not_a_fraction() {
    let (tokens, errors) = scan("1.a");
    assert!(errors.is_empty());
    assert_eq!(
        kinds(&tokens),
        vec![float("1"), TokenKind::Dot, TokenKind::Identifier("a".to_owned())]
    );
}

#[test]
fn quotes_in_comments_and_slashes_in_strings() {
    let (tokens, errors) = scan("\"a//b\" // \"c\n");
    assert!(errors.is_empty());
    assert_eq!(
        kinds(&tokens),
        vec![
            TokenKind::String(StringLiteral::DoubleQuoted("\"a//b\"".to_owned())),
            TokenKind::Whitespace,
            TokenKind::Comment,
            TokenKind::Whitespace,
        ]
    );
    assert_eq!(tokens[2].len, 5);
}

#[test]
fn errors_come_in_the_order_of_discovery() {
    let (_, errors) = scan("1\u{0661} @\n\"open");
    let found: Vec<(LexerErrorKind, usize)> =
        errors.into_iter().map(|e| (e.kind, e.line_num)).collect();
    assert_eq!(
        found,
        vec![
            (LexerErrorKind::InvalidLiteralNumber { literal: "1\u{0661}".to_owned() }, 1),
            (LexerErrorKind::UnexpectedTokend(TokenKind::Unexpected('@')), 1),
            (LexerErrorKind::UndelimitedStringLiteral, 2),
        ]
    );
}

#[test]
fn empty_source_gives_nothing() {
    let (tokens, errors) = scan("");
    assert!(tokens.is_empty());
    assert!(errors.is_empty());
    let mut lexer = Lexer::new("");
    assert!(lexer.next().is_none());
    assert!(lexer.next().is_none());
}

const SAMPLES: [&str; 10] = [
    "",
    "1+2*3-4",
    "fun foo(x, \"hello,world\")",
    "\"abc",
    "12.",
    "// comment only\n",
    "var a = 1.5;\n// note\nprint a >= 2 != !true;\n",
    "class A {\n  f() { return this.x / 2; }\n}\n\"two\nlines\" @ 7\u{0663}\n",
    "\u{00e9}t\u{00e9}\u{3000}= \"na\u{00ef}ve\" // caf\u{00e9}\r\n\t\"",
    "\n\n\n",
];

#[test]
fn spans_rebuild_the_source() {
    for source in SAMPLES {
        let (tokens, _) = scan(source);
        assert_eq!(spans(source, &tokens).concat(), source);
        assert_eq!(tokens.iter().map(|t| t.len).sum::<usize>(), source.chars().count());
        assert!(tokens.iter().all(|t| t.len >= 1));
    }
}

#[test]
fn token_line_counts_the_newlines_before_it() {
    for source in SAMPLES {
        let (tokens, _) = scan(source);
        let chars: Vec<char> = source.chars().collect();
        let mut at = 0;
        for t in &tokens {
            let newlines = chars[..at].iter().filter(|c| **c == '\n').count();
            assert_eq!(newlines, t.line_num - 1);
            at += t.len;
        }
    }
}

#[test]
fn error_lines_exist_in_the_source() {
    for source in SAMPLES {
        let (_, errors) = scan(source);
        let last_line = 1 + source.chars().filter(|c| *c == '\n').count();
        for e in &errors {
            assert!(1 <= e.line_num && e.line_num <= last_line);
        }
    }
}

#[test]
fn rescanning_gives_the_same_tokens_and_errors() {
    for source in SAMPLES {
        let (tokens, errors) = scan(source);
        let (tokens_again, errors_again) = scan(source);
        assert_eq!(kinds(&tokens), kinds(&tokens_again));
        let places: Vec<(usize, usize)> = tokens.iter().map(|t| (t.len, t.line_num)).collect();
        let places_again: Vec<(usize, usize)> =
            tokens_again.iter().map(|t| (t.len, t.line_num)).collect();
        assert_eq!(places, places_again);
        assert_eq!(errors, errors_again);
    }
}

#[test]
fn pulling_one_by_one_gives_what_collecting_gives() {
    for source in SAMPLES {
        let (tokens, errors) = scan(source);
        let mut lexer = Lexer::new(source);
        let mut pulled = vec![];
        while let Some(token) = lexer.next() {
            pulled.push(token);
        }
        assert!(lexer.next().is_none());
        assert_eq!(kinds(&pulled), kinds(&tokens));
        assert_eq!(lexer.errors(), &errors[..]);
    }
}

#[test]
fn collecting_after_pulling_keeps_earlier_errors() {
    let mut lexer = Lexer::new("@ \"open");
    let first = lexer.next().unwrap();
    assert_eq!(first.kind, TokenKind::Unexpected('@'));
    assert_eq!(lexer.errors().len(), 1);
    let (tokens, errors) = lexer.collect_tokens();
    assert_eq!(
        kinds(&tokens),
        vec![TokenKind::Whitespace, TokenKind::String(StringLiteral::Undelimited)]
    );
    assert_eq!(errors.len(), 2);
    assert_eq!(errors[0].kind, LexerErrorKind::UnexpectedTokend(TokenKind::Unexpected('@')));
    assert_eq!(errors[1].kind, LexerErrorKind::UndelimitedStringLiteral);
}

#[test]
fn errors_grow_while_scanning() {
    let mut lexer = Lexer::new("a @ b");
    assert!(lexer.errors().is_empty());
    lexer.next();
    lexer.next();
    assert!(lexer.errors().is_empty());
    lexer.next();
    assert_eq!(lexer.errors().len(), 1);
    assert_eq!(lexer.errors()[0].line_num, 1);
}
