use rlox::scanner::scan;
use rlox::scanner::Scanner;
use rlox::tokens::Token;
use rlox::tokens::TokenType;

fn types(tokens: &[Token]) -> Vec<&TokenType> {
    tokens.iter().map(|t| &t.ty).collect()
}

fn ident(s: &str) -> TokenType {
    TokenType::Identifier(s.to_string())
}

fn number(s: &str) -> TokenType {
    TokenType::Number(s.to_string())
}

#[test]
fn scanner_test_single_char() {
    let source = "(){},-+.;*";
    let scanner = Scanner::new(source).unwrap();
    let tokens = scanner.scan_tokens().unwrap();
    assert_eq!(
        types(&tokens),
        vec![
            &TokenType::LeftParen,
            &TokenType::RightParen,
            &TokenType::LeftBrace,
            &TokenType::RightBrace,
            &TokenType::Comma,
            &TokenType::Minus,
            &TokenType::Plus,
            &TokenType::Dot,
            &TokenType::Semicolon,
            &TokenType::Star,
            &TokenType::Eof,
        ]
    );
}

#[test]
fn scanner_test_one_or_two_char() {
    let source = "=!<>!=>=<===";
    let scanner = Scanner::new(source).unwrap();
    let tokens = scanner.scan_tokens().unwrap();
    assert_eq!(
        types(&tokens),
        vec![
            &TokenType::Equal,
            &TokenType::Bang,
            &TokenType::Less,
            &TokenType::Greater,
            &TokenType::BangEqual,
            &TokenType::GreaterEqual,
            &TokenType::LessEqual,
            &TokenType::EqualEqual,
            &TokenType::Eof,
        ]
    );
}

#[test]
fn scanner_test_whitespaces_ignored() {
    let source = "! = >\r\n== <\t= \n";
    let scanner = Scanner::new(source).unwrap();
    let tokens = scanner.scan_tokens().unwrap();
    assert_eq!(
        types(&tokens),
        vec![
            &TokenType::Bang,
            &TokenType::Equal,
            &TokenType::Greater,
            &TokenType::EqualEqual,
            &TokenType::Less,
            &TokenType::Equal,
            &TokenType::Eof,
        ]
    );
    let lines: Vec<u32> = tokens.iter().map(|t| t.span.line_start).collect();
    assert_eq!(lines, vec![1, 1, 1, 2, 2, 2, 3]);
}

#[test]
fn scanner_test_comments_ignored() {
    let source = "///()\n/=() // wtv";
    let scanner = Scanner::new(source).unwrap();
    let tokens = scanner.scan_tokens().unwrap();
    assert_eq!(
        types(&tokens),
        vec![
            &TokenType::Slash,
            &TokenType::Equal,
            &TokenType::LeftParen,
            &TokenType::RightParen,
            &TokenType::Eof,
        ]
    );
    let lines: Vec<u32> = tokens.iter().map(|t| t.span.line_start).collect();
    assert_eq!(lines, vec![2, 2, 2, 2, 2]);
}

#[test]
fn scanner_test_string_literals() {
    let source = "\"this string should ignore these // \n!= ()\"";
    let scanner = Scanner::new(source).unwrap();
    let tokens = scanner.scan_tokens().unwrap();
    assert_eq!(
        types(&tokens),
        vec![
            &TokenType::String("this string should ignore these // \n!= ()".to_string()),
            &TokenType::Eof,
        ]
    );
    assert_eq!(tokens[0].span.line_start, 2);
    assert_eq!(tokens[1].span.line_start, 2);
}

#[test]
fn scanner_test_numbers() {
    let source = "1234567890 0.123 123.0 0.3";
    let scanner = Scanner::new(source).unwrap();
    let tokens = scanner.scan_tokens().unwrap();
    assert_eq!(
        types(&tokens),
        vec![
            &number("1234567890"),
            &number("0.123"),
            &number("123.0"),
            &number("0.3"),
            &TokenType::Eof,
        ]
    );
    let values: Vec<f64> = tokens[..4]
        .iter()
        .map(|t| match &t.ty {
            TokenType::Number(digits) => digits.parse().unwrap(),
            _ => panic!("not a number"),
        })
        .collect();
    assert_eq!(values, vec![1234567890 as f64, 0.123, 123.0, 0.3]);
}

#[test]
fn scanner_test_idents() {
    let source = "_hello123world _and2 or_ var return";
    let scanner = Scanner::new(source).unwrap();
    let tokens = scanner.scan_tokens().unwrap();
    assert_eq!(
        types(&tokens),
        vec![
            &ident("_hello123world"),
            &ident("_and2"),
            &ident("or_"),
            &TokenType::Var,
            &TokenType::Return,
            &TokenType::Eof,
        ]
    );
}

#[test]
fn test_wtv() {
    let s = "==";
    assert_eq!(&s[2..], "");
}

#[test]
fn spans_are_byte_ranges() {
    let tokens = scan("var é = \"ß\";\nprint é;").unwrap();
    let spans: Vec<(usize, usize, u32)> =
        tokens.iter().map(|t| (t.span.start, t.span.end, t.span.line_start)).collect();
    assert_eq!(
        spans,
        vec![
            (0, 3, 1),
            (4, 6, 1),
            (7, 8, 1),
            (9, 13, 1),
            (13, 14, 1),
            (15, 20, 2),
            (21, 23, 2),
            (23, 24, 2),
            (24, 24, 2),
        ]
    );
    assert_eq!(tokens[1].ty, ident("é"));
}

#[test]
fn trailing_dot_is_its_own_token() {
    let tokens = scan("12.").unwrap();
    assert_eq!(types(&tokens), vec![&number("12"), &TokenType::Dot, &TokenType::Eof]);
    let tokens = scan("1.5.2").unwrap();
    assert_eq!(
        types(&tokens),
        vec![&number("1.5"), &TokenType::Dot, &number("2"), &TokenType::Eof]
    );
}

#[test]
fn keywords_win_over_names() {
    let tokens = scan("and class else false fun for if nil or print return super this true var while whiles").unwrap();
    assert_eq!(
        types(&tokens),
        vec![
            &TokenType::And,
            &TokenType::Class,
            &TokenType::Else,
            &TokenType::False,
            &TokenType::Fun,
            &TokenType::For,
            &TokenType::If,
            &TokenType::Nil,
            &TokenType::Or,
            &TokenType::Print,
            &TokenType::Return,
            &TokenType::Super,
            &TokenType::This,
            &TokenType::True,
            &TokenType::Var,
            &TokenType::While,
            &ident("whiles"),
            &TokenType::Eof,
        ]
    );
}

#[test]
fn errors_are_batched() {
    let errors = scan("var a = @;\n#\n\"open").unwrap_err();
    assert_eq!(errors.len(), 3);
    assert_eq!(errors[0].message, "Unexpected character.");
    assert_eq!((errors[0].span.start, errors[0].span.end, errors[0].span.line_start), (8, 9, 1));
    assert_eq!(errors[1].message, "Unexpected character.");
    assert_eq!(errors[1].span.line_start, 2);
    assert_eq!(errors[2].message, "Unterminated string.");
    assert_eq!((errors[2].span.start, errors[2].span.end, errors[2].span.line_start), (13, 18, 3));
    assert_eq!(errors[0].to_string(), "[line 1:8] Unexpected character.");
}

#[test]
fn empty_source_is_only_eof() {
    let tokens = scan("").unwrap();
    assert_eq!(types(&tokens), vec![&TokenType::Eof]);
    assert_eq!(tokens[0].span.start, 0);
    assert_eq!(tokens[0].span.end, 0);
    assert_eq!(tokens[0].span.line_start, 1);
}

#[test]
fn next_token_walks_the_source() {
    let mut scanner = Scanner::new("a // c\n+").unwrap();
    assert_eq!(scanner.next_token().unwrap().unwrap().ty, ident("a"));
    assert_eq!(scanner.next_token().unwrap().unwrap().ty, TokenType::Plus);
    assert!(scanner.next_token().is_none());
    assert!(scanner.next_token().is_none());
}

#[test]
fn token_texts() {
    assert_eq!(TokenType::LeftBrace.as_str(), "{{");
    assert_eq!(TokenType::BangEqual.as_str(), "!=");
    assert_eq!(TokenType::Eof.as_str(), "end of file");
    assert_eq!(TokenType::String("hi".to_string()).as_str(), "\"hi\"");
    assert_eq!(number("1.50").as_str(), "1.50");
    assert_eq!(ident("x").as_str(), "x");
}

#[test]
fn keyword_gives_the_token_type_of_a_reserved_word() {
    assert_eq!(rlox::tokens::keyword("while"), Some(TokenType::While));
    assert_eq!(rlox::tokens::keyword("nil"), Some(TokenType::Nil));
    assert_eq!(rlox::tokens::keyword("While"), None);
    assert_eq!(rlox::tokens::keyword("whiles"), None);
    assert_eq!(rlox::tokens::keyword(""), None);
}
