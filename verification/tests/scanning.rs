use rclox::compiler::rules::{ParseFn, Precedence, get_rule};
use rclox::scanner::{Scanner, is_alpha, is_alphanumeric, is_digit};
use rclox::token::{ScanError, Token, TokenType};

fn tokens(source: &str) -> Vec<Token> {
    let mut scanner = Scanner::new(source.to_string());
    let mut out = Vec::new();
    loop {
        let t = scanner.next_token();
        out.push(t);
        if t.token_type == TokenType::EOF {
            break;
        }
    }
    out
}

fn types(source: &str) -> Vec<TokenType> {
    tokens(source).iter().map(|t| t.token_type).collect()
}

#[test]
fn scans_a_declaration() {
    let ts = tokens("var x = 10;");
    let kinds: Vec<TokenType> = ts.iter().map(|t| t.token_type).collect();
    assert_eq!(
        kinds,
        vec![
            TokenType::Var,
            TokenType::Identifier,
            TokenType::Equal,
            TokenType::Number,
            TokenType::Semicolon,
            TokenType::EOF
        ]
    );
    assert_eq!((ts[1].start, ts[1].length), (4, 1));
    assert_eq!((ts[3].start, ts[3].length), (8, 2));
    assert_eq!((ts[5].start, ts[5].length), (11, 0));
}

#[test]
fn scans_keywords() {
    assert_eq!(
        types("and class else false fun for if nil or print return super this true var while"),
        vec![
            TokenType::And,
            TokenType::Class,
            TokenType::Else,
            TokenType::False,
            TokenType::Fun,
            TokenType::For,
            TokenType::If,
            TokenType::Nil,
            TokenType::Or,
            TokenType::Print,
            TokenType::Return,
            TokenType::Super,
            TokenType::This,
            TokenType::True,
            TokenType::Var,
            TokenType::While,
            TokenType::EOF
        ]
    );
    assert_eq!(
        types("break continue switch case default yield array len"),
        vec![
            TokenType::Break,
            TokenType::Continue,
            TokenType::Switch,
            TokenType::Case,
            TokenType::Default,
            TokenType::Yield,
            TokenType::Array,
            TokenType::Len,
            TokenType::EOF
        ]
    );
    assert_eq!(types("variable forx _and"), vec![TokenType::Identifier, TokenType::Identifier, TokenType::Identifier, TokenType::EOF]);
}

#[test]
fn scans_operators() {
    assert_eq!(
        types("( ) { } [ ] , . - + ; / * ++ -- ! != = == => > >= < <="),
        vec![
            TokenType::LeftParen,
            TokenType::RightParen,
            TokenType::LeftBrace,
            TokenType::RightBrace,
            TokenType::LeftBracket,
            TokenType::RightBracket,
            TokenType::Comma,
            TokenType::Dot,
            TokenType::Minus,
            TokenType::Plus,
            TokenType::Semicolon,
            TokenType::Slash,
            TokenType::Star,
            TokenType::PlusPlus,
            TokenType::MinusMinus,
            TokenType::Bang,
            TokenType::BangEqual,
            TokenType::Equal,
            TokenType::EqualEqual,
            TokenType::EqualGreater,
            TokenType::Greater,
            TokenType::GreaterEqual,
            TokenType::Less,
            TokenType::LessEqual,
            TokenType::EOF
        ]
    );
}

#[test]
fn counts_lines_and_skips_comments() {
    let ts = tokens("a // note\n\n  b\n\"x\ny\" c");
    let lines: Vec<usize> = ts.iter().map(|t| t.line).collect();
    assert_eq!(lines, vec![1, 3, 5, 5, 5]);
    assert_eq!(ts[2].token_type, TokenType::String);
}

#[test]
fn scans_numbers() {
    let mut scanner = Scanner::new("1.5 2. 30".to_string());
    let a = scanner.next_token();
    assert_eq!(a.token_type, TokenType::Number);
    assert_eq!(scanner.get_lexeme(a), "1.5");
    let b = scanner.next_token();
    assert_eq!(scanner.get_lexeme(b), "2");
    assert_eq!(scanner.next_token().token_type, TokenType::Dot);
    let c = scanner.next_token();
    assert_eq!(scanner.get_lexeme(c), "30");
}

#[test]
fn lists_number_literals() {
    let mut scanner = Scanner::new("var a = 1 + 2.25; print \"3\";".to_string());
    let found = scanner.number_literals();
    let texts: Vec<String> = found.iter().map(|t| scanner.get_lexeme(*t).to_string()).collect();
    assert_eq!(texts, vec!["1".to_string(), "2.25".to_string()]);
}

#[test]
fn scans_strings_with_quotes() {
    let mut scanner = Scanner::new("\"héllo\"".to_string());
    let t = scanner.next_token();
    assert_eq!(t.token_type, TokenType::String);
    assert_eq!((t.start, t.length), (0, 8));
    assert_eq!(scanner.get_lexeme(t), "\"héllo\"");
}

#[test]
fn reports_scan_errors() {
    assert_eq!(types("\"open"), vec![TokenType::Error(ScanError::UnterminatedString), TokenType::EOF]);
    assert_eq!(types("@"), vec![TokenType::Error(ScanError::UnexpectedCharacter), TokenType::EOF]);
    assert_eq!(ScanError::UnterminatedString.message(), "Unterminated string");
    assert_eq!(ScanError::UnexpectedCharacter.message(), "Unexpected Character");
}

#[test]
fn end_of_source_repeats() {
    let mut scanner = Scanner::new("x".to_string());
    scanner.next_token();
    let a = scanner.next_token();
    let b = scanner.next_token();
    assert_eq!(a.token_type, TokenType::EOF);
    assert_eq!(b.token_type, TokenType::EOF);
    assert_eq!((a.start, b.start), (1, 1));
    assert!(scanner.is_at_end());
}

#[test]
fn classifies_bytes() {
    assert!(is_digit(b'7'));
    assert!(!is_digit(b'a'));
    assert!(is_alpha(b'_'));
    assert!(is_alpha(b'Z'));
    assert!(!is_alpha(b'3'));
    assert!(is_alphanumeric(b'3'));
    assert!(!is_alphanumeric(b'-'));
}

#[test]
fn precedence_levels() {
    assert_eq!(Precedence::try_from(3), Ok(Precedence::And));
    assert_eq!(Precedence::try_from(10), Ok(Precedence::Primary));
    assert_eq!(Precedence::try_from(11), Err(()));
    assert_eq!(Precedence::Term.level(), 6);
}

#[test]
fn parse_rules() {
    let plus = get_rule(TokenType::Plus);
    assert_eq!(plus.prefix, None);
    assert_eq!(plus.infix, Some(ParseFn::Binary));
    assert_eq!(plus.precedence, Precedence::Term);
    let paren = get_rule(TokenType::LeftParen);
    assert_eq!(paren.prefix, Some(ParseFn::Grouping));
    assert_eq!(paren.infix, Some(ParseFn::Call));
    assert_eq!(get_rule(TokenType::Switch).prefix, Some(ParseFn::Switch));
    assert_eq!(get_rule(TokenType::Semicolon).precedence, Precedence::Lowest);
}
