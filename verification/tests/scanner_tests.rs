use calc::scanner::{scan, Scanner};
use calc::token::{LexError, Token};

fn chars_of(s: &str) -> Vec<char> {
    s.chars().collect()
}

#[test]
fn scan_tokens() {
    let chars = vec!['+', '-', '*', '/'];
    let mut scanner = Scanner::new(chars);
    let rs = scanner.scan_tokens();
    assert_eq!(rs, Ok(()));

    assert_eq!(
        scanner.tokens,
        vec![Token::Plus, Token::Minus, Token::Multiply, Token::Divide]
    );
}

#[test]
fn scan_num_tokens() {
    let chars = vec!['+', '-', '*', '/', '1', '2', '.', '8'];
    let mut scanner = Scanner::new(chars);
    let rs = scanner.scan_tokens();
    assert_eq!(rs, Ok(()));

    for tk in &scanner.tokens {
        println!("token: {:?}", tk);
    }

    assert_eq!(
        scanner.tokens,
        vec![
            Token::Plus,
            Token::Minus,
            Token::Multiply,
            Token::Divide,
            Token::Number(vec!['1', '2', '.', '8']),
        ]
    );
    // the span "12.8" means the double 12.8
    match &scanner.tokens[4] {
        Token::Number(text) => {
            let s: String = text.iter().collect();
            assert_eq!(s.parse::<f64>().unwrap(), 12.8_f64);
        }
        other => panic!("token: {:?}", other),
    }
}

#[test]
fn scan_tokens_not_support_token() {
    let chars = vec!['+', '-', '&', '/', '1', '2', '.', '8'];
    let mut scanner = Scanner::new(chars);
    let rs = scanner.scan_tokens();
    assert_eq!(rs, Err(LexError::UnsupportedToken('&')));
}

#[test]
fn scan_symbols_one_token_per_character() {
    let rs = scan(chars_of(" ( )\t^\n* / + -\r")).unwrap();
    assert_eq!(
        rs,
        vec![
            Token::LeftParen,
            Token::RightParen,
            Token::Power,
            Token::Multiply,
            Token::Divide,
            Token::Plus,
            Token::Minus,
        ]
    );
}

#[test]
fn scan_number_span_single_token() {
    let rs = scan(chars_of("907.125")).unwrap();
    assert_eq!(rs, vec![Token::Number(chars_of("907.125"))]);
    assert_eq!("907.125".parse::<f64>().unwrap(), 907.125_f64);
}

#[test]
fn scan_integer_run_single_token() {
    let rs = scan(chars_of("0042")).unwrap();
    assert_eq!(rs, vec![Token::Number(chars_of("0042"))]);
}

#[test]
fn scan_trailing_dot_left_out_of_number() {
    // "12." scans the number "12"; the lone '.' fits no token rule
    let rs = scan(chars_of("12."));
    assert_eq!(rs, Err(LexError::UnsupportedToken('.')));
}

#[test]
fn scan_unsupported_character() {
    let rs = scan(chars_of("1 + a"));
    assert_eq!(rs, Err(LexError::UnsupportedToken('a')));
}

#[test]
fn scan_empty_input() {
    let rs = scan(Vec::new()).unwrap();
    assert_eq!(rs, Vec::<Token>::new());
}

#[test]
fn scan_is_deterministic() {
    let a = scan(chars_of("3 * (4 + 5)"));
    let b = scan(chars_of("3 * (4 + 5)"));
    assert_eq!(a, b);
}
