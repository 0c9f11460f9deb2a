use monkey::lexer::{tokenize, Lexer};
use monkey::token::{ScanError, Token};

fn ident(s: &str) -> Token {
    Token::Identifier(s.into())
}

fn visible(input: &str) -> Vec<Token> {
    tokenize(input).unwrap()
}

#[test]
fn test_next_token() {
    let input = r#"
let five = 5;
let ten = 10;

let add = fn(x, y) {
    x + y;
};

let result = add(five, ten);
!-/*5;
5 < 10 > 5;

if (5 < 10) {
    return true;
} else {
    return false;
}

10 == 10;
10 != 9;
"#;

    let tests = [
        Token::Let,
        Token::Identifier("five".into()),
        Token::Assign,
        Token::Integer(5),
        Token::Semicolon,
        Token::Let,
        Token::Identifier("ten".into()),
        Token::Assign,
        Token::Integer(10),
        Token::Semicolon,
        Token::Let,
        Token::Identifier("add".into()),
        Token::Assign,
        Token::Function,
        Token::LeftParen,
        Token::Identifier("x".into()),
        Token::Comma,
        Token::Identifier("y".into()),
        Token::RightParen,
        Token::LeftBrace,
        Token::Identifier("x".into()),
        Token::Plus,
        Token::Identifier("y".into()),
        Token::Semicolon,
        Token::RightBrace,
        Token::Semicolon,
        Token::Let,
        Token::Identifier("result".into()),
        Token::Assign,
        Token::Identifier("add".into()),
        Token::LeftParen,
        Token::Identifier("five".into()),
        Token::Comma,
        Token::Identifier("ten".into()),
        Token::RightParen,
        Token::Semicolon,
        Token::Bang,
        Token::Minus,
        Token::Slash,
        Token::Asterisk,
        Token::Integer(5),
        Token::Semicolon,
        Token::Integer(5),
        Token::LessThan,
        Token::Integer(10),
        Token::GreaterThan,
        Token::Integer(5),
        Token::Semicolon,
        Token::If,
        Token::LeftParen,
        Token::Integer(5),
        Token::LessThan,
        Token::Integer(10),
        Token::RightParen,
        Token::LeftBrace,
        Token::Return,
        Token::True,
        Token::Semicolon,
        Token::RightBrace,
        Token::Else,
        Token::LeftBrace,
        Token::Return,
        Token::False,
        Token::Semicolon,
        Token::RightBrace,
        Token::Integer(10),
        Token::Equals,
        Token::Integer(10),
        Token::Semicolon,
        Token::Integer(10),
        Token::NotEquals,
        Token::Integer(9),
        Token::Semicolon,
    ];

    let mut lexer = Lexer::new(input);

    for expected in tests {
        assert_eq!(lexer.next(), Ok(Some(expected)));
    }
    assert_eq!(lexer.next(), Ok(None));
}

#[test]
fn let_statement_yields_seven_tokens() {
    assert_eq!(
        visible("let x = 5 + 10;"),
        vec![
            Token::Let,
            ident("x"),
            Token::Assign,
            Token::Integer(5),
            Token::Plus,
            Token::Integer(10),
            Token::Semicolon,
        ]
    );
}

#[test]
fn equality_comparison_example() {
    assert_eq!(
        visible("10 == 10;"),
        vec![Token::Integer(10), Token::Equals, Token::Integer(10), Token::Semicolon]
    );
}

#[test]
fn illegal_byte_truncates_the_sequence() {
    assert_eq!(
        visible("let x = 5 @ 3;"),
        vec![Token::Let, ident("x"), Token::Assign, Token::Integer(5)]
    );
}

#[test]
fn illegal_byte_carries_its_offset() {
    let mut lexer = Lexer::new("let x = 5 @ 3;");
    for _ in 0..4 {
        assert!(matches!(lexer.next_token(), Ok(_)));
    }
    assert_eq!(lexer.next_token(), Ok(Token::Illegal { char: b'@', position: 10 }));
}

#[test]
fn rescanning_gives_the_same_tokens() {
    let input = "let add = fn(a, b) { a + b; }; add(1, 22) >= 3 != 4";
    assert_eq!(tokenize(input), tokenize(input));
    let mut first = Lexer::new(input);
    let mut second = Lexer::new(input);
    assert_eq!(first.tokens(), second.tokens());
    assert_eq!(visible(input).len(), 26);
}

#[test]
fn empty_input_has_no_tokens() {
    assert_eq!(visible(""), vec![]);
    let mut lexer = Lexer::new("");
    assert_eq!(lexer.next_token(), Ok(Token::Eof));
    assert_eq!(lexer.next_token(), Ok(Token::Eof));
}

#[test]
fn whitespace_only_input_has_no_tokens() {
    assert_eq!(visible(" \t\r\n  \n"), vec![]);
}

#[test]
fn keyword_prefix_is_an_identifier() {
    assert_eq!(visible("truex"), vec![ident("truex")]);
    assert_eq!(visible("true x"), vec![Token::True, ident("x")]);
    assert_eq!(visible("lets fn_ iff"), vec![ident("lets"), ident("fn_"), ident("iff")]);
}

#[test]
fn every_keyword_is_recognised() {
    assert_eq!(
        visible("fn let if else return true false"),
        vec![
            Token::Function,
            Token::Let,
            Token::If,
            Token::Else,
            Token::Return,
            Token::True,
            Token::False,
        ]
    );
}

#[test]
fn identifiers_hold_letters_digits_and_underscores() {
    assert_eq!(visible("_a1 Zeta_9"), vec![ident("_a1"), ident("Zeta_9")]);
}

#[test]
fn lookahead_pairs_and_singles() {
    assert_eq!(
        visible("= == ! != < <= > >="),
        vec![
            Token::Assign,
            Token::Equals,
            Token::Bang,
            Token::NotEquals,
            Token::LessThan,
            Token::LessThanOrEquals,
            Token::GreaterThan,
            Token::GreaterThanOrEquals,
        ]
    );
    assert_eq!(visible("==="), vec![Token::Equals, Token::Assign]);
    assert_eq!(visible("a=b"), vec![ident("a"), Token::Assign, ident("b")]);
    assert_eq!(visible("!"), vec![Token::Bang]);
}

#[test]
fn two_byte_operator_moves_past_both_bytes() {
    let mut lexer = Lexer::new("<=5");
    assert_eq!(lexer.next_token(), Ok(Token::LessThanOrEquals));
    assert_eq!(lexer.next_token(), Ok(Token::Integer(5)));
}

#[test]
fn delimiters_map_directly() {
    assert_eq!(
        visible("+-*/,;(){}"),
        vec![
            Token::Plus,
            Token::Minus,
            Token::Asterisk,
            Token::Slash,
            Token::Comma,
            Token::Semicolon,
            Token::LeftParen,
            Token::RightParen,
            Token::LeftBrace,
            Token::RightBrace,
        ]
    );
}

#[test]
fn integers_are_base_ten() {
    assert_eq!(visible("007"), vec![Token::Integer(7)]);
    assert_eq!(visible("-42"), vec![Token::Minus, Token::Integer(42)]);
    assert_eq!(visible("5abc"), vec![Token::Integer(5), ident("abc")]);
    assert_eq!(visible("2147483647"), vec![Token::Integer(2147483647)]);
}

#[test]
fn integer_overflow_is_an_error() {
    assert_eq!(
        tokenize("1 +  2147483648;"),
        Err(ScanError::IntegerOverflow { position: 5 })
    );
    let mut lexer = Lexer::new("99999999999 x");
    assert_eq!(lexer.next_token(), Err(ScanError::IntegerOverflow { position: 0 }));
    assert_eq!(lexer.next_token(), Err(ScanError::IntegerOverflow { position: 0 }));
    assert_eq!(lexer.next(), Err(ScanError::IntegerOverflow { position: 0 }));
}

#[test]
fn bytes_outside_the_alphabet_are_illegal() {
    let mut lexer = Lexer::new("\u{0}x");
    assert_eq!(lexer.next_token(), Ok(Token::Illegal { char: 0, position: 0 }));
    let mut lexer = Lexer::new(" \u{c}");
    assert_eq!(lexer.next_token(), Ok(Token::Illegal { char: 12, position: 1 }));
    let mut lexer = Lexer::new("é");
    assert_eq!(lexer.next_token(), Ok(Token::Illegal { char: 0xc3, position: 0 }));
    assert_eq!(visible("a é b"), vec![ident("a")]);
}

#[test]
fn next_stops_at_end_of_input() {
    let mut lexer = Lexer::new("x ");
    assert_eq!(lexer.next(), Ok(Some(ident("x"))));
    assert_eq!(lexer.next(), Ok(None));
    assert_eq!(lexer.next(), Ok(None));
}

#[test]
fn token_text_spells_the_token() {
    assert_eq!(Token::GreaterThanOrEquals.to_text(), ">=");
    assert_eq!(Token::LessThanOrEquals.to_text(), "<=");
    assert_eq!(Token::Equals.to_text(), "==");
    assert_eq!(Token::Assign.to_text(), "=");
    assert_eq!(Token::NotEquals.to_text(), "!=");
    assert_eq!(Token::LeftBrace.to_text(), "{");
    assert_eq!(Token::Return.to_text(), "return");
    assert_eq!(ident("five").to_text(), "five");
    assert_eq!(Token::Eof.to_text(), "");
    assert_eq!(Token::Illegal { char: b'@', position: 3 }.to_text(), "");
}

#[test]
fn integer_text_is_its_numeral() {
    assert_eq!(Token::Integer(0).to_text(), "0");
    assert_eq!(Token::Integer(120).to_text(), "120");
    assert_eq!(Token::Integer(-7).to_text(), "-7");
    assert_eq!(Token::Integer(2147483647).to_text(), "2147483647");
    assert_eq!(Token::Integer(-2147483648).to_text(), "-2147483648");
}

#[test]
fn token_texts_scan_back_to_the_same_tokens() {
    let tokens = visible("let add = fn(a, b) { return a >= b; }; if (x != 10) { y }");
    let joined: Vec<String> = tokens.iter().map(|t| t.to_text()).collect();
    assert_eq!(visible(&joined.join(" ")), tokens);
}

#[test]
fn nothing_follows_an_illegal_byte() {
    let mut lexer = Lexer::new("let x = 5 @ 3;");
    for _ in 0..4 {
        assert!(matches!(lexer.next(), Ok(Some(_))));
    }
    for _ in 0..3 {
        assert_eq!(lexer.next(), Ok(None));
    }
    assert_eq!(lexer.next_token(), Ok(Token::Illegal { char: b'@', position: 10 }));
    assert_eq!(lexer.tokens(), Ok(vec![]));
}

#[test]
fn fresh_scanners_agree_call_by_call() {
    let input = "if (a <= 3) { return b; } @ c";
    let mut first = Lexer::new(input);
    let mut second = Lexer::new(input);
    for _ in 0..14 {
        assert_eq!(first.next(), second.next());
    }
}
