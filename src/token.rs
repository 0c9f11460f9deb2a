use vstd::prelude::*;

verus! {

/// A classified lexical unit.
#[derive(Debug, Clone, PartialEq)]
pub enum Token {
    // identifiers and literals
    Identifier(String),
    Integer(i32),
    // operators
    Assign,
    Bang,
    Plus,
    Minus,
    Asterisk,
    Slash,
    LessThan,
    LessThanOrEquals,
    GreaterThan,
    GreaterThanOrEquals,
    Equals,
    NotEquals,
    // delimiters
    Comma,
    Semicolon,
    LeftParen,
    RightParen,
    LeftBrace,
    RightBrace,
    // keywords
    Function,
    Let,
    If,
    Else,
    Return,
    True,
    False,
    /// A byte that starts no token, with its offset in the source.
    Illegal { char: u8, position: usize },
    /// The end of the input.
    Eof,
}

/// The mathematical value of a token: identifier text as characters,
/// integer literals as unbounded integers.
pub enum SpecToken {
    Identifier(Seq<char>),
    Integer(int),
    Assign,
    Bang,
    Plus,
    Minus,
    Asterisk,
    Slash,
    LessThan,
    LessThanOrEquals,
    GreaterThan,
    GreaterThanOrEquals,
    Equals,
    NotEquals,
    Comma,
    Semicolon,
    LeftParen,
    RightParen,
    LeftBrace,
    RightBrace,
    Function,
    Let,
    If,
    Else,
    Return,
    True,
    False,
    Illegal { byte: u8, position: nat },
    Eof,
}

impl View for Token {
    type V = SpecToken;

    open spec fn view(&self) -> SpecToken {
        match self {
            Token::Identifier(s) => SpecToken::Identifier(s@),
            Token::Integer(n) => SpecToken::Integer(*n as int),
            Token::Assign => SpecToken::Assign,
            Token::Bang => SpecToken::Bang,
            Token::Plus => SpecToken::Plus,
            Token::Minus => SpecToken::Minus,
            Token::Asterisk => SpecToken::Asterisk,
            Token::Slash => SpecToken::Slash,
            Token::LessThan => SpecToken::LessThan,
            Token::LessThanOrEquals => SpecToken::LessThanOrEquals,
            Token::GreaterThan => SpecToken::GreaterThan,
            Token::GreaterThanOrEquals => SpecToken::GreaterThanOrEquals,
            Token::Equals => SpecToken::Equals,
            Token::NotEquals => SpecToken::NotEquals,
            Token::Comma => SpecToken::Comma,
            Token::Semicolon => SpecToken::Semicolon,
            Token::LeftParen => SpecToken::LeftParen,
            Token::RightParen => SpecToken::RightParen,
            Token::LeftBrace => SpecToken::LeftBrace,
            Token::RightBrace => SpecToken::RightBrace,
            Token::Function => SpecToken::Function,
            Token::Let => SpecToken::Let,
            Token::If => SpecToken::If,
            Token::Else => SpecToken::Else,
            Token::Return => SpecToken::Return,
            Token::True => SpecToken::True,
            Token::False => SpecToken::False,
            Token::Illegal { char, position } => SpecToken::Illegal {
                byte: *char,
                position: *position as nat,
            },
            Token::Eof => SpecToken::Eof,
        }
    }
}

/// Why a scan could not produce a token.
#[derive(Debug, Clone, Copy, PartialEq, Eq, Structural)]
pub enum ScanError {
    /// A run of digits whose value does not fit in an `i32`; `position` is
    /// the offset of its first digit.
    IntegerOverflow { position: usize },
}

/// The views of a sequence of tokens.
pub open spec fn views(ts: Seq<Token>) -> Seq<SpecToken> {
    ts.map_values(|t: Token| t@)
}

/// Whether `r`, the outcome of a scan run to its end, is `o`, the outcome
/// of the model: the same tokens, or an overflow at the same offset.
pub open spec fn scanned_as(r: Result<Vec<Token>, ScanError>, o: Result<Seq<SpecToken>, nat>) -> bool {
    match o {
        Ok(ts) => r is Ok && views(r->Ok_0@) == ts,
        Err(p) => r is Err && r->Err_0 == (ScanError::IntegerOverflow { position: p as usize }),
    }
}

/// Relies on `String::push`: the character is appended at the end.
#[verifier::external_body]
pub(crate) fn push_char(s: &mut String, c: char)
    ensures
        final(s)@ == old(s)@.push(c),
{
    s.push(c)
}

/// The character of a decimal digit.
pub open spec fn digit_char(d: nat) -> char {
    ((d + 48) as u8) as char
}

/// The base-10 numeral of a natural number, without leading zeros.
pub open spec fn decimal(n: nat) -> Seq<char>
    decreases n,
{
    if n < 10 {
        seq![digit_char(n)]
    } else {
        decimal(n / 10).push(digit_char(n % 10))
    }
}

/// The base-10 numeral of an integer, with a leading `-` when negative.
pub open spec fn signed_decimal(v: int) -> Seq<char> {
    if v < 0 {
        seq!['-'] + decimal((-v) as nat)
    } else {
        decimal(v as nat)
    }
}

/// The text of a token: how it is spelt in source, an identifier's name,
/// an integer's numeral; nothing for `Illegal` and `Eof`.
pub open spec fn text(t: SpecToken) -> Seq<char> {
    match t {
        SpecToken::Identifier(name) => name,
        SpecToken::Integer(v) => signed_decimal(v),
        SpecToken::Assign => seq!['='],
        SpecToken::Bang => seq!['!'],
        SpecToken::Plus => seq!['+'],
        SpecToken::Minus => seq!['-'],
        SpecToken::Asterisk => seq!['*'],
        SpecToken::Slash => seq!['/'],
        SpecToken::LessThan => seq!['<'],
        SpecToken::LessThanOrEquals => seq!['<', '='],
        SpecToken::GreaterThan => seq!['>'],
        SpecToken::GreaterThanOrEquals => seq!['>', '='],
        SpecToken::Equals => seq!['=', '='],
        SpecToken::NotEquals => seq!['!', '='],
        SpecToken::Comma => seq![','],
        SpecToken::Semicolon => seq![';'],
        SpecToken::LeftParen => seq!['('],
        SpecToken::RightParen => seq![')'],
        SpecToken::LeftBrace => seq!['{'],
        SpecToken::RightBrace => seq!['}'],
        SpecToken::Function => seq!['f', 'n'],
        SpecToken::Let => seq!['l', 'e', 't'],
        SpecToken::If => seq!['i', 'f'],
        SpecToken::Else => seq!['e', 'l', 's', 'e'],
        SpecToken::Return => seq!['r', 'e', 't', 'u', 'r', 'n'],
        SpecToken::True => seq!['t', 'r', 'u', 'e'],
        SpecToken::False => seq!['f', 'a', 'l', 's', 'e'],
        SpecToken::Illegal { .. } => seq![],
        SpecToken::Eof => seq![],
    }
}

fn push_decimal(out: &mut String, n: u32)
    ensures
        final(out)@ == old(out)@ + decimal(n as nat),
    decreases n,
{
    if n >= 10 {
        push_decimal(out, n / 10);
    }
    let d = (n % 10) as u8;
    push_char(out, (d + 48) as char);
    proof {
        if n >= 10 {
            assert(old(out)@ + decimal(n as nat) =~= old(out)@ + decimal((n / 10) as nat)
                + seq![digit_char((n % 10) as nat)]);
        } else {
            assert(old(out)@ + decimal(n as nat) =~= old(out)@.push(digit_char(n as nat)));
        }
    }
}

impl Token {
    /// The token's text, as `text` states it.
    pub fn to_text(&self) -> (r: String)
        ensures
            r@ == text(self@),
    {
        let mut out = String::new();
        match self {
            Token::Identifier(name) => {
                return name.clone();
            },
            Token::Integer(v) => {
                if *v < 0 {
                    push_char(&mut out, '-');
                    push_decimal(&mut out, (-(*v as i64)) as u32);
                    assert(out@ =~= seq!['-'] + decimal((-(*v as int)) as nat));
                } else {
                    push_decimal(&mut out, *v as u32);
                    assert(out@ =~= decimal(*v as nat));
                }
            },
            Token::Assign => push_char(&mut out, '='),
            Token::Bang => push_char(&mut out, '!'),
            Token::Plus => push_char(&mut out, '+'),
            Token::Minus => push_char(&mut out, '-'),
            Token::Asterisk => push_char(&mut out, '*'),
            Token::Slash => push_char(&mut out, '/'),
            Token::LessThan => push_char(&mut out, '<'),
            Token::LessThanOrEquals => {
                push_char(&mut out, '<');
                push_char(&mut out, '=');
            },
            Token::GreaterThan => push_char(&mut out, '>'),
            Token::GreaterThanOrEquals => {
                push_char(&mut out, '>');
                push_char(&mut out, '=');
            },
            Token::Equals => {
                push_char(&mut out, '=');
                push_char(&mut out, '=');
            },
            Token::NotEquals => {
                push_char(&mut out, '!');
                push_char(&mut out, '=');
            },
            Token::Comma => push_char(&mut out, ','),
            Token::Semicolon => push_char(&mut out, ';'),
            Token::LeftParen => push_char(&mut out, '('),
            Token::RightParen => push_char(&mut out, ')'),
            Token::LeftBrace => push_char(&mut out, '{'),
            Token::RightBrace => push_char(&mut out, '}'),
            Token::Function => {
                push_char(&mut out, 'f');
                push_char(&mut out, 'n');
            },
            Token::Let => {
                push_char(&mut out, 'l');
                push_char(&mut out, 'e');
                push_char(&mut out, 't');
            },
            Token::If => {
                push_char(&mut out, 'i');
                push_char(&mut out, 'f');
            },
            Token::Else => {
                push_char(&mut out, 'e');
                push_char(&mut out, 'l');
                push_char(&mut out, 's');
                push_char(&mut out, 'e');
            },
            Token::Return => {
                push_char(&mut out, 'r');
                push_char(&mut out, 'e');
                push_char(&mut out, 't');
                push_char(&mut out, 'u');
                push_char(&mut out, 'r');
                push_char(&mut out, 'n');
            },
            Token::True => {
                push_char(&mut out, 't');
                push_char(&mut out, 'r');
                push_char(&mut out, 'u');
                push_char(&mut out, 'e');
            },
            Token::False => {
                push_char(&mut out, 'f');
                push_char(&mut out, 'a');
                push_char(&mut out, 'l');
                push_char(&mut out, 's');
                push_char(&mut out, 'e');
            },
            Token::Illegal { .. } => {},
            Token::Eof => {},
        }
        proof {
            assert(out@ =~= text(self@));
        }
        out
    }
}

} // verus!
