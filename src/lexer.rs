//! The scanner: a cursor over the source bytes that hands out one token per
//! call, with one byte of lookahead.

use vstd::prelude::*;
use vstd::string::{StrSliceExecFns, StringSliceAdditionalSpecFns};
use crate::model::{
    CLOSE_BRACE, CLOSE_PAREN, COMMA_SIGN, DIGIT_NINE, DIGIT_ZERO, EQUALS_SIGN, EXCLAMATION,
    GREATER_SIGN, LESS_SIGN, LOWER_A, LOWER_Z, MINUS_SIGN, NEWLINE, OPEN_BRACE, OPEN_PAREN,
    PLUS_SIGN, RETURN, SEMICOLON_SIGN, SLASH_SIGN, SPACE, STAR, TAB, UNDERSCORE, UPPER_A, UPPER_Z,
    ascii_chars, byte_at, cursor_after, digits_end, digits_value, ident_end, is_digit,
    is_letter, is_terminal, is_whitespace, keyword, overflows, scan_from, single,
    skip_ws, step, lemma_digits_end_bounds, lemma_ident_end_bounds, lemma_skip_ws_bounds,
    lemma_step_bounds, lemma_scan_end_repeats,
};
use crate::token::{push_char, scanned_as, views, ScanError, SpecToken, Token};

verus! {

fn is_whitespace_byte(c: u8) -> (r: bool)
    ensures
        r == is_whitespace(c),
{
    c == SPACE || c == TAB || c == NEWLINE || c == RETURN
}

fn is_letter_byte(c: u8) -> (r: bool)
    ensures
        r == is_letter(c),
{
    (LOWER_A <= c && c <= LOWER_Z) || (UPPER_A <= c && c <= UPPER_Z) || c == UNDERSCORE
}

fn is_digit_byte(c: u8) -> (r: bool)
    ensures
        r == is_digit(c),
{
    DIGIT_ZERO <= c && c <= DIGIT_NINE
}

fn single_token(c: u8) -> (r: Option<Token>)
    ensures
        match single(c) {
            Some(t) => r is Some && r->0@ == t,
            None => r is None,
        },
{
    if c == PLUS_SIGN {
        Some(Token::Plus)
    } else if c == MINUS_SIGN {
        Some(Token::Minus)
    } else if c == STAR {
        Some(Token::Asterisk)
    } else if c == SLASH_SIGN {
        Some(Token::Slash)
    } else if c == COMMA_SIGN {
        Some(Token::Comma)
    } else if c == SEMICOLON_SIGN {
        Some(Token::Semicolon)
    } else if c == OPEN_PAREN {
        Some(Token::LeftParen)
    } else if c == CLOSE_PAREN {
        Some(Token::RightParen)
    } else if c == OPEN_BRACE {
        Some(Token::LeftBrace)
    } else if c == CLOSE_BRACE {
        Some(Token::RightBrace)
    } else {
        None
    }
}

/// Scanner state: the source bytes, the offset of the current byte
/// (`position`), the offset of the next byte to read (`read_position`) and the
/// current byte itself, 0 once the cursor is past the end.
pub struct Lexer {
    input: Vec<u8>,
    position: usize,
    read_position: usize,
    ch: u8,
}

impl Lexer {
    /// The source bytes being scanned.
    pub closed spec fn source(&self) -> Seq<u8> {
        self.input@
    }

    /// The offset of the current byte.
    pub closed spec fn cursor(&self) -> nat {
        self.position as nat
    }

    pub closed spec fn wf(&self) -> bool {
        &&& self.input@.len() < usize::MAX
        &&& self.position <= self.input@.len()
        &&& self.read_position == self.position + 1
        &&& self.ch == byte_at(self.input@, self.position as nat)
    }

    /// A scanner over a copy of `input`, with the first byte loaded.
    pub fn new(input: &str) -> (r: Lexer)
        requires
            input.spec_bytes().len() < usize::MAX,
        ensures
            r.wf(),
            r.source() == input.spec_bytes(),
            r.cursor() == 0,
    {
        let input = input.as_bytes_vec();
        let mut lexer = Lexer { input, position: 0, read_position: 0, ch: 0 };
        lexer.read_char();
        lexer
    }

    fn read_char(&mut self)
        requires
            old(self).read_position < usize::MAX,
        ensures
            final(self).input@ == old(self).input@,
            final(self).position == old(self).read_position,
            final(self).read_position == old(self).read_position + 1,
            final(self).ch == byte_at(old(self).input@, old(self).read_position as nat),
    {
        self.ch = self.peek_char();
        self.position = self.read_position;
        self.read_position = self.read_position + 1;
    }

    fn peek_char(&self) -> (c: u8)
        ensures
            c == byte_at(self.input@, self.read_position as nat),
    {
        if self.read_position < self.input.len() {
            self.input[self.read_position]
        } else {
            0
        }
    }

    /// Advances past the run of whitespace at the cursor; returns its length.
    fn skip_whitespace(&mut self) -> (n: usize)
        requires
            old(self).wf(),
        ensures
            final(self).wf(),
            final(self).input@ == old(self).input@,
            final(self).position == skip_ws(old(self).input@, old(self).position as nat),
            n == final(self).position - old(self).position,
    {
        let start_position = self.position;
        while is_whitespace_byte(self.ch)
            invariant
                self.wf(),
                self.input@ == old(self).input@,
                start_position == old(self).position,
                start_position <= self.position,
                skip_ws(self.input@, self.position as nat) == skip_ws(
                    self.input@,
                    start_position as nat,
                ),
            decreases self.input@.len() - self.position,
        {
            self.read_char();
        }
        self.position - start_position
    }

    /// Advances past the maximal run of letters, digits and underscores at
    /// the cursor; returns its text.
    fn read_identifier(&mut self) -> (r: String)
        requires
            old(self).wf(),
        ensures
            final(self).wf(),
            final(self).input@ == old(self).input@,
            final(self).position == ident_end(old(self).input@, old(self).position as nat),
            r@ == ascii_chars(
                old(self).input@.subrange(old(self).position as int, final(self).position as int),
            ),
    {
        let start_position = self.position;
        let mut word = String::new();
        while is_letter_byte(self.ch) || is_digit_byte(self.ch)
            invariant
                self.wf(),
                self.input@ == old(self).input@,
                start_position == old(self).position,
                start_position <= self.position,
                ident_end(self.input@, self.position as nat) == ident_end(
                    self.input@,
                    start_position as nat,
                ),
                word@ == ascii_chars(
                    self.input@.subrange(start_position as int, self.position as int),
                ),
            decreases self.input@.len() - self.position,
        {
            let ghost s = self.input@;
            let ghost p = self.position as int;
            push_char(&mut word, self.ch as char);
            self.read_char();
            proof {
                assert(s.subrange(start_position as int, p + 1) =~= s.subrange(
                    start_position as int,
                    p,
                ).push(s[p]));
                assert(ascii_chars(s.subrange(start_position as int, p + 1)) =~= ascii_chars(
                    s.subrange(start_position as int, p),
                ).push(s[p] as char));
            }
        }
        word
    }

    /// Advances past the maximal run of digits at the cursor; returns its
    /// value, or `None` where it does not fit in an `i32`.
    fn read_number(&mut self) -> (r: Option<i32>)
        requires
            old(self).wf(),
        ensures
            final(self).wf(),
            final(self).input@ == old(self).input@,
            final(self).position == digits_end(old(self).input@, old(self).position as nat),
            ({
                let v = digits_value(
                    old(self).input@.subrange(
                        old(self).position as int,
                        final(self).position as int,
                    ),
                );
                match r {
                    Some(n) => n == v,
                    None => v > i32::MAX,
                }
            }),
    {
        let start_position = self.position;
        let mut value: i32 = 0;
        let mut overflow = false;
        while is_digit_byte(self.ch)
            invariant
                self.wf(),
                self.input@ == old(self).input@,
                start_position == old(self).position,
                start_position <= self.position,
                digits_end(self.input@, self.position as nat) == digits_end(
                    self.input@,
                    start_position as nat,
                ),
                !overflow ==> value as int == digits_value(
                    self.input@.subrange(start_position as int, self.position as int),
                ),
                !overflow ==> value >= 0,
                overflow ==> digits_value(
                    self.input@.subrange(start_position as int, self.position as int),
                ) > i32::MAX,
            decreases self.input@.len() - self.position,
        {
            let ghost s = self.input@;
            let ghost p = self.position as int;
            let d = (self.ch - DIGIT_ZERO) as i64;
            if !overflow {
                let next = (value as i64) * 10 + d;
                if next > i32::MAX as i64 {
                    overflow = true;
                } else {
                    value = next as i32;
                }
            }
            self.read_char();
            proof {
                let sub = s.subrange(start_position as int, p);
                assert(s.subrange(start_position as int, p + 1).drop_last() =~= sub);
            }
        }
        if overflow {
            None
        } else {
            Some(value)
        }
    }

    /// Whether the bytes from `start` to `end` are exactly `word`.
    fn span_equals(&self, start: usize, end: usize, word: &Vec<u8>) -> (r: bool)
        requires
            start <= end <= self.input@.len(),
        ensures
            r == (self.input@.subrange(start as int, end as int) == word@),
    {
        if end - start != word.len() {
            return false;
        }
        let mut i: usize = 0;
        while i < word.len()
            invariant
                start <= end <= self.input@.len(),
                end - start == word@.len(),
                i <= word@.len(),
                forall|m: int| 0 <= m < i ==> self.input@[start + m] == word@[m],
            decreases word@.len() - i,
        {
            if self.input[start + i] != word[i] {
                assert(self.input@.subrange(start as int, end as int)[i as int] != word@[i as int]);
                return false;
            }
            i = i + 1;
        }
        assert(self.input@.subrange(start as int, end as int) =~= word@);
        true
    }

    /// The keyword spelt by the bytes from `start` to `end`, if any.
    fn keyword_token(&self, start: usize, end: usize) -> (r: Option<Token>)
        requires
            start <= end <= self.input@.len(),
        ensures
            match keyword(self.input@.subrange(start as int, end as int)) {
                Some(t) => r is Some && r->0@ == t,
                None => r is None,
            },
    {
        if self.span_equals(start, end, &vec![0x66, 0x6e]) {  // "fn"
            Some(Token::Function)
        } else if self.span_equals(start, end, &vec![0x6c, 0x65, 0x74]) {  // "let"
            Some(Token::Let)
        } else if self.span_equals(start, end, &vec![0x69, 0x66]) {  // "if"
            Some(Token::If)
        } else if self.span_equals(start, end, &vec![0x65, 0x6c, 0x73, 0x65]) {  // "else"
            Some(Token::Else)
        } else if self.span_equals(start, end, &vec![0x72, 0x65, 0x74, 0x75, 0x72, 0x6e]) {  // "return"
            Some(Token::Return)
        } else if self.span_equals(start, end, &vec![0x74, 0x72, 0x75, 0x65]) {  // "true"
            Some(Token::True)
        } else if self.span_equals(start, end, &vec![0x66, 0x61, 0x6c, 0x73, 0x65]) {  // "false"
            Some(Token::False)
        } else {
            None
        }
    }
    /// Reads one token: skips whitespace, then classifies the byte at the
    /// cursor, looking one byte ahead for the two-byte operators `==`, `!=`,
    /// `<=` and `>=`. At the end of the input yields `Eof` and leaves the
    /// cursor in place; a byte that starts no token (a NUL byte included)
    /// yields `Illegal`. A run of digits whose value does not fit in an `i32`
    /// is an error. Both end the scan: the cursor stays on that byte, so that
    /// every later call yields the same again.
    pub fn next_token(&mut self) -> (r: Result<Token, ScanError>)
        requires
            old(self).wf(),
        ensures
            final(self).wf(),
            final(self).source() == old(self).source(),
            final(self).cursor() == cursor_after(old(self).source(), old(self).cursor()),
            ({
                let t = step(old(self).source(), old(self).cursor()).0;
                match r {
                    Ok(tok) => !overflows(t) && tok@ == t,
                    Err(e) => overflows(t) && e == (ScanError::IntegerOverflow {
                        position: skip_ws(old(self).source(), old(self).cursor()) as usize,
                    }),
                }
            }),
    {
        proof {
            lemma_skip_ws_bounds(self.input@, self.position as nat);
        }
        self.skip_whitespace();
        if self.position >= self.input.len() {
            return Ok(Token::Eof);
        }
        let c = self.ch;
        let start = self.position;
        proof {
            lemma_ident_end_bounds(self.input@, start as nat);
            lemma_digits_end_bounds(self.input@, start as nat);
        }
        let token = if c == EQUALS_SIGN {
            if self.peek_char() == EQUALS_SIGN {
                self.read_char();
                Token::Equals
            } else {
                Token::Assign
            }
        } else if c == EXCLAMATION {
            if self.peek_char() == EQUALS_SIGN {
                self.read_char();
                Token::NotEquals
            } else {
                Token::Bang
            }
        } else if c == LESS_SIGN {
            if self.peek_char() == EQUALS_SIGN {
                self.read_char();
                Token::LessThanOrEquals
            } else {
                Token::LessThan
            }
        } else if c == GREATER_SIGN {
            if self.peek_char() == EQUALS_SIGN {
                self.read_char();
                Token::GreaterThanOrEquals
            } else {
                Token::GreaterThan
            }
        } else if let Some(t) = single_token(c) {
            t
        } else if is_letter_byte(c) {
            let word = self.read_identifier();
            return match self.keyword_token(start, self.position) {
                Some(t) => Ok(t),
                None => Ok(Token::Identifier(word)),
            };
        } else if is_digit_byte(c) {
            return match self.read_number() {
                Some(n) => Ok(Token::Integer(n)),
                None => {
                    self.position = start;
                    self.read_position = start + 1;
                    self.ch = c;
                    Err(ScanError::IntegerOverflow { position: start })
                },
            };
        } else {
            return Ok(Token::Illegal { char: c, position: start });
        };
        self.read_char();
        Ok(token)
    }

    /// The next token of the visible sequence: `None` once the scan reaches
    /// the end of the input or a byte that starts no token, and on every call
    /// after that; after an overflow error, the same error on every call.
    pub fn next(&mut self) -> (r: Result<Option<Token>, ScanError>)
        requires
            old(self).wf(),
        ensures
            final(self).wf(),
            final(self).source() == old(self).source(),
            final(self).cursor() == cursor_after(old(self).source(), old(self).cursor()),
            next_outcome(old(self).source(), old(self).cursor(), r),
            !(r is Ok && r->Ok_0 is Some) ==> step(final(self).source(), final(self).cursor())
                == step(old(self).source(), old(self).cursor()),
    {
        proof {
            lemma_scan_end_repeats(self.input@, self.position as nat);
        }
        match self.next_token() {
            Ok(Token::Eof) => Ok(None),
            Ok(Token::Illegal { .. }) => Ok(None),
            Ok(t) => Ok(Some(t)),
            Err(e) => Err(e),
        }
    }

    /// Drains the scanner: every token of the visible sequence from the
    /// cursor on, in order.
    pub fn tokens(&mut self) -> (r: Result<Vec<Token>, ScanError>)
        requires
            old(self).wf(),
        ensures
            final(self).wf(),
            final(self).source() == old(self).source(),
            scanned_as(r, scan_from(old(self).source(), old(self).cursor())),
    {
        let ghost s = self.input@;
        let ghost all = scan_from(s, self.position as nat);
        let mut out: Vec<Token> = Vec::new();
        loop
            invariant
                self.wf(),
                self.input@ == s,
                s == old(self).source(),
                all == scan_from(s, old(self).cursor()),
                match scan_from(s, self.position as nat) {
                    Ok(rest) => all == Ok::<Seq<SpecToken>, nat>(views(out@) + rest),
                    Err(p) => all == Err::<Seq<SpecToken>, nat>(p),
                },
            decreases s.len() - self.position,
        {
            let ghost cur = self.position as nat;
            let ghost before = out@;
            proof {
                lemma_step_bounds(s, cur);
            }
            match self.next() {
                Ok(Some(t)) => {
                    out.push(t);
                    proof {
                        assert(views(out@) =~= views(before).push(t@));
                        match scan_from(s, self.position as nat) {
                            Ok(rest) => {
                                assert(views(before) + (seq![t@] + rest) =~= views(out@) + rest);
                            },
                            Err(p) => {},
                        }
                    }
                },
                Ok(None) => {
                    assert(views(out@) + seq![] =~= views(out@));
                    return Ok(out);
                },
                Err(e) => {
                    return Err(e);
                },
            }
        }
    }
}

/// What one call of `next` from cursor `i` returns: the token that `step`
/// reads; `None` where it ends the visible sequence; the overflow error
/// where it is an integer literal too large for an `i32`.
pub open spec fn next_outcome(s: Seq<u8>, i: nat, r: Result<Option<Token>, ScanError>) -> bool {
    let t = step(s, i).0;
    match r {
        Ok(Some(tok)) => !is_terminal(t) && !overflows(t) && tok@ == t,
        Ok(None) => is_terminal(t),
        Err(e) => overflows(t) && e == (ScanError::IntegerOverflow { position: skip_ws(s, i) as usize }),
    }
}

/// The visible token sequence of `input`, from its first byte.
pub fn tokenize(input: &str) -> (r: Result<Vec<Token>, ScanError>)
    requires
        input.spec_bytes().len() < usize::MAX,
    ensures
        scanned_as(r, scan_from(input.spec_bytes(), 0)),
{
    let mut lexer = Lexer::new(input);
    lexer.tokens()
}

} // verus!
