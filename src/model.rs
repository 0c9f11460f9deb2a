//! The scan as mathematics: what each step of the scanner reads and yields,
//! stated over the source bytes.

use vstd::prelude::*;
use crate::token::SpecToken;

verus! {

/// ASCII codes of the bytes the scanner classifies.
pub const LOWER_A: u8 = 97; // a
pub const LOWER_Z: u8 = 122; // z
pub const UPPER_A: u8 = 65; // A
pub const UPPER_Z: u8 = 90; // Z
pub const UNDERSCORE: u8 = 95; // _
pub const DIGIT_ZERO: u8 = 48; // 0
pub const DIGIT_NINE: u8 = 57; // 9
pub const SPACE: u8 = 32; // space
pub const TAB: u8 = 9; // tab
pub const NEWLINE: u8 = 10; // newline
pub const RETURN: u8 = 13; // carriage return
pub const EQUALS_SIGN: u8 = 61; // =
pub const EXCLAMATION: u8 = 33; // !
pub const LESS_SIGN: u8 = 60; // <
pub const GREATER_SIGN: u8 = 62; // >
pub const PLUS_SIGN: u8 = 43; // +
pub const MINUS_SIGN: u8 = 45; // -
pub const STAR: u8 = 42; // *
pub const SLASH_SIGN: u8 = 47; // /
pub const COMMA_SIGN: u8 = 44; // ,
pub const SEMICOLON_SIGN: u8 = 59; // ;
pub const OPEN_PAREN: u8 = 40; // (
pub const CLOSE_PAREN: u8 = 41; // )
pub const OPEN_BRACE: u8 = 123; // {
pub const CLOSE_BRACE: u8 = 125; // }

pub open spec fn is_letter(c: u8) -> bool {
    (LOWER_A <= c && c <= LOWER_Z) || (UPPER_A <= c && c <= UPPER_Z) || c == UNDERSCORE
}

pub open spec fn is_digit(c: u8) -> bool {
    DIGIT_ZERO <= c && c <= DIGIT_NINE
}

pub open spec fn is_ident_char(c: u8) -> bool {
    is_letter(c) || is_digit(c)
}

/// Space, tab, newline and carriage return.
pub open spec fn is_whitespace(c: u8) -> bool {
    c == SPACE || c == TAB || c == NEWLINE || c == RETURN
}

/// Bytes that start a one- or two-byte operator or delimiter.
pub open spec fn is_symbol(c: u8) -> bool {
    c == EQUALS_SIGN || c == EXCLAMATION || c == LESS_SIGN || c == GREATER_SIGN || c == PLUS_SIGN || c == MINUS_SIGN || c == STAR
        || c == SLASH_SIGN || c == COMMA_SIGN || c == SEMICOLON_SIGN || c == OPEN_PAREN || c == CLOSE_PAREN || c == OPEN_BRACE
        || c == CLOSE_BRACE
}

/// The source alphabet: every byte that can start a token or be skipped.
pub open spec fn in_alphabet(c: u8) -> bool {
    is_whitespace(c) || is_ident_char(c) || is_symbol(c)
}

/// The byte at `i`, or 0 past the end of the input.
pub open spec fn byte_at(s: Seq<u8>, i: nat) -> u8 {
    if i < s.len() {
        s[i as int]
    } else {
        0
    }
}

/// End of the maximal run of whitespace that starts at `i`.
pub open spec fn skip_ws(s: Seq<u8>, i: nat) -> nat
    decreases s.len() - i,
{
    if i < s.len() && is_whitespace(s[i as int]) {
        skip_ws(s, i + 1)
    } else {
        i
    }
}

/// End of the maximal run of letters, digits and underscores that starts at `i`.
pub open spec fn ident_end(s: Seq<u8>, i: nat) -> nat
    decreases s.len() - i,
{
    if i < s.len() && is_ident_char(s[i as int]) {
        ident_end(s, i + 1)
    } else {
        i
    }
}

/// End of the maximal run of digits that starts at `i`.
pub open spec fn digits_end(s: Seq<u8>, i: nat) -> nat
    decreases s.len() - i,
{
    if i < s.len() && is_digit(s[i as int]) {
        digits_end(s, i + 1)
    } else {
        i
    }
}

/// The base-10 value of a run of digits.
pub open spec fn digits_value(d: Seq<u8>) -> int
    decreases d.len(),
{
    if d.len() == 0 {
        0
    } else {
        10 * digits_value(d.drop_last()) + (d.last() - DIGIT_ZERO)
    }
}

/// ASCII bytes read as characters.
pub open spec fn ascii_chars(b: Seq<u8>) -> Seq<char> {
    b.map_values(|c: u8| c as char)
}

/// The keyword that a word spells, if it is one of the reserved words.
pub open spec fn keyword(w: Seq<u8>) -> Option<SpecToken> {
    if w == seq![0x66u8, 0x6e] {  // "fn"
        Some(SpecToken::Function)
    } else if w == seq![0x6cu8, 0x65, 0x74] {  // "let"
        Some(SpecToken::Let)
    } else if w == seq![0x69u8, 0x66] {  // "if"
        Some(SpecToken::If)
    } else if w == seq![0x65u8, 0x6c, 0x73, 0x65] {  // "else"
        Some(SpecToken::Else)
    } else if w == seq![0x72u8, 0x65, 0x74, 0x75, 0x72, 0x6e] {  // "return"
        Some(SpecToken::Return)
    } else if w == seq![0x74u8, 0x72, 0x75, 0x65] {  // "true"
        Some(SpecToken::True)
    } else if w == seq![0x66u8, 0x61, 0x6c, 0x73, 0x65] {  // "false"
        Some(SpecToken::False)
    } else {
        None
    }
}

/// Whether the byte after `k` is `=`.
pub open spec fn eq_follows(s: Seq<u8>, k: nat) -> bool {
    k + 1 < s.len() && s[k + 1int] == EQUALS_SIGN
}

/// The token of one byte that no lookahead can extend.
pub open spec fn single(c: u8) -> Option<SpecToken> {
    if c == PLUS_SIGN {
        Some(SpecToken::Plus)
    } else if c == MINUS_SIGN {
        Some(SpecToken::Minus)
    } else if c == STAR {
        Some(SpecToken::Asterisk)
    } else if c == SLASH_SIGN {
        Some(SpecToken::Slash)
    } else if c == COMMA_SIGN {
        Some(SpecToken::Comma)
    } else if c == SEMICOLON_SIGN {
        Some(SpecToken::Semicolon)
    } else if c == OPEN_PAREN {
        Some(SpecToken::LeftParen)
    } else if c == CLOSE_PAREN {
        Some(SpecToken::RightParen)
    } else if c == OPEN_BRACE {
        Some(SpecToken::LeftBrace)
    } else if c == CLOSE_BRACE {
        Some(SpecToken::RightBrace)
    } else {
        None
    }
}

/// The token that starts at offset `k`, where `k` is in the input and holds
/// no whitespace, and the offset just past it.
pub open spec fn token_at(s: Seq<u8>, k: nat) -> (SpecToken, nat) {
    let c = s[k as int];
    if c == EQUALS_SIGN {
        if eq_follows(s, k) { (SpecToken::Equals, k + 2) } else { (SpecToken::Assign, k + 1) }
    } else if c == EXCLAMATION {
        if eq_follows(s, k) { (SpecToken::NotEquals, k + 2) } else { (SpecToken::Bang, k + 1) }
    } else if c == LESS_SIGN {
        if eq_follows(s, k) {
            (SpecToken::LessThanOrEquals, k + 2)
        } else {
            (SpecToken::LessThan, k + 1)
        }
    } else if c == GREATER_SIGN {
        if eq_follows(s, k) {
            (SpecToken::GreaterThanOrEquals, k + 2)
        } else {
            (SpecToken::GreaterThan, k + 1)
        }
    } else if single(c) is Some {
        (single(c)->0, k + 1)
    } else if is_letter(c) {
        let e = ident_end(s, k);
        let w = s.subrange(k as int, e as int);
        match keyword(w) {
            Some(t) => (t, e),
            None => (SpecToken::Identifier(ascii_chars(w)), e),
        }
    } else if is_digit(c) {
        let e = digits_end(s, k);
        (SpecToken::Integer(digits_value(s.subrange(k as int, e as int))), e)
    } else {
        (SpecToken::Illegal { byte: c, position: k }, k + 1)
    }
}

/// One step of the scanner from cursor `i`: skip whitespace, then read one
/// token. Yields the token and the offset just past the bytes it was read
/// from. At the end of the input the token is `Eof` and the offset is where
/// the whitespace ends. Where the scanner's cursor then stands is
/// `cursor_after`.
pub open spec fn step(s: Seq<u8>, i: nat) -> (SpecToken, nat) {
    let k = skip_ws(s, i);
    if k >= s.len() {
        (SpecToken::Eof, k)
    } else {
        token_at(s, k)
    }
}

/// Tokens that end the visible sequence.
pub open spec fn is_terminal(t: SpecToken) -> bool {
    t is Eof || t is Illegal
}

/// An integer literal whose value does not fit in an `i32`.
pub open spec fn overflows(t: SpecToken) -> bool {
    t is Integer && t->Integer_0 > i32::MAX
}

/// Where the cursor stands after one call of the scanner from `i`: past the
/// token read; or, where the scan ends there (the end of the input, an
/// illegal byte, an integer literal too large for an `i32`), on the first
/// byte after the skipped whitespace, so that every later call ends the scan
/// the same way.
pub open spec fn cursor_after(s: Seq<u8>, i: nat) -> nat {
    let (t, j) = step(s, i);
    if is_terminal(t) || overflows(t) {
        skip_ws(s, i)
    } else {
        j
    }
}

/// The visible token sequence from cursor `i`: every token up to the first
/// `Eof` or `Illegal`, neither of which is included. `Err(p)` where an
/// integer literal starting at `p` overflows before that point.
pub open spec fn scan_from(s: Seq<u8>, i: nat) -> Result<Seq<SpecToken>, nat>
    decreases s.len() - i,
    via scan_from_decreases
{
    let (t, j) = step(s, i);
    if is_terminal(t) {
        Ok(seq![])
    } else if overflows(t) {
        Err(skip_ws(s, i))
    } else {
        match scan_from(s, j) {
            Ok(rest) => Ok(seq![t] + rest),
            Err(p) => Err(p),
        }
    }
}

#[via_fn]
proof fn scan_from_decreases(s: Seq<u8>, i: nat) {
    if i <= s.len() {
        lemma_step_bounds(s, i);
    }
}

pub proof fn lemma_skip_ws_bounds(s: Seq<u8>, i: nat)
    ensures
        i <= skip_ws(s, i),
        i <= s.len() ==> skip_ws(s, i) <= s.len(),
        skip_ws(s, i) < s.len() ==> !is_whitespace(s[skip_ws(s, i) as int]),
        forall|m: int| i <= m < skip_ws(s, i) ==> is_whitespace(#[trigger] s[m]),
    decreases s.len() - i,
{
    if i < s.len() && is_whitespace(s[i as int]) {
        lemma_skip_ws_bounds(s, i + 1);
    }
}

pub proof fn lemma_ident_end_bounds(s: Seq<u8>, i: nat)
    ensures
        i <= ident_end(s, i),
        i <= s.len() ==> ident_end(s, i) <= s.len(),
        ident_end(s, i) < s.len() ==> !is_ident_char(s[ident_end(s, i) as int]),
        forall|m: int| i <= m < ident_end(s, i) ==> is_ident_char(#[trigger] s[m]),
    decreases s.len() - i,
{
    if i < s.len() && is_ident_char(s[i as int]) {
        lemma_ident_end_bounds(s, i + 1);
    }
}

pub proof fn lemma_digits_end_bounds(s: Seq<u8>, i: nat)
    ensures
        i <= digits_end(s, i),
        i <= s.len() ==> digits_end(s, i) <= s.len(),
        digits_end(s, i) < s.len() ==> !is_digit(s[digits_end(s, i) as int]),
        forall|m: int| i <= m < digits_end(s, i) ==> is_digit(#[trigger] s[m]),
    decreases s.len() - i,
{
    if i < s.len() && is_digit(s[i as int]) {
        lemma_digits_end_bounds(s, i + 1);
    }
}

/// Each step moves the cursor forward and stays within the input, and only
/// `Eof` leaves it where the whitespace ends.
pub proof fn lemma_step_bounds(s: Seq<u8>, i: nat)
    requires
        i <= s.len(),
    ensures
        skip_ws(s, i) <= step(s, i).1 <= s.len(),
        i <= skip_ws(s, i),
        step(s, i).0 is Eof <==> step(s, i).1 == skip_ws(s, i),
        step(s, i).0 is Eof ==> skip_ws(s, i) == s.len(),
{
    lemma_skip_ws_bounds(s, i);
    let k = skip_ws(s, i);
    if k < s.len() {
        lemma_ident_end_bounds(s, k);
        lemma_digits_end_bounds(s, k);
    }
}

/// Where a step ends the scan, the next step from the cursor it leaves reads
/// the same again.
pub proof fn lemma_scan_end_repeats(s: Seq<u8>, i: nat)
    requires
        i <= s.len(),
    ensures
        is_terminal(step(s, i).0) || overflows(step(s, i).0) ==> step(s, cursor_after(s, i))
            == step(s, i),
{
    lemma_skip_ws_bounds(s, i);
}

} // verus!
