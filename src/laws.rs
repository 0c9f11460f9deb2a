//! Properties of the scan as a whole, proved over the model that the
//! scanner's contracts are stated in.

use vstd::prelude::*;
use crate::model::{
    ascii_chars, digits_value, eq_follows, ident_end, in_alphabet, is_digit,
    is_ident_char, is_letter, is_whitespace, keyword, scan_from, single, skip_ws, step,
    lemma_digits_end_bounds, lemma_ident_end_bounds, lemma_skip_ws_bounds, lemma_step_bounds,
    EQUALS_SIGN, EXCLAMATION, GREATER_SIGN, LESS_SIGN,
};
use crate::lexer::next_outcome;
use crate::token::{scanned_as, views, ScanError, SpecToken, Token};

verus! {

/// Whether `w`, the bytes a token was read from, is a spelling of `t`.
pub open spec fn spells(t: SpecToken, w: Seq<u8>) -> bool {
    match t {
        SpecToken::Identifier(name) => {
            &&& w.len() > 0
            &&& is_letter(w[0])
            &&& forall|m: int| 0 <= m < w.len() ==> is_ident_char(#[trigger] w[m])
            &&& keyword(w) is None
            &&& name == ascii_chars(w)
        },
        SpecToken::Integer(v) => {
            &&& w.len() > 0
            &&& forall|m: int| 0 <= m < w.len() ==> is_digit(#[trigger] w[m])
            &&& digits_value(w) == v
        },
        SpecToken::Function | SpecToken::Let | SpecToken::If | SpecToken::Else
        | SpecToken::Return | SpecToken::True | SpecToken::False => keyword(w) == Some(t),
        SpecToken::Assign => w.len() == 1 && w[0] == EQUALS_SIGN,
        SpecToken::Bang => w.len() == 1 && w[0] == EXCLAMATION,
        SpecToken::LessThan => w.len() == 1 && w[0] == LESS_SIGN,
        SpecToken::GreaterThan => w.len() == 1 && w[0] == GREATER_SIGN,
        SpecToken::Equals => w.len() == 2 && w[0] == EQUALS_SIGN && w[1] == EQUALS_SIGN,
        SpecToken::NotEquals => w.len() == 2 && w[0] == EXCLAMATION && w[1] == EQUALS_SIGN,
        SpecToken::LessThanOrEquals => w.len() == 2 && w[0] == LESS_SIGN && w[1] == EQUALS_SIGN,
        SpecToken::GreaterThanOrEquals => {
            w.len() == 2 && w[0] == GREATER_SIGN && w[1] == EQUALS_SIGN
        },
        SpecToken::Illegal { byte, position } => w.len() == 1 && w[0] == byte,
        SpecToken::Eof => w.len() == 0,
        _ => w.len() == 1 && single(w[0]) == Some(t),
    }
}

/// Whether the input from `i` on splits, step by step, into a run of
/// whitespace followed by the bytes of one token, until the end of the input
/// is reached with no illegal byte on the way.
pub open spec fn covers(s: Seq<u8>, i: nat) -> bool
    decreases s.len() - i,
    via covers_decreases
{
    let k = skip_ws(s, i);
    let (t, j) = step(s, i);
    &&& forall|m: int| i <= m < k ==> is_whitespace(#[trigger] s[m])
    &&& k <= j <= s.len()
    &&& spells(t, s.subrange(k as int, j as int))
    &&& !(t is Illegal)
    &&& if t is Eof {
        k == s.len()
    } else {
        i < j && covers(s, j)
    }
}

#[via_fn]
proof fn covers_decreases(s: Seq<u8>, i: nat) {
}

/// A scan is a function of the text alone: two scans of the same text, each
/// run to its end from a fresh scanner, yield the same tokens, or fail at the
/// same offset.
pub proof fn lemma_rescan_agrees(
    s: Seq<u8>,
    a: Result<Vec<Token>, ScanError>,
    b: Result<Vec<Token>, ScanError>,
)
    requires
        scanned_as(a, scan_from(s, 0)),
        scanned_as(b, scan_from(s, 0)),
    ensures
        a is Ok <==> b is Ok,
        a is Ok ==> views(a->Ok_0@) == views(b->Ok_0@),
        a is Err ==> a->Err_0 == b->Err_0,
{
}

/// One call of `next` is a function of the text and the cursor: two
/// scanners over the same text with the same cursor return the same result
/// (and, by the contract of `next`, leave their cursors at the same offset,
/// `cursor_after`). By induction from `Lexer::new`, two fresh scanners over
/// the same text yield the same sequence call by call.
pub proof fn lemma_next_agrees(
    s: Seq<u8>,
    i: nat,
    a: Result<Option<Token>, ScanError>,
    b: Result<Option<Token>, ScanError>,
)
    requires
        next_outcome(s, i, a),
        next_outcome(s, i, b),
    ensures
        a is Ok <==> b is Ok,
        a is Ok ==> (a->Ok_0 is Some <==> b->Ok_0 is Some),
        a is Ok && a->Ok_0 is Some ==> a->Ok_0->0@ == b->Ok_0->0@,
        a is Err ==> a->Err_0 == b->Err_0,
{
}

/// Each step from a cursor in the input reads the token that the bytes
/// after the skipped whitespace spell, and an illegal token only where that
/// first byte is outside the alphabet.
pub proof fn lemma_step_spells(s: Seq<u8>, i: nat)
    requires
        i <= s.len(),
    ensures
        spells(step(s, i).0, s.subrange(skip_ws(s, i) as int, step(s, i).1 as int)),
        step(s, i).0 is Illegal ==> !in_alphabet(s[skip_ws(s, i) as int]),
{
    lemma_step_bounds(s, i);
    lemma_skip_ws_bounds(s, i);
    let k = skip_ws(s, i);
    if k < s.len() {
        lemma_ident_end_bounds(s, k);
        lemma_digits_end_bounds(s, k);
        let (t, j) = step(s, i);
        let w = s.subrange(k as int, j as int);
        assert(forall|m: int| 0 <= m < w.len() ==> w[m] == s[k + m]);
    }
}

proof fn lemma_covers_from(s: Seq<u8>, i: nat)
    requires
        i <= s.len(),
        forall|m: int| 0 <= m < s.len() ==> in_alphabet(#[trigger] s[m]),
    ensures
        covers(s, i),
    decreases s.len() - i,
{
    lemma_step_bounds(s, i);
    lemma_skip_ws_bounds(s, i);
    lemma_step_spells(s, i);
    let (t, j) = step(s, i);
    if !(t is Eof) {
        lemma_covers_from(s, j);
    }
}

/// Over an input of the alphabet alone, the scan accounts for every byte
/// exactly once: the input splits into whitespace runs and token spellings,
/// in order, up to its end.
pub proof fn lemma_total_coverage(s: Seq<u8>)
    requires
        forall|m: int| 0 <= m < s.len() ==> in_alphabet(#[trigger] s[m]),
    ensures
        covers(s, 0),
{
    lemma_covers_from(s, 0);
}

/// A run of identifier bytes that spells a reserved word is that keyword,
/// else one identifier; the run is maximal, so a reserved word followed by
/// more identifier bytes is an identifier; and an identifier's text never
/// spells a reserved word.
pub proof fn lemma_keyword_precedence(s: Seq<u8>, i: nat)
    requires
        i <= s.len(),
    ensures
        ({
            let k = skip_ws(s, i);
            let e = ident_end(s, k);
            let w = s.subrange(k as int, e as int);
            k < s.len() && is_letter(s[k as int]) ==> {
                &&& step(s, i).1 == e
                &&& e < s.len() ==> !is_ident_char(s[e as int])
                &&& keyword(w) is Some ==> step(s, i).0 == keyword(w)->0
                &&& keyword(w) is None ==> step(s, i).0 == SpecToken::Identifier(ascii_chars(w))
            }
        }),
        step(s, i).0 is Identifier ==> keyword(
            s.subrange(skip_ws(s, i) as int, step(s, i).1 as int),
        ) is None,
{
    lemma_skip_ws_bounds(s, i);
    let k = skip_ws(s, i);
    if k < s.len() {
        lemma_ident_end_bounds(s, k);
    }
}

/// `=`, `!`, `<` and `>` followed by `=` are one two-byte token and the
/// cursor moves past both bytes; not followed by `=` they are one-byte
/// tokens.
pub proof fn lemma_lookahead(s: Seq<u8>, i: nat)
    requires
        i <= s.len(),
    ensures
        ({
            let k = skip_ws(s, i);
            k < s.len() ==> {
                &&& s[k as int] == EQUALS_SIGN ==> step(s, i) == if eq_follows(s, k) {
                    (SpecToken::Equals, k + 2)
                } else {
                    (SpecToken::Assign, k + 1)
                }
                &&& s[k as int] == EXCLAMATION ==> step(s, i) == if eq_follows(s, k) {
                    (SpecToken::NotEquals, k + 2)
                } else {
                    (SpecToken::Bang, k + 1)
                }
                &&& s[k as int] == LESS_SIGN ==> step(s, i) == if eq_follows(s, k) {
                    (SpecToken::LessThanOrEquals, k + 2)
                } else {
                    (SpecToken::LessThan, k + 1)
                }
                &&& s[k as int] == GREATER_SIGN ==> step(s, i) == if eq_follows(s, k) {
                    (SpecToken::GreaterThanOrEquals, k + 2)
                } else {
                    (SpecToken::GreaterThan, k + 1)
                }
            }
        }),
{
}

proof fn lemma_blank_skipped(s: Seq<u8>, i: nat)
    requires
        i <= s.len(),
        forall|m: int| 0 <= m < s.len() ==> is_whitespace(#[trigger] s[m]),
    ensures
        skip_ws(s, i) == s.len(),
    decreases s.len() - i,
{
    if i < s.len() {
        lemma_blank_skipped(s, i + 1);
    }
}

/// An input of whitespace alone, the empty input included, has no visible
/// tokens.
pub proof fn lemma_blank_input(s: Seq<u8>)
    requires
        forall|m: int| 0 <= m < s.len() ==> is_whitespace(#[trigger] s[m]),
    ensures
        scan_from(s, 0) == Ok::<Seq<SpecToken>, nat>(seq![]),
{
    lemma_blank_skipped(s, 0);
}

} // verus!
